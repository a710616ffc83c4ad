//! The embedder behind an index: its runtime, its model and its limits, and the
//! text that identifies it.

use vstd::prelude::*;
use vstd::utf8::{
    decode_utf8, encode_utf8, encode_utf8_decode_utf8, encode_utf8_valid_utf8, valid_utf8,
};

use crate::embeddings::error::{EmbeddingError, EmbeddingFailure};
use crate::text::{
    chars_of, decimal, decimal_reads_back, has_prefix, is_digit, number, parse_u64, parsed, same,
    strip_prefix, text_of, utf8_text, written_number_is_parsed,
};

verus! {

/// A byte that stands for itself in a percent-encoded text.
pub open spec fn is_plain(b: u8) -> bool {
    ||| 48 <= b <= 57
    ||| 65 <= b <= 90
    ||| 97 <= b <= 122
    ||| b == 45
    ||| b == 46
    ||| b == 95
    ||| b == 126
}

/// The hexadecimal digit `n`, capital letters.
pub open spec fn capital_hex(n: int) -> char {
    if n < 10 {
        (48 + n) as char
    } else {
        (55 + n) as char
    }
}

/// One byte, percent-encoded.
pub open spec fn percent_byte(b: u8) -> Seq<char> {
    if is_plain(b) {
        seq![b as char]
    } else {
        seq!['%', capital_hex(b as int / 16), capital_hex(b as int % 16)]
    }
}

/// Bytes, percent-encoded.
pub open spec fn percent_bytes(bytes: Seq<u8>) -> Seq<char>
    decreases bytes.len(),
{
    if bytes.len() == 0 {
        Seq::empty()
    } else {
        percent_byte(bytes[0]) + percent_bytes(bytes.drop_first())
    }
}

/// A text, percent-encoded: what is not a letter, a digit or one of `-._~` becomes
/// `%` and two hexadecimal digits for each byte.
pub open spec fn percent(s: Seq<char>) -> Seq<char> {
    percent_bytes(encode_utf8(s))
}

/// The value of a hexadecimal digit, capital letters.
pub open spec fn hex_value(c: char) -> Option<int> {
    if '0' <= c <= '9' {
        Some(c as int - 48)
    } else if 'A' <= c <= 'F' {
        Some(c as int - 55)
    } else {
        None
    }
}

/// The bytes that a percent-encoded text stands for, from `i` on.
pub open spec fn unpercent_from(s: Seq<char>, i: int) -> Option<Seq<u8>>
    decreases s.len() - i,
{
    if i < 0 || i >= s.len() {
        Some(Seq::empty())
    } else if s[i] == '%' {
        if i + 2 >= s.len() {
            None
        } else {
            match (hex_value(s[i + 1]), hex_value(s[i + 2]), unpercent_from(s, i + 3)) {
                (Some(h), Some(l), Some(rest)) => Some(seq![(h * 16 + l) as u8] + rest),
                _ => None,
            }
        }
    } else if (s[i] as int) < 128 && is_plain(s[i] as u8) {
        match unpercent_from(s, i + 1) {
            Some(rest) => Some(seq![s[i] as u8] + rest),
            None => None,
        }
    } else {
        None
    }
}

/// The text that a percent-encoded text stands for.
pub open spec fn unpercent(s: Seq<char>) -> Option<Seq<char>> {
    match unpercent_from(s, 0) {
        Some(bytes) => if valid_utf8(bytes) {
            Some(decode_utf8(bytes))
        } else {
            None
        },
        None => None,
    }
}

/// A character that can stand in a percent-encoded text.
pub open spec fn is_encoded_char(c: char) -> bool {
    c == '%' || ((c as int) < 128 && is_plain(c as u8))
}

proof fn percent_byte_reads_back(s: Seq<char>, i: int, b: u8)
    requires
        0 <= i,
        i + percent_byte(b).len() <= s.len(),
        s.subrange(i, i + percent_byte(b).len()) == percent_byte(b),
    ensures
        unpercent_from(s, i) == (match unpercent_from(s, i + percent_byte(b).len()) {
            Some(rest) => Some(seq![b] + rest),
            None => None,
        }),
        forall|k: int| 0 <= k < percent_byte(b).len() ==> is_encoded_char(#[trigger] percent_byte(b)[k]),
{
    let p = percent_byte(b);
    let sub = s.subrange(i, i + p.len());
    if is_plain(b) {
        assert(sub[0] == s[i]);
        assert(p[0] == b as char);
        assert((b as char) as u8 == b);
        assert((b as char) as int == b as int);
    } else {
        assert(sub[0] == s[i] && sub[1] == s[i + 1] && sub[2] == s[i + 2]);
        let h = b as int / 16;
        let l = b as int % 16;
        assert(p[0] == '%' && p[1] == capital_hex(h) && p[2] == capital_hex(l));
        assert(hex_value(capital_hex(h)) == Some(h));
        assert(hex_value(capital_hex(l)) == Some(l));
        assert(h * 16 + l == b as int);
    }
}

proof fn percent_reads_back_from(s: Seq<char>, i: int, bytes: Seq<u8>)
    requires
        0 <= i <= s.len(),
        s.skip(i) == percent_bytes(bytes),
    ensures
        unpercent_from(s, i) == Some(bytes),
    decreases bytes.len(),
{
    if bytes.len() == 0 {
        assert(s.skip(i).len() == 0);
        assert(unpercent_from(s, i)->Some_0 =~= bytes);
    } else {
        let p = percent_byte(bytes[0]);
        let rest = percent_bytes(bytes.drop_first());
        let tail = s.skip(i);
        assert(tail == p + rest);
        assert(s.subrange(i, i + p.len()) =~= p) by {
            assert(tail.take(p.len() as int) =~= p);
            assert(s.subrange(i, i + p.len()) =~= tail.take(p.len() as int));
        }
        percent_byte_reads_back(s, i, bytes[0]);
        assert(s.skip(i + p.len()) =~= rest) by {
            assert(tail.skip(p.len() as int) =~= rest);
            assert(s.skip(i + p.len()) =~= tail.skip(p.len() as int));
        }
        percent_reads_back_from(s, i + p.len(), bytes.drop_first());
        assert(seq![bytes[0]] + bytes.drop_first() =~= bytes);
    }
}

/// A percent-encoded text is read back, and holds only letters, digits and `-._~%`.
pub proof fn percent_reads_back(s: Seq<char>)
    ensures
        unpercent(percent(s)) == Some(s),
        forall|k: int| 0 <= k < percent(s).len() ==> is_encoded_char(#[trigger] percent(s)[k]),
{
    let bytes = encode_utf8(s);
    let p = percent(s);
    assert(p.skip(0) =~= p);
    percent_reads_back_from(p, 0, bytes);
    encode_utf8_valid_utf8(s);
    encode_utf8_decode_utf8(s);
    percent_bytes_are_encoded(bytes);
}

proof fn percent_bytes_are_encoded(bytes: Seq<u8>)
    ensures
        forall|k: int|
            0 <= k < percent_bytes(bytes).len() ==> is_encoded_char(#[trigger] percent_bytes(bytes)[k]),
    decreases bytes.len(),
{
    if bytes.len() > 0 {
        let p = percent_byte(bytes[0]);
        let rest = percent_bytes(bytes.drop_first());
        percent_bytes_are_encoded(bytes.drop_first());
        assert(p.subrange(0, p.len() as int) =~= p);
        percent_byte_reads_back(p, 0, bytes[0]);
        assert forall|k: int| 0 <= k < (p + rest).len() implies is_encoded_char(
            #[trigger] (p + rest)[k],
        ) by {
            if k < p.len() {
                assert((p + rest)[k] == p[k]);
            } else {
                assert((p + rest)[k] == rest[k - p.len()]);
            }
        }
    }
}

fn capital_hex_char(n: u8) -> (c: char)
    requires
        n < 16,
    ensures
        c == capital_hex(n as int),
{
    if n < 10 {
        (48 + n) as char
    } else {
        (55 + n) as char
    }
}

fn plain(b: u8) -> (r: bool)
    ensures
        r == is_plain(b),
{
    (48 <= b && b <= 57) || (65 <= b && b <= 90) || (97 <= b && b <= 122) || b == 45 || b == 46 || b
        == 95 || b == 126
}

/// A text, percent-encoded.
pub fn percent_encode(s: &str) -> (out: String)
    ensures
        out@ == percent(s@),
{
    let bytes = s.as_bytes();
    let mut out = String::new();
    let mut i: usize = 0;
    let ghost all = bytes@;
    proof {
        assert(all.skip(0) =~= all);
        assert(out@ + percent_bytes(all) =~= percent_bytes(all));
    }
    while i < bytes.len()
        invariant
            i <= bytes@.len(),
            all == bytes@,
            out@ + percent_bytes(all.skip(i as int)) == percent_bytes(all),
        decreases bytes@.len() - i,
    {
        let b: u8 = bytes[i];
        let ghost held = out@;
        let ghost rest = all.skip(i as int);
        proof {
            assert(rest[0] == b);
            assert(rest.drop_first() =~= all.skip(i + 1));
        }
        if plain(b) {
            out.push(b as char);
            assert(out@ =~= held + percent_byte(b));
        } else {
            out.push('%');
            out.push(capital_hex_char(b / 16));
            out.push(capital_hex_char(b % 16));
            assert(out@ =~= held + percent_byte(b));
        }
        proof {
            let later = percent_bytes(all.skip(i + 1));
            assert(held + (percent_byte(b) + later) =~= out@ + later);
        }
        i += 1;
    }
    proof {
        assert(all.skip(i as int) =~= Seq::<u8>::empty());
        assert(out@ + Seq::<char>::empty() =~= out@);
    }
    out
}

fn hex_digit_value(c: char) -> (v: Option<u8>)
    ensures
        match v {
            Some(n) => hex_value(c) == Some(n as int) && n < 16,
            None => hex_value(c) is None,
        },
{
    if '0' <= c && c <= '9' {
        Some(c as u8 - 48)
    } else if 'A' <= c && c <= 'F' {
        Some(c as u8 - 55)
    } else {
        None
    }
}

/// The text that a percent-encoded text stands for.
pub fn percent_decode(s: &str) -> (r: Option<String>)
    ensures
        match r {
            Some(t) => unpercent(s@) == Some(t@),
            None => unpercent(s@) is None,
        },
{
    let chars = chars_of(s);
    let len: usize = chars.len();
    let mut bytes: Vec<u8> = Vec::new();
    let mut i: usize = 0;
    let ghost whole = unpercent_from(s@, 0);
    proof {
        if whole is Some {
            assert(Seq::<u8>::empty() + whole->Some_0 =~= whole->Some_0);
        }
    }
    while i < len
        invariant
            chars@ == s@,
            len == chars@.len(),
            i <= len,
            whole == unpercent_from(s@, 0),
            whole == (match unpercent_from(s@, i as int) {
                Some(rest) => Some(bytes@ + rest),
                None => None,
            }),
        decreases len - i,
    {
        let c = chars[i];
        let ghost held = bytes@;
        if c == '%' {
            if len - i < 3 {
                return None;
            }
            match (hex_digit_value(chars[i + 1]), hex_digit_value(chars[i + 2])) {
                (Some(h), Some(l)) => {
                    bytes.push(h * 16 + l);
                    proof {
                        let b = (h * 16 + l) as u8;
                        if let Some(rest) = unpercent_from(s@, i + 3) {
                            assert(held + (seq![b] + rest) =~= bytes@ + rest);
                        }
                    }
                    i += 3;
                },
                _ => {
                    return None;
                },
            }
        } else {
            if (c as u32) >= 128 {
                proof {
                    vstd::utf8::char_u32_cast(c, c as u32);
                }
                return None;
            }
            proof {
                vstd::utf8::char_u32_cast(c, c as u32);
            }
            let b: u8 = c as u8;
            if !plain(b) {
                return None;
            }
            bytes.push(b);
            proof {
                if let Some(rest) = unpercent_from(s@, i + 1) {
                    assert(held + (seq![b] + rest) =~= bytes@ + rest);
                }
            }
            i += 1;
        }
    }
    proof {
        assert(bytes@ + Seq::<u8>::empty() =~= bytes@);
    }
    utf8_text(bytes)
}

/// What precedes and what follows the first semicolon.
pub open spec fn cut(s: Seq<char>) -> Option<(Seq<char>, Seq<char>)>
    decreases s.len(),
{
    if s.len() == 0 {
        None
    } else if s[0] == ';' {
        Some((Seq::empty(), s.drop_first()))
    } else {
        match cut(s.drop_first()) {
            Some((head, tail)) => Some((seq![s[0]] + head, tail)),
            None => None,
        }
    }
}

proof fn cut_is(s: Seq<char>, k: int)
    requires
        0 <= k < s.len(),
        s[k] == ';',
        forall|i: int| 0 <= i < k ==> s[i] != ';',
    ensures
        cut(s) == Some((s.take(k), s.skip(k + 1))),
    decreases k,
{
    if k > 0 {
        let rest = s.drop_first();
        assert forall|i: int| 0 <= i < k - 1 implies rest[i] != ';' by {
            assert(rest[i] == s[i + 1]);
        }
        cut_is(rest, k - 1);
        assert(seq![s[0]] + rest.take(k - 1) =~= s.take(k));
        assert(rest.skip(k) =~= s.skip(k + 1));
    } else {
        assert(s.take(0) =~= Seq::<char>::empty());
        assert(s.drop_first() =~= s.skip(1));
    }
}

proof fn cut_is_none(s: Seq<char>)
    requires
        forall|i: int| 0 <= i < s.len() ==> s[i] != ';',
    ensures
        cut(s) is None,
    decreases s.len(),
{
    if s.len() > 0 {
        let rest = s.drop_first();
        assert forall|i: int| 0 <= i < rest.len() implies rest[i] != ';' by {
            assert(rest[i] == s[i + 1]);
        }
        cut_is_none(rest);
    }
}

proof fn cut_joined(head: Seq<char>, tail: Seq<char>)
    requires
        forall|i: int| 0 <= i < head.len() ==> head[i] != ';',
    ensures
        cut(head + seq![';'] + tail) == Some((head, tail)),
{
    let s = head + seq![';'] + tail;
    assert forall|i: int| 0 <= i < head.len() implies s[i] != ';' by {
        assert(s[i] == head[i]);
    }
    cut_is(s, head.len() as int);
    assert(s.take(head.len() as int) =~= head);
    assert(s.skip(head.len() as int + 1) =~= tail);
}

fn cut_text(s: &str) -> (r: Option<(String, String)>)
    ensures
        match r {
            Some((head, tail)) => cut(s@) == Some((head@, tail@)),
            None => cut(s@) is None,
        },
{
    let chars = chars_of(s);
    let mut i: usize = 0;
    while i < chars.len()
        invariant
            chars@ == s@,
            i <= chars@.len(),
            forall|k: int| 0 <= k < i ==> chars@[k] != ';',
        decreases chars@.len() - i,
    {
        if chars[i] == ';' {
            proof {
                cut_is(s@, i as int);
                assert(s@.subrange(0, i as int) =~= s@.take(i as int));
                assert(s@.subrange(i + 1, s@.len() as int) =~= s@.skip(i + 1));
            }
            return Some((text_of(&chars, 0, i), text_of(&chars, i + 1, chars.len())));
        }
        i += 1;
    }
    proof {
        cut_is_none(s@);
    }
    None
}

/// What runs a model.
#[derive(Debug, Clone, Copy, PartialEq, Eq, Structural)]
pub enum EmbeddingRuntime {
    /// Qwen3 on CUDA.
    LocalQwen3CandleCuda,
    /// An ONNX graph on the CPU.
    LocalFastembedOnnxCpu,
    /// An ONNX graph on an AMD GPU.
    LocalFastembedOnnxMigraphx,
    /// An ONNX graph on a GPU under Windows.
    LocalFastembedOnnxDirectml,
    /// A service.
    OpenRouter,
}

impl EmbeddingRuntime {
    /// The label of a runtime in an identity.
    pub open spec fn label(&self) -> Seq<char> {
        match *self {
            EmbeddingRuntime::LocalQwen3CandleCuda => "local-qwen3-candle-cuda"@,
            EmbeddingRuntime::LocalFastembedOnnxCpu => "local-fastembed-onnx-cpu"@,
            EmbeddingRuntime::LocalFastembedOnnxMigraphx => "local-fastembed-onnx-migraphx"@,
            EmbeddingRuntime::LocalFastembedOnnxDirectml => "local-fastembed-onnx-directml"@,
            EmbeddingRuntime::OpenRouter => "openrouter"@,
        }
    }

    /// The label of a runtime in an identity.
    pub fn as_str(&self) -> (s: &'static str)
        ensures
            s@ == self.label(),
    {
        match self {
            EmbeddingRuntime::LocalQwen3CandleCuda => "local-qwen3-candle-cuda",
            EmbeddingRuntime::LocalFastembedOnnxCpu => "local-fastembed-onnx-cpu",
            EmbeddingRuntime::LocalFastembedOnnxMigraphx => "local-fastembed-onnx-migraphx",
            EmbeddingRuntime::LocalFastembedOnnxDirectml => "local-fastembed-onnx-directml",
            EmbeddingRuntime::OpenRouter => "openrouter",
        }
    }

    /// The runtime with a label.
    pub fn from_label(label: &str) -> (r: Option<EmbeddingRuntime>)
        ensures
            r == runtime_of(label@),
    {
        if same(label, "local-qwen3-candle-cuda") {
            Some(EmbeddingRuntime::LocalQwen3CandleCuda)
        } else if same(label, "local-fastembed-onnx-cpu") {
            Some(EmbeddingRuntime::LocalFastembedOnnxCpu)
        } else if same(label, "local-fastembed-onnx-migraphx") {
            Some(EmbeddingRuntime::LocalFastembedOnnxMigraphx)
        } else if same(label, "local-fastembed-onnx-directml") {
            Some(EmbeddingRuntime::LocalFastembedOnnxDirectml)
        } else if same(label, "openrouter") {
            Some(EmbeddingRuntime::OpenRouter)
        } else {
            None
        }
    }
}

/// The runtime with a label.
pub open spec fn runtime_of(label: Seq<char>) -> Option<EmbeddingRuntime> {
    if label == "local-qwen3-candle-cuda"@ {
        Some(EmbeddingRuntime::LocalQwen3CandleCuda)
    } else if label == "local-fastembed-onnx-cpu"@ {
        Some(EmbeddingRuntime::LocalFastembedOnnxCpu)
    } else if label == "local-fastembed-onnx-migraphx"@ {
        Some(EmbeddingRuntime::LocalFastembedOnnxMigraphx)
    } else if label == "local-fastembed-onnx-directml"@ {
        Some(EmbeddingRuntime::LocalFastembedOnnxDirectml)
    } else if label == "openrouter"@ {
        Some(EmbeddingRuntime::OpenRouter)
    } else {
        None
    }
}

proof fn label_reads_back(r: EmbeddingRuntime)
    ensures
        runtime_of(r.label()) == Some(r),
        forall|i: int| 0 <= i < r.label().len() ==> r.label()[i] != ';' && r.label()[i] != ':',
{
    reveal_strlit("local-qwen3-candle-cuda");
    reveal_strlit("local-fastembed-onnx-cpu");
    reveal_strlit("local-fastembed-onnx-migraphx");
    reveal_strlit("local-fastembed-onnx-directml");
    reveal_strlit("openrouter");
    assert("local-qwen3-candle-cuda"@.len() == 23);
    assert("local-fastembed-onnx-cpu"@.len() == 24);
    assert("local-fastembed-onnx-migraphx"@.len() == 29);
    assert("local-fastembed-onnx-directml"@.len() == 29);
    assert("local-fastembed-onnx-migraphx"@[21] == 'm');
    assert("local-fastembed-onnx-directml"@[21] == 'd');
    assert("openrouter"@.len() == 10);
}

/// What a query is preceded by.
#[derive(Debug, Clone)]
pub enum QueryPolicy {
    /// Nothing.
    Plain,
    /// A prefix.
    Prefix(String),
}

/// The content of a query policy.
pub enum QueryView {
    /// Nothing.
    Plain,
    /// A prefix.
    Prefix(Seq<char>),
}

impl View for QueryPolicy {
    type V = QueryView;

    open spec fn view(&self) -> QueryView {
        match *self {
            QueryPolicy::Plain => QueryView::Plain,
            QueryPolicy::Prefix(p) => QueryView::Prefix(p@),
        }
    }
}

/// The text of a query policy in an identity.
pub open spec fn query_text(q: QueryView) -> Seq<char> {
    match q {
        QueryView::Plain => "none"@,
        QueryView::Prefix(p) => "prefix:"@ + percent(p),
    }
}

/// The query policy that a text stands for.
pub open spec fn query_of(s: Seq<char>) -> Option<QueryView> {
    if s == "none"@ {
        Some(QueryView::Plain)
    } else if has_prefix(s, "prefix:"@) {
        match unpercent(s.skip("prefix:"@.len() as int)) {
            Some(p) => Some(QueryView::Prefix(p)),
            None => None,
        }
    } else {
        None
    }
}

proof fn query_reads_back(q: QueryView)
    ensures
        query_of(query_text(q)) == Some(q),
{
    if let QueryView::Prefix(p) = q {
        let s = query_text(q);
        reveal_strlit("prefix:");
        reveal_strlit("none");
        assert(s[0] == "prefix:"@[0]);
        assert("none"@[0] == 'n' && "prefix:"@[0] == 'p');
        assert(s.take("prefix:"@.len() as int) =~= "prefix:"@);
        assert(s.skip("prefix:"@.len() as int) =~= percent(p));
        percent_reads_back(p);
    }
}

/// A named choice of an embedder.
#[derive(Debug, Clone)]
pub struct EmbeddingProfile {
    name: String,
}

impl View for EmbeddingProfile {
    type V = Seq<char>;

    closed spec fn view(&self) -> Seq<char> {
        self.name@
    }
}

impl EmbeddingProfile {
    /// The profile of this name.
    pub fn named(name: &str) -> (p: Self)
        ensures
            p@ == name@,
    {
        EmbeddingProfile { name: name.to_owned() }
    }

    /// The name of the profile.
    pub fn name(&self) -> (name: &str)
        ensures
            name@ == self@,
    {
        self.name.as_str()
    }
}

/// The embedder behind an index.
#[derive(Debug, Clone)]
pub struct EmbeddingBackend {
    /// What runs the model.
    pub runtime: EmbeddingRuntime,
    /// Under which name it was chosen.
    pub profile: EmbeddingProfile,
    /// The model.
    pub model: String,
    /// The number of components of an embedding.
    pub dim: usize,
    /// The number of tokens that a text is cut to.
    pub max_len: usize,
    /// What a query is preceded by.
    pub query: QueryPolicy,
}

/// What of an embedder decides on the embeddings it makes.
pub struct BackendView {
    /// What runs the model.
    pub runtime: EmbeddingRuntime,
    /// The model.
    pub model: Seq<char>,
    /// The number of components of an embedding.
    pub dim: usize,
    /// The number of tokens that a text is cut to.
    pub max_len: usize,
    /// What a query is preceded by.
    pub query: QueryView,
}

impl View for EmbeddingBackend {
    type V = BackendView;

    open spec fn view(&self) -> BackendView {
        BackendView {
            runtime: self.runtime,
            model: self.model@,
            dim: self.dim,
            max_len: self.max_len,
            query: self.query@,
        }
    }
}

/// The text that identifies an embedder.
pub open spec fn identity_of(b: BackendView) -> Seq<char> {
    "emb;v=2;rt="@ + (b.runtime.label() + seq![';'] + ("model="@ + (percent(b.model) + seq![';'] + (
    "dim="@ + (decimal(b.dim as nat) + seq![';'] + ("max="@ + (decimal(b.max_len as nat) + seq![';']
        + ("query="@ + percent(query_text(b.query))))))))))
}

/// What follows `key` in `s`, where `s` starts with it.
pub open spec fn after_key(s: Seq<char>, key: Seq<char>) -> Option<Seq<char>> {
    if has_prefix(s, key) {
        Some(s.skip(key.len() as int))
    } else {
        None
    }
}

/// The field of this key at the start of `s`, and what follows its semicolon.
pub open spec fn field_of(s: Seq<char>, key: Seq<char>) -> Option<(Seq<char>, Seq<char>)> {
    match after_key(s, key) {
        Some(rest) => cut(rest),
        None => None,
    }
}

/// A number that fits into a machine word.
pub open spec fn word_of(s: Seq<char>) -> Option<usize> {
    match parsed(s) {
        Ok(n) => if n <= usize::MAX {
            Some(n as usize)
        } else {
            None
        },
        Err(_) => None,
    }
}

/// The embedder that a text identifies.
pub open spec fn backend_of(s: Seq<char>) -> Option<BackendView> {
    match field_of(s, "emb;v=2;rt="@) {
        Some((rt, s1)) => match field_of(s1, "model="@) {
            Some((model, s2)) => match field_of(s2, "dim="@) {
                Some((dim, s3)) => match field_of(s3, "max="@) {
                    Some((max, s4)) => match after_key(s4, "query="@) {
                        Some(query) => match (
                            runtime_of(rt),
                            unpercent(model),
                            word_of(dim),
                            word_of(max),
                            unpercent(query),
                        ) {
                            (Some(runtime), Some(model), Some(dim), Some(max_len), Some(q)) => match query_of(
                                q,
                            ) {
                                Some(query) => Some(
                                    BackendView { runtime, model, dim, max_len, query },
                                ),
                                None => None,
                            },
                            _ => None,
                        },
                        None => None,
                    },
                    None => None,
                },
                None => None,
            },
            None => None,
        },
        None => None,
    }
}

proof fn field_reads_back(key: Seq<char>, value: Seq<char>, rest: Seq<char>)
    requires
        forall|i: int| 0 <= i < value.len() ==> value[i] != ';',
    ensures
        field_of(key + (value + seq![';'] + rest), key) == Some((value, rest)),
{
    let s = key + (value + seq![';'] + rest);
    assert(s.take(key.len() as int) =~= key);
    assert(s.skip(key.len() as int) =~= value + seq![';'] + rest);
    cut_joined(value, rest);
}

proof fn encoded_has_no_separator(s: Seq<char>)
    ensures
        forall|i: int| 0 <= i < percent(s).len() ==> percent(s)[i] != ';' && percent(s)[i] != ':',
{
    percent_reads_back(s);
    assert forall|i: int| 0 <= i < percent(s).len() implies percent(s)[i] != ';' && percent(s)[i]
        != ':' by {
        assert(is_encoded_char(percent(s)[i]));
    }
}

proof fn decimal_has_no_separator(n: nat)
    ensures
        forall|i: int| 0 <= i < decimal(n).len() ==> decimal(n)[i] != ';' && decimal(n)[i] != ':',
{
    decimal_reads_back(n);
    assert forall|i: int| 0 <= i < decimal(n).len() implies decimal(n)[i] != ';' && decimal(n)[i]
        != ':' by {
        assert(is_digit(decimal(n)[i]));
    }
}

/// An identity is read back: it gives the embedder that it was made of.
pub proof fn identity_reads_back(b: BackendView)
    ensures
        backend_of(identity_of(b)) == Some(b),
{
    let query = percent(query_text(b.query));
    let s4 = "query="@ + query;
    let s3 = "max="@ + (decimal(b.max_len as nat) + seq![';'] + s4);
    let s2 = "dim="@ + (decimal(b.dim as nat) + seq![';'] + s3);
    let s1 = "model="@ + (percent(b.model) + seq![';'] + s2);
    let s = identity_of(b);
    assert(s == "emb;v=2;rt="@ + (b.runtime.label() + seq![';'] + s1));
    label_reads_back(b.runtime);
    encoded_has_no_separator(b.model);
    decimal_has_no_separator(b.dim as nat);
    decimal_has_no_separator(b.max_len as nat);
    field_reads_back("emb;v=2;rt="@, b.runtime.label(), s1);
    field_reads_back("model="@, percent(b.model), s2);
    field_reads_back("dim="@, decimal(b.dim as nat), s3);
    field_reads_back("max="@, decimal(b.max_len as nat), s4);
    assert(s4.take("query="@.len() as int) =~= "query="@);
    assert(s4.skip("query="@.len() as int) =~= query);
    percent_reads_back(b.model);
    percent_reads_back(query_text(b.query));
    written_number_is_parsed(b.dim as u64);
    written_number_is_parsed(b.max_len as u64);
    query_reads_back(b.query);
}

/// Different embedders have different identities.
pub proof fn identity_is_injective(a: BackendView, b: BackendView)
    requires
        identity_of(a) == identity_of(b),
    ensures
        a == b,
{
    identity_reads_back(a);
    identity_reads_back(b);
}

/// An identity holds no colon.
pub proof fn identity_has_no_colon(b: BackendView)
    ensures
        !identity_of(b).contains(':'),
{
    let s = identity_of(b);
    let model = percent(b.model);
    let dim = decimal(b.dim as nat);
    let max = decimal(b.max_len as nat);
    let query = percent(query_text(b.query));
    label_reads_back(b.runtime);
    encoded_has_no_separator(b.model);
    encoded_has_no_separator(query_text(b.query));
    decimal_has_no_separator(b.dim as nat);
    decimal_has_no_separator(b.max_len as nat);
    reveal_strlit("emb;v=2;rt=");
    reveal_strlit("model=");
    reveal_strlit("dim=");
    reveal_strlit("max=");
    reveal_strlit("query=");
    no_colon_in_both("query="@, query);
    let s4 = "query="@ + query;
    no_colon_in_field("max="@, max, s4);
    let s3 = "max="@ + (max + seq![';'] + s4);
    no_colon_in_field("dim="@, dim, s3);
    let s2 = "dim="@ + (dim + seq![';'] + s3);
    no_colon_in_field("model="@, model, s2);
    let s1 = "model="@ + (model + seq![';'] + s2);
    no_colon_in_field("emb;v=2;rt="@, b.runtime.label(), s1);
}

/// No character of `s` is a colon.
spec fn colon_free(s: Seq<char>) -> bool {
    forall|i: int| 0 <= i < s.len() ==> s[i] != ':'
}

proof fn no_colon_in_both(a: Seq<char>, b: Seq<char>)
    requires
        colon_free(a),
        colon_free(b),
    ensures
        colon_free(a + b),
{
    assert forall|i: int| 0 <= i < (a + b).len() implies (a + b)[i] != ':' by {
        if i < a.len() {
            assert((a + b)[i] == a[i]);
        } else {
            assert((a + b)[i] == b[i - a.len()]);
        }
    }
}

proof fn no_colon_in_field(key: Seq<char>, value: Seq<char>, rest: Seq<char>)
    requires
        colon_free(key),
        colon_free(value),
        colon_free(rest),
    ensures
        colon_free(key + (value + seq![';'] + rest)),
{
    no_colon_in_both(value, seq![';']);
    no_colon_in_both(value + seq![';'], rest);
    no_colon_in_both(key, value + seq![';'] + rest);
}

fn field_text(s: &str, key: &str) -> (r: Option<(String, String)>)
    ensures
        match r {
            Some((value, rest)) => field_of(s@, key@) == Some((value@, rest@)),
            None => field_of(s@, key@) is None,
        },
{
    match strip_prefix(s, key) {
        Some(rest) => cut_text(rest.as_str()),
        None => None,
    }
}

fn word_text(s: &str) -> (r: Option<usize>)
    ensures
        r == word_of(s@),
{
    match parse_u64(s) {
        Ok(n) => {
            if n <= usize::MAX as u64 {
                Some(n as usize)
            } else {
                None
            }
        },
        Err(_) => None,
    }
}

fn query_policy(s: &str) -> (r: Option<QueryPolicy>)
    ensures
        match r {
            Some(q) => query_of(s@) == Some(q@),
            None => query_of(s@) is None,
        },
{
    if same(s, "none") {
        return Some(QueryPolicy::Plain);
    }
    match strip_prefix(s, "prefix:") {
        Some(rest) => match percent_decode(rest.as_str()) {
            Some(p) => Some(QueryPolicy::Prefix(p)),
            None => None,
        },
        None => None,
    }
}

/// The model of the default profile.
pub const CPU_MODEL: &'static str = "Qdrant/bge-small-en-v1.5-onnx-Q";

/// The model of the GPU profiles.
pub const GPU_MODEL: &'static str = "Xenova/bge-small-en-v1.5";

/// What these models want before a query.
pub const QUERY_PREFIX: &'static str = "Represent this sentence for searching relevant passages: ";

/// The embedder of a profile that is built in.
pub open spec fn built_in(name: Seq<char>) -> Option<BackendView> {
    let query = QueryView::Prefix(QUERY_PREFIX@);
    if name == "local-cpu-small"@ {
        Some(
            BackendView {
                runtime: EmbeddingRuntime::LocalFastembedOnnxCpu,
                model: CPU_MODEL@,
                dim: 384,
                max_len: 512,
                query,
            },
        )
    } else if name == "local-gpu-bge"@ {
        Some(
            BackendView {
                runtime: EmbeddingRuntime::LocalFastembedOnnxMigraphx,
                model: GPU_MODEL@,
                dim: 384,
                max_len: 512,
                query,
            },
        )
    } else if name == "local-dml-bge"@ {
        Some(
            BackendView {
                runtime: EmbeddingRuntime::LocalFastembedOnnxDirectml,
                model: GPU_MODEL@,
                dim: 384,
                max_len: 512,
                query,
            },
        )
    } else {
        None
    }
}

impl EmbeddingBackend {
    fn bge(name: &str, runtime: EmbeddingRuntime, model: &str) -> (b: Self)
        ensures
            b.profile@ == name@,
            b@ == (BackendView {
                runtime,
                model: model@,
                dim: 384,
                max_len: 512,
                query: QueryView::Prefix(QUERY_PREFIX@),
            }),
    {
        EmbeddingBackend {
            runtime,
            profile: EmbeddingProfile::named(name),
            model: model.to_owned(),
            dim: 384,
            max_len: 512,
            query: QueryPolicy::Prefix(QUERY_PREFIX.to_owned()),
        }
    }

    /// The embedder of a profile that is built in; any other name is refused.
    pub fn from_profile_name(name: &str) -> (r: Result<EmbeddingBackend, String>)
        ensures
            match r {
                Ok(b) => built_in(name@) == Some(b@) && b.profile@ == name@,
                Err(e) => built_in(name@) is None && e@ == "unknown embedding profile `"@ + name@
                    + "`"@,
            },
    {
        if same(name, "local-cpu-small") {
            Ok(Self::bge(name, EmbeddingRuntime::LocalFastembedOnnxCpu, CPU_MODEL))
        } else if same(name, "local-gpu-bge") {
            Ok(Self::bge(name, EmbeddingRuntime::LocalFastembedOnnxMigraphx, GPU_MODEL))
        } else if same(name, "local-dml-bge") {
            Ok(Self::bge(name, EmbeddingRuntime::LocalFastembedOnnxDirectml, GPU_MODEL))
        } else {
            let mut e = "unknown embedding profile `".to_owned();
            e.append(name);
            e.append("`");
            Err(e)
        }
    }

    /// The text that identifies the embedder. The name of the profile is no part of it.
    pub fn identity(&self) -> (s: String)
        ensures
            s@ == identity_of(self@),
    {
        let model = percent_encode(self.model.as_str());
        let query = match &self.query {
            QueryPolicy::Plain => percent_encode("none"),
            QueryPolicy::Prefix(p) => {
                let mut text = "prefix:".to_owned();
                text.append(percent_encode(p.as_str()).as_str());
                percent_encode(text.as_str())
            },
        };
        let mut s = "emb;v=2;rt=".to_owned();
        s.append(self.runtime.as_str());
        s.push(';');
        s.append("model=");
        s.append(model.as_str());
        s.push(';');
        s.append("dim=");
        s.append(number(self.dim as u128).as_str());
        s.push(';');
        s.append("max=");
        s.append(number(self.max_len as u128).as_str());
        s.push(';');
        s.append("query=");
        s.append(query.as_str());
        assert(s@ =~= identity_of(self@));
        s
    }

    /// The embedder that a text identifies. Its profile bears the name of the model.
    pub fn from_identity(s: &str) -> (r: Result<EmbeddingBackend, EmbeddingError>)
        ensures
            match r {
                Ok(b) => backend_of(s@) == Some(b@) && b.profile@ == b.model@,
                Err(e) => backend_of(s@) is None && e@ == EmbeddingFailure::InvalidIdentity(s@),
            },
    {
        match Self::read_identity(s) {
            Some(b) => Ok(b),
            None => Err(EmbeddingError::invalid_identity(s)),
        }
    }

    fn read_identity(s: &str) -> (r: Option<EmbeddingBackend>)
        ensures
            match r {
                Some(b) => backend_of(s@) == Some(b@) && b.profile@ == b.model@,
                None => backend_of(s@) is None,
            },
    {
        let (rt, s1) = match field_text(s, "emb;v=2;rt=") {
            Some(f) => f,
            None => {
                return None;
            },
        };
        let (model, s2) = match field_text(s1.as_str(), "model=") {
            Some(f) => f,
            None => {
                return None;
            },
        };
        let (dim, s3) = match field_text(s2.as_str(), "dim=") {
            Some(f) => f,
            None => {
                return None;
            },
        };
        let (max, s4) = match field_text(s3.as_str(), "max=") {
            Some(f) => f,
            None => {
                return None;
            },
        };
        let query = match strip_prefix(s4.as_str(), "query=") {
            Some(q) => q,
            None => {
                return None;
            },
        };
        match (
            EmbeddingRuntime::from_label(rt.as_str()),
            percent_decode(model.as_str()),
            word_text(dim.as_str()),
            word_text(max.as_str()),
            percent_decode(query.as_str()),
        ) {
            (Some(runtime), Some(model), Some(dim), Some(max_len), Some(q)) => match query_policy(
                q.as_str(),
            ) {
                Some(query) => Some(
                    EmbeddingBackend {
                        runtime,
                        profile: EmbeddingProfile::named(model.as_str()),
                        model,
                        dim,
                        max_len,
                        query,
                    },
                ),
                None => None,
            },
            _ => None,
        }
    }

    /// Whether an ONNX graph makes the embeddings.
    pub fn is_fastembed_onnx(&self) -> (r: bool)
        ensures
            r == runs_onnx(self.runtime),
    {
        match self.runtime {
            EmbeddingRuntime::LocalFastembedOnnxCpu
            | EmbeddingRuntime::LocalFastembedOnnxMigraphx
            | EmbeddingRuntime::LocalFastembedOnnxDirectml => true,
            EmbeddingRuntime::LocalQwen3CandleCuda | EmbeddingRuntime::OpenRouter => false,
        }
    }

    /// A query as the model wants it.
    pub fn format_query(&self, text: &str) -> (out: String)
        ensures
            out@ == (match self.query@ {
                QueryView::Plain => text@,
                QueryView::Prefix(p) => p + text@,
            }),
    {
        match &self.query {
            QueryPolicy::Plain => text.to_owned(),
            QueryPolicy::Prefix(p) => {
                let mut out = p.clone();
                out.append(text);
                out
            },
        }
    }

    /// The number of components of an embedding.
    pub fn dim(&self) -> (n: usize)
        ensures
            n == self.dim,
    {
        self.dim
    }
}

/// An ONNX graph makes the embeddings.
pub open spec fn runs_onnx(runtime: EmbeddingRuntime) -> bool {
    match runtime {
        EmbeddingRuntime::LocalFastembedOnnxCpu
        | EmbeddingRuntime::LocalFastembedOnnxMigraphx
        | EmbeddingRuntime::LocalFastembedOnnxDirectml => true,
        _ => false,
    }
}

impl Default for EmbeddingBackend {
    fn default() -> (b: Self)
        ensures
            built_in("local-cpu-small"@) == Some(b@),
            b.profile@ == "local-cpu-small"@,
    {
        EmbeddingBackend::bge(
            "local-cpu-small",
            EmbeddingRuntime::LocalFastembedOnnxCpu,
            CPU_MODEL,
        )
    }
}

/// The profiles that are built in are three. All of them embed texts of up to 512 tokens
/// in 384 components and put the same words before a query; they differ in what runs the
/// model, and the two for a GPU have the full model.
pub proof fn three_profiles_are_built_in(name: Seq<char>)
    ensures
        built_in(name) is Some <==> (name == "local-cpu-small"@ || name == "local-gpu-bge"@
            || name == "local-dml-bge"@),
        built_in(name) is Some ==> {
            let b = built_in(name)->Some_0;
            &&& b.dim == 384
            &&& b.max_len == 512
            &&& b.query == QueryView::Prefix(
                "Represent this sentence for searching relevant passages: "@,
            )
            &&& b.runtime is LocalFastembedOnnxCpu <==> name == "local-cpu-small"@
            &&& b.runtime is LocalFastembedOnnxMigraphx <==> name == "local-gpu-bge"@
            &&& b.runtime is LocalFastembedOnnxDirectml <==> name == "local-dml-bge"@
            &&& b.model == (if name == "local-cpu-small"@ {
                "Qdrant/bge-small-en-v1.5-onnx-Q"@
            } else {
                "Xenova/bge-small-en-v1.5"@
            })
        },
{
    reveal_strlit("local-cpu-small");
    reveal_strlit("local-gpu-bge");
    reveal_strlit("local-dml-bge");
    assert("local-cpu-small"@.len() == 15);
    assert("local-gpu-bge"@[6] == 'g');
    assert("local-dml-bge"@[6] == 'd');
}

/// An ONNX graph makes the embeddings unless a service or a model on CUDA does.
pub proof fn graphs_make_all_but_two_kinds(runtime: EmbeddingRuntime)
    ensures
        runs_onnx(runtime) <==> !(runtime is OpenRouter) && !(runtime is LocalQwen3CandleCuda),
{
}

/// Letters, digits and four signs stand for themselves in an encoded text. Any other byte
/// becomes a percent sign and its two digits to the base of sixteen, in capitals.
pub proof fn a_byte_is_plain_or_escaped(b: u8)
    ensures
        ({
            let e = percent_bytes(seq![b]);
            let c = b as char;
            let plain = 'a' <= c <= 'z' || 'A' <= c <= 'Z' || '0' <= c <= '9' || c == '-' || c
                == '.' || c == '_' || c == '~';
            &&& plain ==> e == seq![c]
            &&& !plain ==> {
                &&& e.len() == 3
                &&& e[0] == '%'
                &&& '0' <= e[1] <= '9' || 'A' <= e[1] <= 'F'
                &&& '0' <= e[2] <= '9' || 'A' <= e[2] <= 'F'
                &&& b == 16 * (if e[1] <= '9' {
                    e[1] as int - '0' as int
                } else {
                    e[1] as int - 'A' as int + 10
                }) + (if e[2] <= '9' {
                    e[2] as int - '0' as int
                } else {
                    e[2] as int - 'A' as int + 10
                })
            }
        }),
{
    let one = seq![b];
    assert(one.drop_first() =~= Seq::<u8>::empty());
    assert(percent_bytes(one.drop_first()) =~= Seq::<char>::empty());
    assert(percent_bytes(one) =~= percent_byte(b));
}

/// Bytes are encoded one after the other.
pub proof fn bytes_are_encoded_one_by_one(a: Seq<u8>, b: Seq<u8>)
    ensures
        percent_bytes(a + b) == percent_bytes(a) + percent_bytes(b),
    decreases a.len(),
{
    if a.len() == 0 {
        assert(a + b =~= b);
        assert(percent_bytes(a) + percent_bytes(b) =~= percent_bytes(b));
    } else {
        bytes_are_encoded_one_by_one(a.drop_first(), b);
        assert((a + b).drop_first() =~= a.drop_first() + b);
        assert(percent_bytes(a + b) =~= percent_bytes(a) + percent_bytes(b));
    }
}

/// A text with anything in it that does not stand for itself and is no percent sign is no
/// encoded text, and neither is one that ends within an escape.
pub proof fn only_encoded_texts_are_decoded(s: &str, r: Option<String>, i: int)
    requires
        call_ensures(percent_decode, (s,), r),
        0 <= i < s@.len(),
    ensures
        ({
            let c = s@[i];
            !('a' <= c <= 'z' || 'A' <= c <= 'Z' || '0' <= c <= '9' || c == '-' || c == '.' || c
                == '_' || c == '~' || c == '%') ==> r is None
        }),
        s@.last() == '%' ==> r is None,
{
    encoded_chars_only(s@, 0);
    let c = s@[i];
    if r is Some && c != '%' {
        assert(is_encoded_char(c));
        a_small_char_is_its_byte(c);
    }
    if s@.last() == '%' {
        no_escape_is_cut_off(s@, 0);
    }
}

proof fn a_small_char_is_its_byte(c: char)
    requires
        (c as int) < 128,
    ensures
        c as u8 == c as int,
{
}

proof fn encoded_chars_only(s: Seq<char>, i: int)
    requires
        0 <= i,
    ensures
        unpercent_from(s, i) is Some ==> forall|k: int|
            i <= k < s.len() ==> is_encoded_char(#[trigger] s[k]),
    decreases s.len() - i,
{
    if i < s.len() {
        if s[i] == '%' {
            if i + 2 < s.len() {
                encoded_chars_only(s, i + 3);
                if unpercent_from(s, i) is Some {
                    assert(hex_value(s[i + 1]) is Some && hex_value(s[i + 2]) is Some);
                    assert forall|k: int| i <= k < s.len() implies is_encoded_char(
                        #[trigger] s[k],
                    ) by {
                        if k == i + 1 || k == i + 2 {
                            assert(is_plain(s[k] as u8));
                        }
                    }
                }
            }
        } else {
            encoded_chars_only(s, i + 1);
        }
    }
}

proof fn no_escape_is_cut_off(s: Seq<char>, i: int)
    requires
        0 <= i < s.len(),
        s.last() == '%',
    ensures
        unpercent_from(s, i) is None,
    decreases s.len() - i,
{
    if s[i] == '%' {
        if i + 2 < s.len() {
            if i + 3 < s.len() {
                no_escape_is_cut_off(s, i + 3);
            } else {
                assert(s[i + 2] == s.last());
            }
        }
    } else {
        no_escape_is_cut_off(s, i + 1);
    }
}

/// Each runtime has its label, and a label is that of one runtime.
pub proof fn a_runtime_has_its_label(
    runtime: EmbeddingRuntime,
    label: &'static str,
    read: Option<EmbeddingRuntime>,
)
    requires
        call_ensures(EmbeddingRuntime::as_str, (&runtime,), label),
        call_ensures(EmbeddingRuntime::from_label, (label,), read),
    ensures
        read == Some(runtime),
        runtime is LocalQwen3CandleCuda ==> label@ == "local-qwen3-candle-cuda"@,
        runtime is LocalFastembedOnnxCpu ==> label@ == "local-fastembed-onnx-cpu"@,
        runtime is LocalFastembedOnnxMigraphx ==> label@ == "local-fastembed-onnx-migraphx"@,
        runtime is LocalFastembedOnnxDirectml ==> label@ == "local-fastembed-onnx-directml"@,
        runtime is OpenRouter ==> label@ == "openrouter"@,
{
    label_reads_back(runtime);
}

/// An embedder is read back from its identity, and a text that does not begin as
/// identities do is refused.
pub proof fn an_identity_is_read_back(
    b: EmbeddingBackend,
    identity: String,
    text: &str,
    r: Result<EmbeddingBackend, EmbeddingError>,
)
    requires
        call_ensures(EmbeddingBackend::identity, (&b,), identity),
        call_ensures(EmbeddingBackend::from_identity, (text,), r),
    ensures
        text@ == identity@ ==> r is Ok && r->Ok_0@ == b@,
        r is Ok ==> "emb;v=2;rt="@.is_prefix_of(text@),
        "emb;v=2;rt="@.is_prefix_of(identity@),
{
    identity_reads_back(b@);
    assert(identity@.take("emb;v=2;rt="@.len() as int) =~= "emb;v=2;rt="@);
    if r is Ok {
        assert(text@.take("emb;v=2;rt="@.len() as int) == "emb;v=2;rt="@);
    }
}

/// A query is embedded with the prefix before it where there is one, else as it is.
pub proof fn a_query_follows_its_prefix(b: EmbeddingBackend, text: &str, out: String)
    requires
        call_ensures(EmbeddingBackend::format_query, (&b, text), out),
    ensures
        b.query is Plain ==> out@ == text@,
        b.query is Prefix ==> out@ == b.query->Prefix_0@ + text@,
{
}

} // verus!
