//! Text as sequences of characters: the small operations on strings that the
//! rest of the library is stated over, each with its meaning as a spec function.

use vstd::prelude::*;
use vstd::utf8::{decode_utf8, valid_utf8};

verus! {

/// `String::push` appends one character to the end of the string.
pub assume_specification[ String::push ](s: &mut String, c: char)
    ensures
        final(s)@ == old(s)@.push(c),
;

/// `String::from_utf8` gives the text that the bytes encode, and refuses bytes
/// that are not UTF-8.
#[verifier::external_body]
pub(crate) fn utf8_text(bytes: Vec<u8>) -> (r: Option<String>)
    ensures
        r is Some <==> valid_utf8(bytes@),
        r matches Some(s) ==> s@ == decode_utf8(bytes@),
{
    String::from_utf8(bytes).ok()
}

/// The texts that a sequence of strings holds.
pub open spec fn texts(strings: Seq<String>) -> Seq<Seq<char>> {
    Seq::new(strings.len(), |i: int| strings[i]@)
}

/// The Unicode `White_Space` characters.
pub open spec fn is_space(c: char) -> bool {
    let n = c as int;
    ||| 0x9 <= n <= 0xd
    ||| n == 0x20
    ||| n == 0x85
    ||| n == 0xa0
    ||| n == 0x1680
    ||| 0x2000 <= n <= 0x200a
    ||| n == 0x2028
    ||| n == 0x2029
    ||| n == 0x202f
    ||| n == 0x205f
    ||| n == 0x3000
}

/// `s` without the white space at its start.
pub open spec fn trimmed_start(s: Seq<char>) -> Seq<char>
    decreases s.len(),
{
    if s.len() > 0 && is_space(s[0]) {
        trimmed_start(s.drop_first())
    } else {
        s
    }
}

/// `s` without the white space at its end.
pub open spec fn trimmed_end(s: Seq<char>) -> Seq<char>
    decreases s.len(),
{
    if s.len() > 0 && is_space(s.last()) {
        trimmed_end(s.drop_last())
    } else {
        s
    }
}

/// `s` without the white space at either end.
pub open spec fn trimmed(s: Seq<char>) -> Seq<char> {
    trimmed_end(trimmed_start(s))
}

/// An ASCII capital becomes the small letter; every other character stays.
pub open spec fn lower_char(c: char) -> char {
    if 'A' <= c <= 'Z' {
        (c as int + 32) as char
    } else {
        c
    }
}

/// `s` with its ASCII capitals made small.
pub open spec fn lowered(s: Seq<char>) -> Seq<char> {
    Seq::new(s.len(), |i: int| lower_char(s[i]))
}

/// `needle` stands in `hay` from position `at` on.
pub open spec fn occurs_at(hay: Seq<char>, needle: Seq<char>, at: int) -> bool {
    &&& 0 <= at
    &&& at + needle.len() <= hay.len()
    &&& hay.subrange(at, at + needle.len()) == needle
}

/// `needle` stands somewhere in `hay`.
pub open spec fn occurs_in(hay: Seq<char>, needle: Seq<char>) -> bool {
    exists|at: int| occurs_at(hay, needle, at)
}

/// `s` starts with `prefix`.
pub open spec fn has_prefix(s: Seq<char>, prefix: Seq<char>) -> bool {
    prefix.len() <= s.len() && s.take(prefix.len() as int) == prefix
}

/// `s` ends with `suffix`.
pub open spec fn has_suffix(s: Seq<char>, suffix: Seq<char>) -> bool {
    suffix.len() <= s.len() && s.skip(s.len() - suffix.len()) == suffix
}

/// The parts one after the other with `between` between each two.
pub open spec fn joined(parts: Seq<Seq<char>>, between: Seq<char>) -> Seq<char>
    decreases parts.len(),
{
    if parts.len() == 0 {
        Seq::empty()
    } else if parts.len() == 1 {
        parts[0]
    } else {
        joined(parts.drop_last(), between) + between + parts.last()
    }
}

/// The order of strings: by the first character that differs, else the shorter first.
pub open spec fn precedes(a: Seq<char>, b: Seq<char>) -> bool
    decreases a.len(),
{
    if b.len() == 0 {
        false
    } else if a.len() == 0 {
        true
    } else if a[0] == b[0] {
        precedes(a.drop_first(), b.drop_first())
    } else {
        (a[0] as int) < (b[0] as int)
    }
}

/// The characters of a string.
pub fn chars_of(s: &str) -> (out: Vec<char>)
    ensures
        out@ == s@,
{
    let mut out: Vec<char> = Vec::new();
    for c in it: s.chars()
        invariant
            it.seq() == s@,
            out@ == s@.take(it.index() as int),
    {
        out.push(c);
        proof {
            assert(s@.take(it.index() + 1) =~= s@.take(it.index() as int).push(c));
        }
    }
    assert(s@.take(s@.len() as int) =~= s@);
    out
}

/// The string that holds `chars[from..to]`.
pub fn text_of(chars: &Vec<char>, from: usize, to: usize) -> (out: String)
    requires
        from <= to <= chars@.len(),
    ensures
        out@ == chars@.subrange(from as int, to as int),
{
    let mut out = String::new();
    let mut i: usize = from;
    while i < to
        invariant
            from <= i <= to <= chars@.len(),
            out@ == chars@.subrange(from as int, i as int),
        decreases to - i,
    {
        out.push(chars[i]);
        i += 1;
        assert(out@ =~= chars@.subrange(from as int, i as int));
    }
    out
}

/// Whether `c` is white space.
pub fn space(c: char) -> (r: bool)
    ensures
        r == is_space(c),
{
    let n: u32 = c as u32;
    (0x9 <= n && n <= 0xd) || n == 0x20 || n == 0x85 || n == 0xa0 || n == 0x1680 || (0x2000 <= n
        && n <= 0x200a) || n == 0x2028 || n == 0x2029 || n == 0x202f || n == 0x205f || n == 0x3000
}

proof fn trimmed_start_is_skip(s: Seq<char>, k: int)
    requires
        0 <= k <= s.len(),
        forall|i: int| 0 <= i < k ==> is_space(#[trigger] s[i]),
        k == s.len() || !is_space(s[k]),
    ensures
        trimmed_start(s) == s.skip(k),
    decreases k,
{
    if k > 0 {
        let rest = s.drop_first();
        assert forall|i: int| 0 <= i < k - 1 implies is_space(#[trigger] rest[i]) by {
            assert(rest[i] == s[i + 1]);
        }
        trimmed_start_is_skip(rest, k - 1);
        assert(rest.skip(k - 1) =~= s.skip(k));
    } else {
        assert(s.skip(0) =~= s);
    }
}

proof fn trimmed_end_is_take(s: Seq<char>, k: int)
    requires
        0 <= k <= s.len(),
        forall|i: int| k <= i < s.len() ==> is_space(#[trigger] s[i]),
        k == 0 || !is_space(s[k - 1]),
    ensures
        trimmed_end(s) == s.take(k),
    decreases s.len() - k,
{
    if k < s.len() {
        let rest = s.drop_last();
        assert(is_space(s[s.len() - 1]));
        trimmed_end_is_take(rest, k);
        assert(rest.take(k) =~= s.take(k));
    } else {
        assert(s.take(k) =~= s);
    }
}

/// The string without the white space at either end.
pub fn trim(s: &str) -> (out: String)
    ensures
        out@ == trimmed(s@),
{
    let chars = chars_of(s);
    let mut from: usize = 0;
    while from < chars.len() && space(chars[from])
        invariant
            from <= chars@.len(),
            forall|i: int| 0 <= i < from ==> is_space(#[trigger] chars@[i]),
        decreases chars@.len() - from,
    {
        from += 1;
    }
    let mut to: usize = chars.len();
    while to > from && space(chars[to - 1])
        invariant
            from <= to <= chars@.len(),
            forall|i: int| to <= i < chars@.len() ==> is_space(#[trigger] chars@[i]),
        decreases to,
    {
        to -= 1;
    }
    proof {
        trimmed_start_is_skip(s@, from as int);
        let rest = s@.skip(from as int);
        assert forall|i: int| to - from <= i < rest.len() implies is_space(#[trigger] rest[i]) by {
            assert(rest[i] == chars@[i + from]);
        }
        trimmed_end_is_take(rest, to - from);
        assert(rest.take(to - from) =~= chars@.subrange(from as int, to as int));
    }
    text_of(&chars, from, to)
}

/// The string with its ASCII capitals made small.
pub fn lower(s: &str) -> (out: String)
    ensures
        out@ == lowered(s@),
{
    let chars = chars_of(s);
    let mut out = String::new();
    let mut i: usize = 0;
    while i < chars.len()
        invariant
            i <= chars@.len(),
            chars@ == s@,
            out@ == lowered(s@).take(i as int),
        decreases chars@.len() - i,
    {
        let c = chars[i];
        if 'A' <= c && c <= 'Z' {
            let small: u8 = (c as u8) + 32;
            out.push(small as char);
        } else {
            out.push(c);
        }
        i += 1;
        assert(out@ =~= lowered(s@).take(i as int));
    }
    assert(out@ =~= lowered(s@));
    out
}

/// Whether two strings hold the same text.
pub fn same(a: &str, b: &str) -> (r: bool)
    ensures
        r == (a@ == b@),
{
    let x = chars_of(a);
    let y = chars_of(b);
    if x.len() != y.len() {
        return false;
    }
    let mut i: usize = 0;
    while i < x.len()
        invariant
            i <= x@.len(),
            x@.len() == y@.len(),
            x@ == a@,
            y@ == b@,
            forall|k: int| 0 <= k < i ==> x@[k] == y@[k],
        decreases x@.len() - i,
    {
        if x[i] != y[i] {
            return false;
        }
        i += 1;
    }
    assert(a@ =~= b@);
    true
}

/// Whether `needle` stands in `hay` from position `at` on.
pub fn stands_at(hay: &Vec<char>, needle: &Vec<char>, at: usize) -> (r: bool)
    ensures
        r == occurs_at(hay@, needle@, at as int),
{
    if at > hay.len() || needle.len() > hay.len() - at {
        return false;
    }
    let len: usize = hay.len();
    let mut i: usize = 0;
    while i < needle.len()
        invariant
            i <= needle@.len(),
            len == hay@.len(),
            at + needle@.len() <= len,
            forall|k: int| 0 <= k < i ==> hay@[at + k] == needle@[k],
        decreases needle@.len() - i,
    {
        if hay[at + i] != needle[i] {
            assert(hay@.subrange(at as int, at + needle@.len())[i as int] != needle@[i as int]);
            return false;
        }
        i += 1;
    }
    assert(hay@.subrange(at as int, at + needle@.len()) =~= needle@);
    true
}

/// Whether `needle` stands somewhere in `hay`.
pub fn contains(hay: &str, needle: &str) -> (r: bool)
    ensures
        r == occurs_in(hay@, needle@),
{
    let h = chars_of(hay);
    let n = chars_of(needle);
    let mut at: usize = 0;
    while at < h.len()
        invariant
            at <= h@.len(),
            h@ == hay@,
            n@ == needle@,
            forall|k: int| 0 <= k < at ==> !occurs_at(hay@, needle@, k),
        decreases h@.len() - at,
    {
        if stands_at(&h, &n, at) {
            return true;
        }
        at += 1;
    }
    stands_at(&h, &n, at)
}

/// Whether `s` starts with `prefix`.
pub fn starts_with(s: &str, prefix: &str) -> (r: bool)
    ensures
        r == has_prefix(s@, prefix@),
{
    let h = chars_of(s);
    let n = chars_of(prefix);
    let r = stands_at(&h, &n, 0);
    proof {
        if prefix@.len() <= s@.len() {
            assert(s@.subrange(0, prefix@.len() as int) =~= s@.take(prefix@.len() as int));
        }
    }
    r
}

/// Whether `s` ends with `suffix`.
pub fn ends_with(s: &str, suffix: &str) -> (r: bool)
    ensures
        r == has_suffix(s@, suffix@),
{
    let h = chars_of(s);
    let n = chars_of(suffix);
    if n.len() > h.len() {
        return false;
    }
    let at: usize = h.len() - n.len();
    proof {
        assert(s@.subrange(at as int, at + suffix@.len()) =~= s@.skip(at as int));
    }
    stands_at(&h, &n, at)
}

/// What follows `prefix` in `s`, where `s` starts with it.
pub fn strip_prefix(s: &str, prefix: &str) -> (out: Option<String>)
    ensures
        out is Some <==> has_prefix(s@, prefix@),
        out matches Some(rest) ==> rest@ == s@.skip(prefix@.len() as int),
{
    if starts_with(s, prefix) {
        let h = chars_of(s);
        let n = chars_of(prefix);
        let rest = text_of(&h, n.len(), h.len());
        assert(rest@ =~= s@.skip(prefix@.len() as int));
        Some(rest)
    } else {
        None
    }
}

/// What precedes `suffix` in `s`, where `s` ends with it.
pub fn strip_suffix(s: &str, suffix: &str) -> (out: Option<String>)
    ensures
        out is Some <==> has_suffix(s@, suffix@),
        out matches Some(rest) ==> rest@ == s@.take(s@.len() - suffix@.len()),
{
    if ends_with(s, suffix) {
        let h = chars_of(s);
        let n = chars_of(suffix);
        let rest = text_of(&h, 0, h.len() - n.len());
        assert(rest@ =~= s@.take(s@.len() - suffix@.len()));
        Some(rest)
    } else {
        None
    }
}

/// The parts one after the other with `between` between each two.
pub fn join(parts: &Vec<String>, between: &str) -> (out: String)
    ensures
        out@ == joined(texts(parts@), between@),
{
    let mut out = String::new();
    let mut i: usize = 0;
    while i < parts.len()
        invariant
            i <= parts@.len(),
            out@ == joined(texts(parts@).take(i as int), between@),
        decreases parts@.len() - i,
    {
        if i > 0 {
            out.append(between);
        }
        out.append(parts[i].as_str());
        proof {
            let next = texts(parts@).take(i + 1);
            assert(next.drop_last() =~= texts(parts@).take(i as int));
            assert(next.last() == parts@[i as int]@);
            if i == 0 {
                assert(out@ =~= next[0]);
            }
        }
        i += 1;
    }
    assert(texts(parts@).take(i as int) =~= texts(parts@));
    out
}

/// A text does not come before itself.
pub proof fn precedes_irreflexive(a: Seq<char>)
    ensures
        !precedes(a, a),
    decreases a.len(),
{
    if a.len() > 0 {
        precedes_irreflexive(a.drop_first());
    }
}

/// The order of strings is transitive.
pub proof fn precedes_transitive(a: Seq<char>, b: Seq<char>, c: Seq<char>)
    requires
        precedes(a, b),
        precedes(b, c),
    ensures
        precedes(a, c),
    decreases a.len(),
{
    if a.len() > 0 && a[0] == b[0] && b[0] == c[0] {
        precedes_transitive(a.drop_first(), b.drop_first(), c.drop_first());
    }
}

/// Of two different texts one comes before the other.
pub proof fn precedes_total(a: Seq<char>, b: Seq<char>)
    requires
        a != b,
    ensures
        precedes(a, b) || precedes(b, a),
    decreases a.len(),
{
    if a.len() > 0 && b.len() > 0 && a[0] == b[0] {
        assert(a =~= seq![a[0]] + a.drop_first());
        assert(b =~= seq![b[0]] + b.drop_first());
        precedes_total(a.drop_first(), b.drop_first());
    } else if a.len() == 0 && b.len() == 0 {
        assert(a =~= b);
    } else if a.len() > 0 && b.len() > 0 {
        let x: char = a[0];
        let y: char = b[0];
        assert(x as int != y as int);
    }
}

/// Two texts do not both come before each other.
pub proof fn precedes_asymmetric(a: Seq<char>, b: Seq<char>)
    requires
        precedes(a, b),
    ensures
        !precedes(b, a),
{
    if precedes(b, a) {
        precedes_transitive(a, b, a);
        precedes_irreflexive(a);
    }
}

proof fn precedes_at(a: Seq<char>, b: Seq<char>, k: int)
    requires
        0 <= k <= a.len(),
        k <= b.len(),
        forall|i: int| 0 <= i < k ==> a[i] == b[i],
    ensures
        precedes(a, b) == precedes(a.skip(k), b.skip(k)),
    decreases k,
{
    if k > 0 {
        let x = a.drop_first();
        let y = b.drop_first();
        assert forall|i: int| 0 <= i < k - 1 implies x[i] == y[i] by {
            assert(a[i + 1] == b[i + 1]);
        }
        precedes_at(x, y, k - 1);
        assert(x.skip(k - 1) =~= a.skip(k));
        assert(y.skip(k - 1) =~= b.skip(k));
    } else {
        assert(a.skip(0) =~= a);
        assert(b.skip(0) =~= b);
    }
}

/// Whether `a` comes before `b` in the order of strings.
pub fn before(a: &str, b: &str) -> (r: bool)
    ensures
        r == precedes(a@, b@),
{
    let x = chars_of(a);
    let y = chars_of(b);
    let mut i: usize = 0;
    while i < x.len() && i < y.len()
        invariant
            i <= x@.len(),
            i <= y@.len(),
            x@ == a@,
            y@ == b@,
            forall|k: int| 0 <= k < i ==> x@[k] == y@[k],
        decreases x@.len() - i,
    {
        if x[i] != y[i] {
            proof {
                precedes_at(a@, b@, i as int);
                assert(a@.skip(i as int)[0] == a@[i as int]);
                assert(b@.skip(i as int)[0] == b@[i as int]);
            }
            return x[i] < y[i];
        }
        i += 1;
    }
    proof {
        precedes_at(a@, b@, i as int);
    }
    i < y.len()
}

/// The decimal digit `n`.
pub open spec fn digit(n: nat) -> char {
    (48 + n) as char
}

/// `n` in decimal notation.
pub open spec fn decimal(n: nat) -> Seq<char>
    decreases n,
{
    if n < 10 {
        seq![digit(n)]
    } else {
        decimal(n / 10).push(digit(n % 10))
    }
}

/// `c` is a decimal digit.
pub open spec fn is_digit(c: char) -> bool {
    '0' <= c <= '9'
}

/// The number that a sequence of decimal digits denotes.
pub open spec fn digits_value(s: Seq<char>) -> nat
    decreases s.len(),
{
    if s.len() == 0 {
        0
    } else {
        (digits_value(s.drop_last()) * 10 + (s.last() as int - 48)) as nat
    }
}

/// A text of nothing but decimal digits.
pub open spec fn all_digits(s: Seq<char>) -> bool {
    forall|i: int| 0 <= i < s.len() ==> is_digit(#[trigger] s[i])
}

/// Decimal notation read back gives the number.
pub proof fn decimal_reads_back(n: nat)
    ensures
        decimal(n).len() > 0,
        all_digits(decimal(n)),
        digits_value(decimal(n)) == n,
    decreases n,
{
    if n >= 10 {
        decimal_reads_back(n / 10);
        let d = decimal(n);
        assert(d.drop_last() =~= decimal(n / 10));
    } else {
        let d = decimal(n);
        assert(d.drop_last() =~= Seq::<char>::empty());
        reveal_with_fuel(digits_value, 2);
    }
}

/// `n` in decimal notation.
pub fn number(n: u128) -> (out: String)
    ensures
        out@ == decimal(n as nat),
    decreases n,
{
    let d: u8 = 48 + (n % 10) as u8;
    if n < 10 {
        let mut out = String::new();
        out.push(d as char);
        assert(out@ =~= decimal(n as nat));
        out
    } else {
        let mut out = number(n / 10);
        out.push(d as char);
        assert(out@ =~= decimal(n as nat));
        out
    }
}

/// Why a text is no number.
#[derive(Debug, Clone, Copy, PartialEq, Eq, Structural)]
pub enum NumberError {
    /// There is no text.
    Empty,
    /// A character is no digit, or there is nothing after the sign.
    InvalidDigit,
    /// The number does not fit into 64 bits.
    TooLarge,
}

impl NumberError {
    /// The message of the error.
    pub open spec fn message(&self) -> Seq<char> {
        match *self {
            NumberError::Empty => "cannot parse integer from empty string"@,
            NumberError::InvalidDigit => "invalid digit found in string"@,
            NumberError::TooLarge => "number too large to fit in target type"@,
        }
    }

    /// The message of the error.
    pub fn to_text(&self) -> (text: String)
        ensures
            text@ == self.message(),
    {
        match self {
            NumberError::Empty => "cannot parse integer from empty string".to_owned(),
            NumberError::InvalidDigit => "invalid digit found in string".to_owned(),
            NumberError::TooLarge => "number too large to fit in target type".to_owned(),
        }
    }
}

/// How many digits a text starts with.
pub open spec fn digit_run(s: Seq<char>) -> int
    decreases s.len(),
{
    if s.len() > 0 && is_digit(s[0]) {
        1 + digit_run(s.drop_first())
    } else {
        0
    }
}

/// The digits of a number: what follows the plus sign, where there is one.
pub open spec fn unsigned_part(s: Seq<char>) -> Seq<char> {
    if s.len() > 0 && s[0] == '+' {
        s.drop_first()
    } else {
        s
    }
}

/// The number that a text denotes in decimal notation, with or without a plus
/// sign; the first thing that is wrong, read from the left, is the error.
pub open spec fn parsed(s: Seq<char>) -> Result<u64, NumberError> {
    let d = unsigned_part(s);
    let run = d.take(digit_run(d));
    if s.len() == 0 {
        Err(NumberError::Empty)
    } else if digits_value(run) > u64::MAX {
        Err(NumberError::TooLarge)
    } else if d.len() == 0 || run.len() < d.len() {
        Err(NumberError::InvalidDigit)
    } else {
        Ok(digits_value(run) as u64)
    }
}

proof fn digit_run_is(s: Seq<char>, k: int)
    requires
        0 <= k <= s.len(),
        forall|i: int| 0 <= i < k ==> is_digit(#[trigger] s[i]),
        k == s.len() || !is_digit(s[k]),
    ensures
        digit_run(s) == k,
    decreases k,
{
    if k > 0 {
        let rest = s.drop_first();
        assert forall|i: int| 0 <= i < k - 1 implies is_digit(#[trigger] rest[i]) by {
            assert(rest[i] == s[i + 1]);
        }
        assert(is_digit(s[0]));
        digit_run_is(rest, k - 1);
    }
}

proof fn digit_run_bounds(s: Seq<char>)
    ensures
        0 <= digit_run(s) <= s.len(),
        forall|i: int| 0 <= i < digit_run(s) ==> is_digit(#[trigger] s[i]),
    decreases s.len(),
{
    if s.len() > 0 && is_digit(s[0]) {
        let rest = s.drop_first();
        digit_run_bounds(rest);
        assert forall|i: int| 0 <= i < digit_run(s) implies is_digit(#[trigger] s[i]) by {
            if i > 0 {
                assert(s[i] == rest[i - 1]);
            }
        }
    }
}

proof fn digits_value_grows(s: Seq<char>, k: int, m: int)
    requires
        0 <= k <= m <= s.len(),
        forall|i: int| 0 <= i < m ==> is_digit(#[trigger] s[i]),
    ensures
        digits_value(s.take(k)) <= digits_value(s.take(m)),
    decreases m - k,
{
    if k < m {
        digits_value_grows(s, k, m - 1);
        assert(s.take(m).drop_last() =~= s.take(m - 1));
        assert(is_digit(s[m - 1]));
    }
}

/// The number that a text denotes in decimal notation.
pub fn parse_u64(s: &str) -> (r: Result<u64, NumberError>)
    ensures
        r == parsed(s@),
{
    let chars = chars_of(s);
    if chars.len() == 0 {
        return Err(NumberError::Empty);
    }
    let first: usize = if chars[0] == '+' {
        1
    } else {
        0
    };
    let ghost d = unsigned_part(s@);
    let mut value: u64 = 0;
    let mut i: usize = first;
    proof {
        assert(d =~= chars@.skip(first as int));
        assert(d.take(0) =~= Seq::<char>::empty());
        digit_run_bounds(d);
    }
    if i == chars.len() {
        assert(d.take(digit_run(d)) =~= Seq::<char>::empty());
        return Err(NumberError::InvalidDigit);
    }
    while i < chars.len()
        invariant
            chars@ == s@,
            d == unsigned_part(s@),
            d == chars@.skip(first as int),
            first <= i <= chars@.len(),
            first <= 1,
            s@.len() > 0,
            d.len() > 0,
            0 <= digit_run(d) <= d.len(),
            forall|k: int| 0 <= k < digit_run(d) ==> is_digit(#[trigger] d[k]),
            forall|k: int| 0 <= k < i - first ==> is_digit(#[trigger] d[k]),
            value == digits_value(d.take(i - first)),
        decreases chars@.len() - i,
    {
        let c = chars[i];
        assert(d[i - first] == c);
        if !('0' <= c && c <= '9') {
            proof {
                digit_run_is(d, i - first);
            }
            return Err(NumberError::InvalidDigit);
        }
        let digit_value: u64 = (c as u8 - 48) as u64;
        proof {
            let next = d.take(i + 1 - first);
            assert(next.drop_last() =~= d.take(i - first));
            assert(digits_value(next) == value * 10 + digit_value);
            assert(i + 1 - first <= digit_run(d)) by {
                if digit_run(d) < i + 1 - first {
                    if digit_run(d) < d.len() {
                        digit_run_stops(d);
                        assert(is_digit(d[digit_run(d)]));
                    }
                }
            }
            digits_value_grows(d, i + 1 - first, digit_run(d));
        }
        match value.checked_mul(10) {
            None => {
                return Err(NumberError::TooLarge);
            },
            Some(tens) => match tens.checked_add(digit_value) {
                None => {
                    return Err(NumberError::TooLarge);
                },
                Some(next) => {
                    value = next;
                },
            },
        }
        i += 1;
    }
    proof {
        digit_run_is(d, d.len() as int);
        assert(d.take(d.len() as int) =~= d);
    }
    Ok(value)
}

proof fn digit_run_stops(s: Seq<char>)
    requires
        digit_run(s) < s.len(),
    ensures
        !is_digit(s[digit_run(s)]),
    decreases s.len(),
{
    if s.len() > 0 && is_digit(s[0]) {
        let rest = s.drop_first();
        digit_run_bounds(rest);
        digit_run_stops(rest);
        assert(rest[digit_run(rest)] == s[digit_run(s)]);
    }
}

/// A number written in decimal notation is read back.
pub proof fn written_number_is_parsed(n: u64)
    ensures
        parsed(decimal(n as nat)) == Ok::<u64, NumberError>(n),
{
    decimal_reads_back(n as nat);
    let d = decimal(n as nat);
    assert(is_digit(d[0]));
    digit_run_is(d, d.len() as int);
    assert(d.take(d.len() as int) =~= d);
}

/// The low `count` bytes of a number, the lowest first.
pub open spec fn le_bytes(n: nat, count: nat) -> Seq<u8>
    decreases count,
{
    if count == 0 {
        Seq::empty()
    } else {
        seq![(n % 256) as u8] + le_bytes(n / 256, (count - 1) as nat)
    }
}

/// Appends the low `count` bytes of a number, the lowest first.
pub fn push_le_bytes(out: &mut Vec<u8>, n: u128, count: usize)
    ensures
        final(out)@ == old(out)@ + le_bytes(n as nat, count as nat),
    decreases count,
{
    if count > 0 {
        let ghost start = out@;
        out.push((n % 256) as u8);
        let ghost held = out@;
        push_le_bytes(out, n / 256, count - 1);
        assert(out@ =~= start + (seq![(n % 256) as u8] + le_bytes(
            (n / 256) as nat,
            (count - 1) as nat,
        )));
    } else {
        assert(out@ =~= old(out)@ + le_bytes(n as nat, 0));
    }
}

/// Appends bytes.
pub fn push_bytes(out: &mut Vec<u8>, bytes: &[u8])
    ensures
        final(out)@ == old(out)@ + bytes@,
{
    let ghost start = out@;
    let mut i: usize = 0;
    assert(start + bytes@.take(0) =~= start);
    while i < bytes.len()
        invariant
            i <= bytes@.len(),
            out@ == start + bytes@.take(i as int),
        decreases bytes@.len() - i,
    {
        out.push(bytes[i]);
        i += 1;
        assert(out@ =~= start + bytes@.take(i as int));
    }
    assert(bytes@.take(i as int) =~= bytes@);
}

/// `count` bytes hold every number below 256 to that power.
pub open spec fn power_of_256(count: nat) -> nat
    decreases count,
{
    if count == 0 {
        1
    } else {
        256 * power_of_256((count - 1) as nat)
    }
}

/// There are `count` bytes, and they tell numbers that fit into them apart.
pub proof fn le_bytes_are_injective(m: nat, n: nat, count: nat)
    ensures
        le_bytes(m, count).len() == count,
        m < power_of_256(count) && n < power_of_256(count) && le_bytes(m, count) == le_bytes(
            n,
            count,
        ) ==> m == n,
    decreases count,
{
    if count > 0 {
        le_bytes_are_injective(m / 256, n / 256, (count - 1) as nat);
        if m < power_of_256(count) && n < power_of_256(count) && le_bytes(m, count) == le_bytes(
            n,
            count,
        ) {
            let a = le_bytes(m, count);
            let b = le_bytes(n, count);
            assert(a[0] == (m % 256) as u8 && b[0] == (n % 256) as u8);
            assert(a.drop_first() =~= le_bytes(m / 256, (count - 1) as nat));
            assert(b.drop_first() =~= le_bytes(n / 256, (count - 1) as nat));
        }
    }
}

/// White space around a text does not count, and nothing inside of it is lost.
pub proof fn white_space_around_does_not_count(left: Seq<char>, s: Seq<char>, right: Seq<char>)
    requires
        forall|i: int| 0 <= i < left.len() ==> is_space(#[trigger] left[i]),
        forall|i: int| 0 <= i < right.len() ==> is_space(#[trigger] right[i]),
        s.len() > 0,
        !is_space(s[0]),
        !is_space(s.last()),
    ensures
        trimmed(left + s + right) == s,
{
    let all = left + s + right;
    assert forall|i: int| 0 <= i < left.len() implies is_space(#[trigger] all[i]) by {
        assert(all[i] == left[i]);
    }
    assert(all[left.len() as int] == s[0]);
    trimmed_start_is_skip(all, left.len() as int);
    let rest = s + right;
    assert(all.skip(left.len() as int) =~= rest);
    assert forall|i: int| s.len() <= i < rest.len() implies is_space(#[trigger] rest[i]) by {
        assert(rest[i] == right[i - s.len()]);
    }
    assert(rest[s.len() - 1] == s.last());
    trimmed_end_is_take(rest, s.len() as int);
    assert(rest.take(s.len() as int) =~= s);
}

/// A text of nothing but white space is blank.
pub proof fn white_space_is_blank(s: Seq<char>)
    requires
        forall|i: int| 0 <= i < s.len() ==> is_space(#[trigger] s[i]),
    ensures
        trimmed(s) == Seq::<char>::empty(),
{
    trimmed_start_is_skip(s, s.len() as int);
    assert(s.skip(s.len() as int) =~= Seq::<char>::empty());
}

/// A number with white space around it is read.
pub proof fn a_number_is_read_between_white_space(left: Seq<char>, n: u64, right: Seq<char>)
    requires
        forall|i: int| 0 <= i < left.len() ==> is_space(#[trigger] left[i]),
        forall|i: int| 0 <= i < right.len() ==> is_space(#[trigger] right[i]),
    ensures
        trimmed(left + decimal(n as nat) + right) == decimal(n as nat),
        parsed(trimmed(left + decimal(n as nat) + right)) == Ok::<u64, NumberError>(n),
{
    decimal_reads_back(n as nat);
    let d = decimal(n as nat);
    assert(is_digit(d[0]) && is_digit(d[d.len() - 1]));
    white_space_around_does_not_count(left, d, right);
    written_number_is_parsed(n);
}

/// Which characters are white space: the blank, the controls from the tab to the carriage
/// return, and the spaces and separators beyond ASCII.
pub proof fn white_space_is_told_by_the_code(c: char)
    ensures
        (c as int) < 0x80 ==> (is_space(c) <==> c == ' ' || c == '\t' || c == '\n' || c == '\r' || c
            as int == 0xb || c as int == 0xc),
        c as int >= 0x80 ==> (is_space(c) <==> c as int == 0x85 || c as int == 0xa0 || c as int
            == 0x1680 || 0x2000 <= c as int <= 0x200a || 0x2028 <= c as int <= 0x2029 || c as int
            == 0x202f || c as int == 0x205f || c as int == 0x3000),
{
}

/// Capital letters of ASCII become small, each by itself, and nothing else changes.
pub proof fn capitals_become_small(s: &str, out: String, i: int)
    requires
        call_ensures(lower, (s,), out),
        0 <= i < s@.len(),
    ensures
        out@.len() == s@.len(),
        'A' <= s@[i] <= 'Z' ==> out@[i] as int == s@[i] as int - 'A' as int + 'a' as int,
        !('A' <= s@[i] <= 'Z') ==> out@[i] == s@[i],
{
}

/// A text stands in another exactly where the other is it with something before and
/// something behind it.
pub proof fn a_text_stands_between_others(
    hay: &str,
    needle: &str,
    left: Seq<char>,
    right: Seq<char>,
    r: bool,
) -> (around: (Seq<char>, Seq<char>))
    requires
        call_ensures(contains, (hay, needle), r),
    ensures
        hay@ == left + needle@ + right ==> r,
        r ==> hay@ == around.0 + needle@ + around.1,
{
    if hay@ == left + needle@ + right {
        assert(hay@.subrange(left.len() as int, (left.len() + needle@.len()) as int) =~= needle@);
        assert(occurs_at(hay@, needle@, left.len() as int));
    }
    if r {
        let at = choose|at: int| occurs_at(hay@, needle@, at);
        let around = (hay@.take(at), hay@.skip(at + needle@.len()));
        assert(hay@ =~= around.0 + needle@ + around.1);
        around
    } else {
        (left, right)
    }
}

/// What is stripped of a text is at its start or at its end, and the rest is kept.
pub proof fn a_text_is_stripped_at_its_ends(
    s: &str,
    part: &str,
    rest: Seq<char>,
    front: Option<String>,
    back: Option<String>,
)
    requires
        call_ensures(strip_prefix, (s, part), front),
        call_ensures(strip_suffix, (s, part), back),
    ensures
        s@ == part@ + rest ==> front is Some && front->Some_0@ == rest,
        front is Some ==> s@ == part@ + front->Some_0@,
        s@ == rest + part@ ==> back is Some && back->Some_0@ == rest,
        back is Some ==> s@ == back->Some_0@ + part@,
{
    let n = part@.len() as int;
    if s@ == part@ + rest {
        assert(s@.take(n) =~= part@);
        assert(s@.skip(n) =~= rest);
    }
    if s@ == rest + part@ {
        assert(s@.skip(s@.len() - n) =~= part@);
        assert(s@.take(s@.len() - n) =~= rest);
    }
    if front is Some {
        assert(s@ =~= s@.take(n) + s@.skip(n));
    }
    if back is Some {
        assert(s@ =~= s@.take(s@.len() - n) + s@.skip(s@.len() - n));
    }
}

/// A list of parts is written with what stands between them before each part but the
/// first.
pub proof fn parts_are_joined_one_by_one(parts: Seq<Seq<char>>, more: Seq<char>, between: Seq<char>)
    ensures
        joined(seq![more], between) == more,
        joined(Seq::empty(), between) == Seq::<char>::empty(),
        parts.len() > 0 ==> joined(parts.push(more), between) == joined(parts, between) + between
            + more,
{
    assert(parts.push(more).drop_last() =~= parts);
}

/// Which of two texts comes first is told by the first character in which they differ;
/// where one goes on where the other ends, the shorter one comes first.
pub proof fn the_first_difference_decides(a: &str, b: &str, r: bool, i: int)
    requires
        call_ensures(before, (a, b), r),
        0 <= i <= a@.len(),
        i <= b@.len(),
        a@.take(i) == b@.take(i),
    ensures
        i < a@.len() && i < b@.len() && a@[i] != b@[i] ==> (r <==> (a@[i] as int) < (b@[i] as int)),
        i == a@.len() ==> (r <==> a@.len() < b@.len()),
        i == b@.len() ==> !r,
{
    precedes_behind(a@, b@, i);
    assert(i < a@.len() ==> a@.skip(i)[0] == a@[i]);
    assert(i < b@.len() ==> b@.skip(i)[0] == b@[i]);
}

proof fn precedes_behind(a: Seq<char>, b: Seq<char>, i: int)
    requires
        0 <= i <= a.len(),
        i <= b.len(),
        a.take(i) == b.take(i),
    ensures
        precedes(a, b) == precedes(a.skip(i), b.skip(i)),
    decreases i,
{
    if i > 0 {
        assert(a[0] == a.take(i)[0] && b[0] == b.take(i)[0]);
        let c = a.drop_first();
        let d = b.drop_first();
        assert(c.take(i - 1) =~= d.take(i - 1)) by {
            assert forall|k: int| 0 <= k < i - 1 implies c[k] == d[k] by {
                assert(c[k] == a.take(i)[k + 1] && d[k] == b.take(i)[k + 1]);
            }
        }
        precedes_behind(c, d, i - 1);
        assert(c.skip(i - 1) =~= a.skip(i));
        assert(d.skip(i - 1) =~= b.skip(i));
    } else {
        assert(a.skip(0) =~= a);
        assert(b.skip(0) =~= b);
    }
}

/// A number may be written with a plus sign. A text with anything but digits behind its
/// first character is no number, nor is one that begins with anything but a digit or a
/// plus sign, nor an empty one.
pub proof fn only_digits_make_a_number(s: &str, r: Result<u64, NumberError>, n: u64, i: int)
    requires
        call_ensures(parse_u64, (s,), r),
    ensures
        s@ == seq!['+'] + decimal(n as nat) ==> r == Ok::<u64, NumberError>(n),
        s@ == decimal(n as nat) ==> r == Ok::<u64, NumberError>(n),
        0 < i < s@.len() && !('0' <= s@[i] <= '9') ==> r is Err,
        s@.len() > 0 && !('0' <= s@[0] <= '9') && s@[0] != '+' ==> r is Err,
        s@.len() == 0 ==> r is Err,
{
    let d = unsigned_part(s@);
    decimal_reads_back(n as nat);
    if s@ == seq!['+'] + decimal(n as nat) {
        assert(d =~= decimal(n as nat));
        digit_run_is(d, d.len() as int);
        assert(d.take(d.len() as int) =~= d);
    }
    if s@ == decimal(n as nat) {
        written_number_is_parsed(n);
    }
    digit_run_ends(d);
    if 0 < i < s@.len() && !('0' <= s@[i] <= '9') {
        let k = if s@[0] == '+' {
            i - 1
        } else {
            i
        };
        assert(d[k] == s@[i]);
    }
}

proof fn digit_run_ends(s: Seq<char>)
    ensures
        0 <= digit_run(s) <= s.len(),
        forall|i: int| 0 <= i < digit_run(s) ==> is_digit(#[trigger] s[i]),
    decreases s.len(),
{
    if s.len() > 0 && is_digit(s[0]) {
        digit_run_ends(s.drop_first());
        assert forall|i: int| 0 <= i < digit_run(s) implies is_digit(#[trigger] s[i]) by {
            if i > 0 {
                assert(s[i] == s.drop_first()[i - 1]);
            }
        }
    }
}

/// The low byte of a number comes first: behind it stand the bytes of what is left of the
/// number when it is taken away.
pub proof fn the_low_byte_comes_first(n: nat, low: u8, count: nat)
    ensures
        le_bytes(256 * n + low as nat, count + 1) == seq![low] + le_bytes(n, count),
        le_bytes(n, 0) == Seq::<u8>::empty(),
{
    assert((256 * n + low as nat) % 256 == low as nat);
    assert((256 * n + low as nat) / 256 == n);
}

} // verus!
