//! What the cache of file metadata knows of a file, and what follows from it.
//!
//! One entry per file says which content was indexed. The entries of several
//! embedder and chunking identities share one cache: an entry's key starts with
//! the salt of its identity.

use vstd::bytes::{
    lemma_auto_spec_u64_to_from_le_bytes, spec_u64_from_le_bytes, spec_u64_to_le_bytes,
};
use vstd::prelude::*;
use vstd::utf8::{
    decode_utf8, encode_utf8, encode_utf8_decode_utf8, encode_utf8_valid_utf8, valid_utf8,
};

use crate::digest::{hex_digest, hex_is_injective, hex_of, sha256};
use crate::table::{Table, TextSet};
use crate::text::{
    contains, has_prefix, occurs_at, occurs_in, same, strip_prefix, texts, utf8_text,
};

verus! {

/// How many milliseconds an open waits out a lock that another handle holds.
pub const LOCK_WAIT_BUDGET_MS: u64 = 250;

/// How many milliseconds pass between two tries.
pub const LOCK_WAIT_STEP_MS: u64 = 10;

/// Whether the text of an I/O error of the store tells of a lock that is held.
pub fn is_lock_contention(message: &str) -> (r: bool)
    ensures
        r == occurs_in(message@, "could not acquire lock"@),
{
    contains(message, "could not acquire lock")
}

/// The wait after an open has failed, where it is tried again.
pub open spec fn wait_after(contention: bool, waited_ms: u64) -> Option<u64> {
    if contention && waited_ms < LOCK_WAIT_BUDGET_MS {
        Some(LOCK_WAIT_STEP_MS)
    } else {
        None
    }
}

/// Another handle's lock is waited out in steps of ten milliseconds for a quarter of a
/// second and no longer, and no other failure is waited out at all: the open is tried
/// again exactly where the lock is held and less than that was waited.
pub proof fn only_a_held_lock_is_waited_out(contention: bool, waited_ms: u64)
    ensures
        wait_after(contention, waited_ms) is Some <==> contention && waited_ms < 250,
        wait_after(contention, waited_ms) matches Some(ms) ==> ms == 10,
{
}

/// What to do after an open has failed: `Some` of the milliseconds to wait
/// before the next try, or `None` to report the failure.
///
/// Only a held lock is waited for, and only inside the budget.
pub fn after_failed_open(contention: bool, waited_ms: u64) -> (wait: Option<u64>)
    ensures
        wait == wait_after(contention, waited_ms),
{
    if contention && waited_ms < LOCK_WAIT_BUDGET_MS {
        Some(LOCK_WAIT_STEP_MS)
    } else {
        None
    }
}

/// What an open has waited after `tries` failures on a held lock.
pub open spec fn waited_after(tries: nat) -> nat {
    tries * LOCK_WAIT_STEP_MS as nat
}

/// However long the lock is held, the waiting ends: the open gives up on the
/// 26th failure, having waited exactly the budget.
pub proof fn lock_wait_is_bounded(tries: nat)
    ensures
        waited_after(tries) < LOCK_WAIT_BUDGET_MS <==> tries < 25,
        waited_after(25) == LOCK_WAIT_BUDGET_MS,
{
    assert(LOCK_WAIT_STEP_MS == 10 && LOCK_WAIT_BUDGET_MS == 250);
}

/// What is known of one indexed file.
#[derive(Debug, Clone)]
pub struct FileMetadata {
    /// The SHA-256 digest of the content, in hexadecimal notation.
    pub hash: String,
    /// When the file was last modified, in Unix seconds.
    pub last_modified: u64,
    /// The size in bytes.
    pub size: u64,
    /// When the file was indexed, in Unix seconds.
    pub indexed_at: u64,
}

/// What the file system says of a file without a look at its content.
#[derive(Debug, Clone, Copy)]
pub struct FileStat {
    /// When the file was last modified, in Unix seconds.
    pub last_modified: u64,
    /// The size in bytes.
    pub size: u64,
}

/// The error of a stored entry that is no metadata.
#[derive(Debug, Clone, Copy, PartialEq, Eq, Structural)]
pub enum MetadataError {
    /// The bytes do not have the form of an entry.
    Malformed,
    /// An entry could not be written down.
    Unwritable,
    /// A key is not UTF-8.
    KeyNotUtf8,
}

/// `bincode::ErrorKind`, what `bincode` reports.
#[verifier::external_type_specification]
#[verifier::external_body]
pub struct ExErrorKind(bincode::ErrorKind);

/// The bytes of an entry: the length of the hash and the hash in UTF-8, then the
/// three numbers, each number in eight bytes, the low byte first.
pub open spec fn entry_bytes(hash: Seq<char>, last_modified: u64, size: u64, indexed_at: u64) -> Seq<
    u8,
> {
    spec_u64_to_le_bytes(encode_utf8(hash).len() as u64) + encode_utf8(hash)
        + spec_u64_to_le_bytes(last_modified) + spec_u64_to_le_bytes(size) + spec_u64_to_le_bytes(
        indexed_at,
    )
}

/// The length of the hash that an entry announces.
pub open spec fn announced_len(bytes: Seq<u8>) -> int {
    spec_u64_from_le_bytes(bytes.take(8)) as int
}

/// The bytes start with the form of an entry.
pub open spec fn is_entry(bytes: Seq<u8>) -> bool {
    &&& bytes.len() >= 8
    &&& 8 + announced_len(bytes) + 24 <= bytes.len()
    &&& valid_utf8(bytes.subrange(8, 8 + announced_len(bytes)))
}

/// The number in the eight bytes from `at` on.
pub open spec fn number_at(bytes: Seq<u8>, at: int) -> u64 {
    spec_u64_from_le_bytes(bytes.subrange(at, at + 8))
}

/// `bincode::serialize` on a tuple of a string and three integers, in its default
/// configuration: fixed-width little-endian integers, a string as its length in
/// bytes and then its bytes, no size limit, nothing between the fields. Writing to
/// memory does not fail.
#[verifier::external_body]
fn serialize_entry(hash: &str, last_modified: u64, size: u64, indexed_at: u64) -> (r: Result<
    Vec<u8>,
    Box<bincode::ErrorKind>,
>)
    ensures
        r is Ok,
        r->Ok_0@ == entry_bytes(hash@, last_modified, size, indexed_at),
{
    bincode::serialize(&(hash, last_modified, size, indexed_at))
}

/// `bincode::deserialize` into a tuple of a string and three integers, in the same
/// configuration. It succeeds exactly where the announced length and the three
/// numbers fit into the bytes and the announced bytes are UTF-8; what follows the
/// last number is left alone.
#[verifier::external_body]
fn deserialize_entry(bytes: &[u8]) -> (r: Result<
    (String, u64, u64, u64),
    Box<bincode::ErrorKind>,
>)
    ensures
        r is Ok <==> is_entry(bytes@),
        r matches Ok(t) ==> {
            let n = announced_len(bytes@);
            &&& t.0@ == decode_utf8(bytes@.subrange(8, 8 + n))
            &&& t.1 == number_at(bytes@, 8 + n)
            &&& t.2 == number_at(bytes@, 16 + n)
            &&& t.3 == number_at(bytes@, 24 + n)
        },
{
    bincode::deserialize::<(String, u64, u64, u64)>(bytes)
}

impl FileMetadata {
    /// The metadata of a file that holds `content` and is indexed at `indexed_at`.
    pub fn from_content(content: &str, last_modified: u64, size: u64, indexed_at: u64) -> (m: Self)
        ensures
            m.hash@ == content_hash(content@),
            m.last_modified == last_modified,
            m.size == size,
            m.indexed_at == indexed_at,
    {
        FileMetadata { hash: Self::hash_content(content), last_modified, size, indexed_at }
    }

    /// The SHA-256 digest of a content, in hexadecimal notation.
    pub fn hash_content(content: &str) -> (hash: String)
        ensures
            hash@ == content_hash(content@),
            hash@.len() == 64,
    {
        hex_digest(content.as_bytes())
    }

    /// The bytes under which the entry is stored.
    pub fn encode(&self) -> (r: Result<Vec<u8>, MetadataError>)
        ensures
            r matches Ok(bytes) && bytes@ == entry_bytes(
                self.hash@,
                self.last_modified,
                self.size,
                self.indexed_at,
            ),
    {
        match serialize_entry(
            self.hash.as_str(),
            self.last_modified,
            self.size,
            self.indexed_at,
        ) {
            Ok(bytes) => Ok(bytes),
            Err(_) => Err(MetadataError::Unwritable),
        }
    }

    /// The entry that stored bytes hold.
    pub fn decode(bytes: &[u8]) -> (r: Result<FileMetadata, MetadataError>)
        ensures
            r is Ok <==> is_entry(bytes@),
            r matches Err(e) ==> e == MetadataError::Malformed,
            r matches Ok(m) ==> {
                let n = announced_len(bytes@);
                &&& m.hash@ == decode_utf8(bytes@.subrange(8, 8 + n))
                &&& m.last_modified == number_at(bytes@, 8 + n)
                &&& m.size == number_at(bytes@, 16 + n)
                &&& m.indexed_at == number_at(bytes@, 24 + n)
            },
    {
        match deserialize_entry(bytes) {
            Ok((hash, last_modified, size, indexed_at)) => Ok(
                FileMetadata { hash, last_modified, size, indexed_at },
            ),
            Err(_) => Err(MetadataError::Malformed),
        }
    }
}

/// The digest by which a content is recognised.
pub open spec fn content_hash(content: Seq<char>) -> Seq<char> {
    hex_of(sha256(encode_utf8(content)))
}

/// What was stored is read back: the bytes of an entry hold that entry, whatever
/// follows them.
pub proof fn stored_entry_reads_back(
    hash: Seq<char>,
    last_modified: u64,
    size: u64,
    indexed_at: u64,
    rest: Seq<u8>,
)
    requires
        encode_utf8(hash).len() <= u64::MAX,
    ensures
        ({
            let bytes = entry_bytes(hash, last_modified, size, indexed_at) + rest;
            let n = announced_len(bytes);
            &&& is_entry(bytes)
            &&& decode_utf8(bytes.subrange(8, 8 + n)) == hash
            &&& number_at(bytes, 8 + n) == last_modified
            &&& number_at(bytes, 16 + n) == size
            &&& number_at(bytes, 24 + n) == indexed_at
        }),
{
    lemma_auto_spec_u64_to_from_le_bytes();
    let text = encode_utf8(hash);
    let len = spec_u64_to_le_bytes(text.len() as u64);
    let a = spec_u64_to_le_bytes(last_modified);
    let b = spec_u64_to_le_bytes(size);
    let c = spec_u64_to_le_bytes(indexed_at);
    let bytes = entry_bytes(hash, last_modified, size, indexed_at) + rest;
    let n = text.len() as int;
    assert(len.len() == 8 && a.len() == 8 && b.len() == 8 && c.len() == 8);
    assert(bytes.take(8) =~= len);
    assert(bytes.subrange(8, 8 + n) =~= text);
    assert(bytes.subrange(8 + n, 16 + n) =~= a);
    assert(bytes.subrange(16 + n, 24 + n) =~= b);
    assert(bytes.subrange(24 + n, 32 + n) =~= c);
    encode_utf8_valid_utf8(hash);
    encode_utf8_decode_utf8(hash);
}

/// The file system's word on a file differs from the cached entry.
pub open spec fn is_stat_changed(cached: Option<&FileMetadata>, stat: FileStat) -> bool {
    match cached {
        Some(m) => m.last_modified != stat.last_modified || m.size != stat.size,
        None => true,
    }
}

/// A content differs from the one that the cached entry was made of.
pub open spec fn is_content_changed(cached: Option<&FileMetadata>, content: Seq<char>) -> bool {
    match cached {
        Some(m) => m.hash@ != content_hash(content),
        None => true,
    }
}

/// When a file has to be looked at again. Without an entry, always. With one, another
/// time or another size is enough, each by itself, and where both are as they were the
/// file counts as it was.
pub proof fn a_file_is_unchanged_only_by_time_and_size(m: &FileMetadata, stat: FileStat)
    ensures
        is_stat_changed(None, stat),
        m.last_modified != stat.last_modified ==> is_stat_changed(Some(m), stat),
        m.size != stat.size ==> is_stat_changed(Some(m), stat),
        m.last_modified == stat.last_modified && m.size == stat.size ==> !is_stat_changed(
            Some(m),
            stat,
        ),
{
}

/// What was indexed is not indexed again: against the entry that was made of a content,
/// a content is changed exactly where its SHA-256 digest is another one, whatever the
/// entry says of times and sizes. So the same content never is. Without an entry every
/// content is.
pub proof fn a_content_is_changed_by_its_digest_alone(
    m: &FileMetadata,
    indexed: Seq<char>,
    content: Seq<char>,
)
    requires
        m.hash@ == content_hash(indexed),
    ensures
        is_content_changed(None, content),
        is_content_changed(Some(m), content) <==> sha256(encode_utf8(indexed)) != sha256(
            encode_utf8(content),
        ),
        !is_content_changed(Some(m), indexed),
{
    change_is_a_change_of_digest(indexed, content);
    change_is_a_change_of_digest(indexed, indexed);
}

/// Whether the file system's word on a file differs from the cached entry. A file
/// without an entry counts as changed.
pub fn has_stat_changed(cached: Option<&FileMetadata>, stat: &FileStat) -> (r: bool)
    ensures
        r == is_stat_changed(cached, *stat),
{
    match cached {
        Some(m) => m.last_modified != stat.last_modified || m.size != stat.size,
        None => true,
    }
}

/// Whether a content differs from the one that the cached entry was made of, by
/// its digest. A file without an entry counts as changed.
pub fn has_changed(cached: Option<&FileMetadata>, content: &str) -> (r: bool)
    ensures
        r == is_content_changed(cached, content@),
{
    let current = FileMetadata::hash_content(content);
    match cached {
        Some(m) => !same(m.hash.as_str(), current.as_str()),
        None => true,
    }
}

/// Against an entry made of `indexed`, `content` counts as unchanged exactly
/// where both have the same SHA-256 digest, so never where it is the same content.
pub proof fn change_is_a_change_of_digest(indexed: Seq<char>, content: Seq<char>)
    ensures
        content_hash(indexed) == content_hash(content) <==> sha256(encode_utf8(indexed)) == sha256(
            encode_utf8(content),
        ),
        indexed == content ==> content_hash(indexed) == content_hash(content),
{
    if content_hash(indexed) == content_hash(content) {
        hex_is_injective(sha256(encode_utf8(indexed)), sha256(encode_utf8(content)));
    }
}

/// The key of a file's entry under a salt.
pub open spec fn salted(salt: Seq<char>, path: Seq<char>) -> Seq<char> {
    if salt.len() == 0 {
        path
    } else {
        salt + "::"@ + path
    }
}

/// The key of a file's entry under a salt: `{salt}::{path}`, or the bare path
/// under the empty salt.
pub fn cache_key(salt: &str, path: &str) -> (key: String)
    ensures
        key@ == salted(salt@, path@),
{
    if salt.is_empty() {
        path.to_owned()
    } else {
        let mut key = salt.to_owned();
        key.append("::");
        key.append(path);
        key
    }
}

/// The paths that the keys name under a salt.
pub open spec fn salted_paths(keys: Seq<Seq<char>>, salt: Seq<char>) -> Set<Seq<char>> {
    Set::new(|path: Seq<char>| keys.contains(salted(salt, path)))
}

/// The paths of the entries that belong to one salt, each without the salt. An
/// entry under another salt says nothing of this one and is left out.
pub fn paths_for_salt(keys: Vec<String>, salt: &str) -> (paths: TextSet)
    ensures
        paths.wf(),
        paths@.dom() == salted_paths(texts(keys@), salt@),
{
    let mut paths: TextSet = Table::new();
    let mut prefix = salt.to_owned();
    prefix.append("::");
    let bare: bool = salt.is_empty();
    let mut i: usize = 0;
    proof {
        assert(paths@.dom() =~= salted_paths(texts(keys@).take(0), salt@));
    }
    while i < keys.len()
        invariant
            i <= keys@.len(),
            bare == (salt@.len() == 0),
            prefix@ == salt@ + "::"@,
            paths.wf(),
            paths@.dom() == salted_paths(texts(keys@).take(i as int), salt@),
        decreases keys@.len() - i,
    {
        let ghost seen = texts(keys@).take(i as int);
        let ghost now = texts(keys@).take(i + 1);
        let ghost held = paths@.dom();
        let ghost key = keys@[i as int]@;
        proof {
            assert(now =~= seen.push(key));
            assert forall|path: Seq<char>| #[trigger]
                now.contains(salted(salt@, path)) == (seen.contains(salted(salt@, path)) || key
                == salted(salt@, path)) by {
                let k = salted(salt@, path);
                if seen.contains(k) {
                    assert(now[seen.index_of(k)] == k);
                }
                if key == k {
                    assert(now[i as int] == k);
                }
            }
        }
        if bare {
            paths.insert(keys[i].clone(), ());
            assert(paths@.dom() =~= salted_paths(now, salt@));
        } else {
            match strip_prefix(keys[i].as_str(), prefix.as_str()) {
                Some(path) => {
                    proof {
                        assert(key =~= prefix@ + path@);
                        assert(key =~= salted(salt@, path@));
                        assert forall|other: Seq<char>| key == salted(salt@, other) implies other
                            == path@ by {
                            assert(other =~= salted(salt@, other).skip(prefix@.len() as int));
                        }
                    }
                    let ghost p = path@;
                    paths.insert(path, ());
                    assert(paths@.dom() =~= salted_paths(now, salt@)) by {
                        assert(paths@.dom() =~= held.insert(p));
                    }
                },
                None => {
                    proof {
                        assert forall|other: Seq<char>| key != salted(salt@, other) by {
                            let k = salted(salt@, other);
                            assert(k.take(prefix@.len() as int) =~= prefix@);
                            assert(has_prefix(k, prefix@));
                        }
                        assert(paths@.dom() =~= salted_paths(now, salt@));
                    }
                },
            }
        }
        i += 1;
    }
    assert(texts(keys@).take(i as int) =~= texts(keys@));
    paths
}

/// Every file that was entered under a salt is found under it, under its own path.
pub proof fn own_paths_are_found(keys: Seq<Seq<char>>, salt: Seq<char>, path: Seq<char>)
    requires
        keys.contains(salted(salt, path)),
    ensures
        salted_paths(keys, salt).contains(path),
{
}

/// Under a salt exactly those files are listed that have an entry under it. The key of
/// a file is its path where there is no salt; else it is the salt, two colons and the
/// path, and an entry without them says nothing under the salt.
pub proof fn a_salt_lists_its_own_files(keys: Seq<Seq<char>>, salt: Seq<char>, path: Seq<char>)
    ensures
        salted_paths(keys, salt).contains(path) <==> exists|i: int|
            0 <= i < keys.len() && #[trigger] keys[i] == (if salt.len() == 0 {
                path
            } else {
                salt + "::"@ + path
            }),
{
    let key = salted(salt, path);
    if keys.contains(key) {
        let i = keys.index_of(key);
        assert(keys[i] == key);
    }
}

/// The texts of stored keys, in their order.
pub open spec fn key_texts(keys: Seq<Vec<u8>>) -> Seq<Seq<char>> {
    Seq::new(keys.len(), |i: int| decode_utf8(keys[i]@))
}

/// The files that stored keys name; the first key that is not UTF-8 is an error.
pub fn list_files(keys: Vec<Vec<u8>>) -> (r: Result<Vec<String>, MetadataError>)
    ensures
        r is Ok <==> (forall|i: int| 0 <= i < keys@.len() ==> valid_utf8((#[trigger] keys@[i])@)),
        r matches Err(e) ==> e == MetadataError::KeyNotUtf8,
        r matches Ok(files) ==> texts(files@) == key_texts(keys@),
{
    let mut files: Vec<String> = Vec::new();
    let mut i: usize = 0;
    while i < keys.len()
        invariant
            i <= keys@.len(),
            files@.len() == i,
            forall|k: int| 0 <= k < i ==> valid_utf8((#[trigger] keys@[k])@),
            texts(files@) == key_texts(keys@).take(i as int),
        decreases keys@.len() - i,
    {
        let key: Vec<u8> = keys[i].clone();
        proof {
            assert(key@ =~= keys@[i as int]@);
        }
        match utf8_text(key) {
            Some(file) => {
                files.push(file);
                assert(texts(files@) =~= key_texts(keys@).take(i + 1));
            },
            None => {
                assert(!valid_utf8(keys@[i as int]@));
                return Err(MetadataError::KeyNotUtf8);
            },
        }
        i += 1;
    }
    assert(texts(files@) =~= key_texts(keys@));
    Ok(files)
}

/// A lock is held by another exactly where the message says that it could not be acquired.
pub proof fn a_held_lock_is_told_by_the_message(
    message: &str,
    left: Seq<char>,
    right: Seq<char>,
    r: bool,
)
    requires
        call_ensures(is_lock_contention, (message,), r),
    ensures
        message@ == left + "could not acquire lock"@ + right ==> r,
        r ==> exists|at: int|
            0 <= at <= message@.len() - "could not acquire lock"@.len()
                && #[trigger] message@.subrange(at, at + "could not acquire lock"@.len())
                == "could not acquire lock"@,
{
    let words = "could not acquire lock"@;
    if message@ == left + words + right {
        assert(message@.subrange(left.len() as int, (left.len() + words.len()) as int) =~= words);
        assert(occurs_at(message@, words, left.len() as int));
    }
    if r {
        let at = choose|at: int| occurs_at(message@, words, at);
        assert(message@.subrange(at, at + words.len()) == words);
    }
}

/// What is known of a file is the same after it was stored and read back.
pub proof fn what_is_stored_is_read_back(
    m: FileMetadata,
    bytes: Vec<u8>,
    stored: &[u8],
    r: Result<FileMetadata, MetadataError>,
)
    requires
        encode_utf8(m.hash@).len() <= u64::MAX,
        call_ensures(FileMetadata::encode, (&m,), Ok(bytes)),
        stored@ == bytes@,
        call_ensures(FileMetadata::decode, (stored,), r),
    ensures
        r is Ok,
        r->Ok_0.hash@ == m.hash@,
        r->Ok_0.last_modified == m.last_modified,
        r->Ok_0.size == m.size,
        r->Ok_0.indexed_at == m.indexed_at,
{
    let none = Seq::<u8>::empty();
    stored_entry_reads_back(m.hash@, m.last_modified, m.size, m.indexed_at, none);
    assert(bytes@ + none =~= bytes@);
}

/// A file whose content was indexed counts as unchanged exactly as long as the content has
/// the same digest, and a file that was never indexed as changed.
pub proof fn an_indexed_content_is_unchanged(
    content: &str,
    last_modified: u64,
    size: u64,
    indexed_at: u64,
    m: FileMetadata,
    later: &str,
    r: bool,
    never: bool,
)
    requires
        call_ensures(FileMetadata::from_content, (content, last_modified, size, indexed_at), m),
        call_ensures(has_changed, (Some(&m), later), r),
        call_ensures(has_changed, (None, later), never),
    ensures
        later@ == content@ ==> !r,
        r <==> sha256(encode_utf8(content@)) != sha256(encode_utf8(later@)),
        never,
        m.last_modified == last_modified && m.size == size && m.indexed_at == indexed_at,
{
    if content_hash(content@) == content_hash(later@) {
        hex_is_injective(sha256(encode_utf8(content@)), sha256(encode_utf8(later@)));
    }
}

} // verus!
