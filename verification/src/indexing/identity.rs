//! The identities under which what is indexed is kept apart.

use vstd::prelude::*;

use crate::digest::{hex_digest, hex_of, sha256};
use crate::embeddings::backend::{
    identity_has_no_colon, identity_is_injective, identity_of, BackendView, EmbeddingBackend,
};
use crate::metadata_cache::{salted, salted_paths};
use vstd::utf8::encode_utf8;

verus! {

/// The salt of the keys of a metadata cache.
pub open spec fn cache_salt(backend: BackendView, chunking: Seq<char>) -> Seq<char> {
    "embedder"@ + identity_of(backend) + ":chunking"@ + chunking
}

/// The salt of the keys of a metadata cache. One cache serves all embedders of a
/// directory, so the salt holds the embedder and not only the chunking.
pub fn metadata_cache_salt(backend: &EmbeddingBackend, chunking_identity: &str) -> (salt: String)
    ensures
        salt@ == cache_salt(backend@, chunking_identity@),
{
    let mut salt = "embedder".to_owned();
    salt.append(backend.identity().as_str());
    salt.append(":chunking");
    salt.append(chunking_identity);
    salt
}

/// The identity of everything that depends on the embedder of a codebase.
pub open spec fn index_identity(path: Seq<char>, backend: BackendView, chunking: Seq<char>) -> Seq<
    char,
> {
    "index:v1:path"@ + path + ":embedder"@ + identity_of(backend) + ":chunking"@ + chunking
}

/// The identity of everything that depends on the embedder of a codebase, by its
/// canonical path.
pub fn indexing_identity(
    canonical_path: &str,
    backend: &EmbeddingBackend,
    chunking_identity: &str,
) -> (identity: String)
    ensures
        identity@ == index_identity(canonical_path@, backend@, chunking_identity@),
{
    let mut identity = "index:v1:path".to_owned();
    identity.append(canonical_path);
    identity.append(":embedder");
    identity.append(backend.identity().as_str());
    identity.append(":chunking");
    identity.append(chunking_identity);
    identity
}

/// The SHA-256 digest of an identity, in hexadecimal notation.
pub fn identity_hash(identity: &str) -> (hash: String)
    ensures
        hash@ == hex_of(sha256(encode_utf8(identity@))),
        hash@.len() == 64,
{
    hex_digest(identity.as_bytes())
}

proof fn split_at_colon(
    head: Seq<char>,
    a: Seq<char>,
    b: Seq<char>,
    rest_a: Seq<char>,
    rest_b: Seq<char>,
)
    requires
        !a.contains(':'),
        !b.contains(':'),
        rest_a.len() > 0 && rest_a[0] == ':',
        rest_b.len() > 0 && rest_b[0] == ':',
        (head + a + rest_a).is_prefix_of(head + b + rest_b) || head + a + rest_a == head + b
            + rest_b,
    ensures
        a == b,
{
    let s = head + a + rest_a;
    let t = head + b + rest_b;
    let n = head.len() as int;
    assert(s[n + a.len()] == rest_a[0]);
    assert(t[n + b.len()] == rest_b[0]);
    assert forall|i: int| 0 <= i < s.len() implies s[i] == t[i] by {
        if s.is_prefix_of(t) {
            assert(t.subrange(0, s.len() as int)[i] == t[i]);
        }
    }
    if a.len() < b.len() {
        assert(t[n + a.len()] == b[a.len() as int]);
        assert(b.contains(b[a.len() as int]));
    }
    if b.len() < a.len() {
        assert(s[n + b.len()] == a[b.len() as int]);
        assert(a.contains(a[b.len() as int]));
    }
    assert forall|i: int| 0 <= i < a.len() implies a[i] == b[i] by {
        assert(s[n + i] == a[i] && t[n + i] == b[i]);
    }
    assert(a =~= b);
}

/// The salt keeps embedders and chunkings apart: equal salts are of the same
/// embedder and the same chunking.
pub proof fn cache_salt_is_injective(
    a: BackendView,
    chunking_a: Seq<char>,
    b: BackendView,
    chunking_b: Seq<char>,
)
    requires
        cache_salt(a, chunking_a) == cache_salt(b, chunking_b),
    ensures
        a == b,
        chunking_a == chunking_b,
{
    let rest_a = ":chunking"@ + chunking_a;
    let rest_b = ":chunking"@ + chunking_b;
    reveal_strlit(":chunking");
    assert(rest_a[0] == ':' && rest_b[0] == ':');
    identity_has_no_colon(a);
    identity_has_no_colon(b);
    assert(cache_salt(a, chunking_a) =~= "embedder"@ + identity_of(a) + rest_a);
    assert(cache_salt(b, chunking_b) =~= "embedder"@ + identity_of(b) + rest_b);
    split_at_colon("embedder"@, identity_of(a), identity_of(b), rest_a, rest_b);
    identity_is_injective(a, b);
    let n = "embedder"@.len() + identity_of(a).len() + ":chunking"@.len();
    assert(cache_salt(a, chunking_a).skip(n as int) =~= chunking_a);
    assert(cache_salt(b, chunking_b).skip(n as int) =~= chunking_b);
}

/// What one embedder has entered never shows under another: an entry of `b`, for
/// whatever file, is no entry of `a`, even under the same chunking.
pub proof fn embedders_do_not_see_each_other(
    a: BackendView,
    chunking_a: Seq<char>,
    b: BackendView,
    chunking_b: Seq<char>,
    path: Seq<char>,
    other_path: Seq<char>,
)
    requires
        a != b,
    ensures
        salted(cache_salt(b, chunking_b), path) != salted(cache_salt(a, chunking_a), other_path),
{
    let key_a = salted(cache_salt(a, chunking_a), other_path);
    let key_b = salted(cache_salt(b, chunking_b), path);
    reveal_strlit("embedder");
    reveal_strlit(":chunking");
    if key_a == key_b {
        let rest_a = ":chunking"@ + chunking_a + "::"@ + other_path;
        let rest_b = ":chunking"@ + chunking_b + "::"@ + path;
        assert(rest_a[0] == ':' && rest_b[0] == ':');
        identity_has_no_colon(a);
        identity_has_no_colon(b);
        assert(key_a =~= "embedder"@ + identity_of(a) + rest_a);
        assert(key_b =~= "embedder"@ + identity_of(b) + rest_b);
        split_at_colon("embedder"@, identity_of(a), identity_of(b), rest_a, rest_b);
        identity_is_injective(a, b);
    }
}

/// So where a cache holds only what `b` has entered, nothing counts as done for `a`.
pub proof fn another_embedder_has_done_nothing(
    keys: Seq<Seq<char>>,
    a: BackendView,
    chunking_a: Seq<char>,
    b: BackendView,
    chunking_b: Seq<char>,
    paths: Seq<Seq<char>>,
)
    requires
        a != b,
        keys.len() == paths.len(),
        forall|i: int|
            0 <= i < keys.len() ==> #[trigger] keys[i] == salted(
                cache_salt(b, chunking_b),
                paths[i],
            ),
    ensures
        salted_paths(keys, cache_salt(a, chunking_a)) == Set::<Seq<char>>::empty(),
{
    assert forall|path: Seq<char>| !salted_paths(keys, cache_salt(a, chunking_a)).contains(path) by {
        let k = salted(cache_salt(a, chunking_a), path);
        if keys.contains(k) {
            let i = keys.index_of(k);
            embedders_do_not_see_each_other(a, chunking_a, b, chunking_b, paths[i], path);
        }
    }
    assert(salted_paths(keys, cache_salt(a, chunking_a)) =~= Set::<Seq<char>>::empty());
}

/// For one codebase the identity keeps embedders and chunkings apart.
pub proof fn index_identity_is_injective(
    path: Seq<char>,
    a: BackendView,
    chunking_a: Seq<char>,
    b: BackendView,
    chunking_b: Seq<char>,
)
    requires
        index_identity(path, a, chunking_a) == index_identity(path, b, chunking_b),
    ensures
        a == b,
        chunking_a == chunking_b,
{
    let head = "index:v1:path"@ + path + ":embedder"@;
    let rest_a = ":chunking"@ + chunking_a;
    let rest_b = ":chunking"@ + chunking_b;
    reveal_strlit(":chunking");
    assert(rest_a[0] == ':' && rest_b[0] == ':');
    identity_has_no_colon(a);
    identity_has_no_colon(b);
    let s = index_identity(path, a, chunking_a);
    let t = index_identity(path, b, chunking_b);
    assert(s =~= head + identity_of(a) + rest_a);
    assert(t =~= head + identity_of(b) + rest_b);
    split_at_colon(head, identity_of(a), identity_of(b), rest_a, rest_b);
    identity_is_injective(a, b);
    let n = head.len() + identity_of(a).len() + ":chunking"@.len();
    assert(s.skip(n as int) =~= chunking_a);
    assert(t.skip(n as int) =~= chunking_b);
}

} // verus!
