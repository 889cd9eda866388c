//! The service-wide laws, proved over the same spec functions and views
//! that the services' own contracts are stated with.

use vstd::prelude::*;
use crate::ingest::key_for_name;
use crate::keys::{clean_name, hex_lower, sanitized_of, uuid_like, UUID_LEN};
use crate::media::{
    last_dot, lemma_last_dot_at, lemma_last_dot_props, spec_content_type, spec_extension,
};

verus! {

/// An accepted upload's key resolves at once: after the ingest's insert,
/// retrieval finds exactly the uploaded bytes under the returned key, and —
/// whenever the cleaned filename ends in a `jpg` or `jpeg` extension — the
/// served content type is `image/jpeg`.
pub proof fn lemma_accepted_upload_resolves(
    m: Map<Seq<char>, Seq<u8>>,
    k: Seq<char>,
    name: Seq<char>,
    d: Seq<u8>,
)
    requires
        key_for_name(k, name),
        spec_extension(clean_name(sanitized_of(name))) == Some("jpg"@) || spec_extension(
            clean_name(sanitized_of(name)),
        ) == Some("jpeg"@),
    ensures
        m.insert(k, d).contains_key(k),
        m.insert(k, d)[k] == d,
        spec_content_type(k) == "image/jpeg"@,
{
    let t = clean_name(sanitized_of(name));
    lemma_last_dot_props(t);
    let j = last_dot(t);
    assert(t[j] == '.');
    assert(k[UUID_LEN + 1 + j] == '.') by {
        assert(k.subrange(UUID_LEN + 1, k.len() as int)[j] == t[j]);
    }
    assert forall|i: int| UUID_LEN + 1 + j < i < k.len() implies k[i] != '.' by {
        assert(k.subrange(UUID_LEN + 1, k.len() as int)[i - (UUID_LEN + 1)] == k[i]);
    }
    lemma_last_dot_at(k, UUID_LEN + 1 + j);
    assert(k.subrange(UUID_LEN + 1 + j + 1, k.len() as int) =~= t.subrange(
        j + 1,
        t.len() as int,
    )) by {
        assert forall|i: int| 0 <= i < k.len() - (UUID_LEN + 1 + j + 1) implies #[trigger] k.subrange(
            UUID_LEN + 1 + j + 1,
            k.len() as int,
        )[i] == t.subrange(j + 1, t.len() as int)[i] by {
            assert(k.subrange(UUID_LEN + 1, k.len() as int)[j + 1 + i] == t[j + 1 + i]);
        }
    }
}

/// Distinct keys do not mix: writing two objects under two different keys
/// leaves each key resolving to its own bytes.
pub proof fn lemma_distinct_keys_do_not_mix(
    m: Map<Seq<char>, Seq<u8>>,
    k1: Seq<char>,
    d1: Seq<u8>,
    k2: Seq<char>,
    d2: Seq<u8>,
)
    requires
        k1 != k2,
    ensures
        m.insert(k1, d1).insert(k2, d2).contains_key(k1),
        m.insert(k1, d1).insert(k2, d2).contains_key(k2),
        m.insert(k1, d1).insert(k2, d2)[k1] == d1,
        m.insert(k1, d1).insert(k2, d2)[k2] == d2,
{
}

/// A deleted key disappears everywhere at once: it is no longer in the
/// contents, so retrieval reports it absent and the next listing — whose
/// keys are exactly the contents' domain — no longer carries it.
pub proof fn lemma_deleted_key_gone(m: Map<Seq<char>, Seq<u8>>, k: Seq<char>)
    ensures
        !m.remove(k).contains_key(k),
        forall|q: Seq<char>| q != k ==> m.remove(k).contains_key(q) == m.contains_key(q),
{
}

/// Deletion is idempotent from the caller's side: after a successful
/// delete the key is gone, so a second delete of the same key finds
/// nothing — it reports absence — and changes nothing.
pub proof fn lemma_delete_idempotent(m: Map<Seq<char>, Seq<u8>>, k: Seq<char>)
    ensures
        !m.remove(k).contains_key(k),
        m.remove(k).remove(k) == m.remove(k),
{
    assert(m.remove(k).remove(k) =~= m.remove(k));
}

/// The random component of an allocated key never hides a dot or a path
/// separator: every character of a UUID-shaped prefix is a hex digit or a
/// hyphen.
pub proof fn lemma_uuid_prefix_clean(u: Seq<char>)
    requires
        uuid_like(u),
    ensures
        forall|i: int| 0 <= i < u.len() ==> #[trigger] u[i] != '.' && u[i] != '/' && u[i] != '\\',
{
    assert forall|i: int| 0 <= i < u.len() implies #[trigger] u[i] != '.' && u[i] != '/' && u[i]
        != '\\' by {
        assert(hex_lower(u[i]) || u[i] == '-');
    }
}

} // verus!
