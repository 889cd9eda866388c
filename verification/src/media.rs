//! The retrieval service: resolve a storage key to its bytes and to a
//! content type chosen from a fixed extension table.
//!
//! The table maps `jpg`/`jpeg` to `image/jpeg`, `png` to `image/png`,
//! `gif` to `image/gif`, and everything else (including keys without an
//! extension) to `application/octet-stream`.

use vstd::prelude::*;
use crate::error::ServiceError;
use crate::store::Store;

verus! {

/// Index of the last dot of the sequence, or -1 when it holds none.
pub open spec fn last_dot(s: Seq<char>) -> int
    decreases s.len(),
{
    if s.len() == 0 {
        -1
    } else if s.last() == '.' {
        s.len() - 1
    } else {
        last_dot(s.drop_last())
    }
}

/// The key's extension: what follows its last dot, or nothing.
pub open spec fn spec_extension(s: Seq<char>) -> Option<Seq<char>> {
    if last_dot(s) >= 0 {
        Some(s.subrange(last_dot(s) + 1, s.len() as int))
    } else {
        None
    }
}

/// The content type served for a key, from the fixed extension table.
pub open spec fn spec_content_type(key: Seq<char>) -> Seq<char> {
    match spec_extension(key) {
        Some(ext) => if ext == "jpg"@ || ext == "jpeg"@ {
            "image/jpeg"@
        } else if ext == "png"@ {
            "image/png"@
        } else if ext == "gif"@ {
            "image/gif"@
        } else {
            "application/octet-stream"@
        },
        None => "application/octet-stream"@,
    }
}

/// The last dot is the dot that no later index holds one after.
pub proof fn lemma_last_dot_at(s: Seq<char>, j: int)
    requires
        -1 <= j < s.len(),
        j >= 0 ==> s[j] == '.',
        forall|k: int| j < k < s.len() ==> s[k] != '.',
    ensures
        last_dot(s) == j,
    decreases s.len(),
{
    if s.len() > 0 && s.last() != '.' {
        lemma_last_dot_at(s.drop_last(), j);
    }
}

/// What the last dot's index means: it is in range, holds a dot, and no
/// later index holds one.
pub proof fn lemma_last_dot_props(s: Seq<char>)
    ensures
        -1 <= last_dot(s) < s.len(),
        last_dot(s) >= 0 ==> s[last_dot(s)] == '.',
        forall|k: int| last_dot(s) < k < s.len() ==> s[k] != '.',
    decreases s.len(),
{
    if s.len() > 0 && s.last() != '.' {
        lemma_last_dot_props(s.drop_last());
        assert forall|k: int| last_dot(s) < k < s.len() implies s[k] != '.' by {
            if k < s.len() - 1 {
                assert(s.drop_last()[k] == s[k]);
            }
        }
    }
}

/// Index of the last dot of the string, if any.
fn find_last_dot(s: &str) -> (r: Option<usize>)
    ensures
        r matches Some(i) ==> i < s@.len() && last_dot(s@) == i,
        r is None ==> last_dot(s@) == -1,
{
    let n = s.unicode_len();
    let mut i: usize = n;
    while i > 0
        invariant
            i <= n,
            n == s@.len(),
            forall|k: int| i <= k < n ==> s@[k] != '.',
        decreases i,
    {
        i = i - 1;
        if s.get_char(i) == '.' {
            proof {
                lemma_last_dot_at(s@, i as int);
            }
            return Some(i);
        }
    }
    proof {
        lemma_last_dot_at(s@, -1);
    }
    None
}

/// The content type for a key, per the fixed extension table.
pub fn content_type_for(key: &str) -> (r: &'static str)
    ensures
        r@ == spec_content_type(key@),
{
    let n = key.unicode_len();
    match find_last_dot(key) {
        None => "application/octet-stream",
        Some(i) => {
            let ext = key.substring_char(i + 1, n);
            if crate::store::str_eq(ext, "jpg") || crate::store::str_eq(ext, "jpeg") {
                "image/jpeg"
            } else if crate::store::str_eq(ext, "png") {
                "image/png"
            } else if crate::store::str_eq(ext, "gif") {
                "image/gif"
            } else {
                "application/octet-stream"
            }
        },
    }
}

/// A resolved object: its bytes and the content type they are served with.
#[derive(Debug)]
pub struct Retrieved<'a> {
    pub data: &'a Vec<u8>,
    pub content_type: &'static str,
}

/// Resolve a key to its bytes and content type. Succeeds exactly when the
/// key is stored; the key is re-validated against the traversal rules
/// before the store is touched, and an absent key reports `NotFound`.
pub fn retrieve<'a>(store: &'a Store, key: &str) -> (r: Result<Retrieved<'a>, ServiceError>)
    requires
        store.inv(),
    ensures
        r is Ok <==> store.contents().contains_key(key@),
        r matches Ok(g) ==> g.data@ == store.contents()[key@] && g.content_type@
            == spec_content_type(key@),
        r matches Err(e) ==> e is NotFound,
{
    match store.open(key) {
        Ok(data) => Ok(Retrieved { data, content_type: content_type_for(key) }),
        Err(_) => Err(ServiceError::NotFound),
    }
}

} // verus!
