//! The storage backend, modelled explicitly: a flat collection of stored
//! objects, viewed in contracts as a map from keys to byte sequences.
//!
//! The model is the single source of truth for the service contracts; the
//! host mirrors every operation onto a directory. Every key is validated
//! against the traversal rules before any operation touches an entry, and
//! an internal invariant keeps all stored keys safe and distinct.

use vstd::prelude::*;
use crate::error::ServiceError;
use crate::keys::{safe_key, safe_char, MAX_KEY_LEN};

verus! {

/// One stored object: its key and its immutable bytes.
struct Entry {
    key: String,
    data: Vec<u8>,
}

/// The content store. `root_ready` records whether the storage root has
/// been ensured; no write succeeds before it has.
pub struct Store {
    root_ready: bool,
    entries: Vec<Entry>,
}

/// Whether two string views are equal, decided character by character.
pub fn str_eq(a: &str, b: &str) -> (r: bool)
    ensures
        r == (a@ == b@),
{
    let n = a.unicode_len();
    if n != b.unicode_len() {
        return false;
    }
    let mut i: usize = 0;
    while i < n
        invariant
            i <= n,
            n == a@.len() == b@.len(),
            forall|j: int| 0 <= j < i ==> a@[j] == b@[j],
        decreases n - i,
    {
        if a.get_char(i) != b.get_char(i) {
            return false;
        }
        i = i + 1;
    }
    proof {
        assert(a@ =~= b@);
    }
    true
}

/// Whether a string is a traversal-safe storage key, decided at run time;
/// the host uses this same check before touching any real path.
pub fn check_key(key: &str) -> (r: bool)
    ensures
        r == safe_key(key@),
{
    let n = key.unicode_len();
    if n == 0 || n > MAX_KEY_LEN {
        return false;
    }
    if key.get_char(0) == '.' {
        return false;
    }
    let mut i: usize = 0;
    while i < n
        invariant
            i <= n,
            n == key@.len(),
            forall|j: int| 0 <= j < i ==> safe_char(#[trigger] key@[j]),
        decreases n - i,
    {
        if !crate::keys::is_safe_char(key.get_char(i)) {
            return false;
        }
        i = i + 1;
    }
    true
}

impl Store {
    /// Internal invariant: stored keys are distinct and traversal-safe.
    pub closed spec fn inv(&self) -> bool {
        &&& (forall|i: int, j: int|
            0 <= i < j < self.entries@.len() ==> self.entries@[i].key@ != self.entries@[j].key@)
        &&& (forall|i: int|
            0 <= i < self.entries@.len() ==> safe_key(#[trigger] self.entries@[i].key@))
    }

    /// Whether the storage root has been ensured.
    pub closed spec fn root_ensured(&self) -> bool {
        self.root_ready
    }

    /// The store's contents: a map from each stored key to its bytes.
    pub closed spec fn contents(&self) -> Map<Seq<char>, Seq<u8>> {
        Map::new(
            |k: Seq<char>|
                exists|i: int| 0 <= i < self.entries@.len() && #[trigger] self.entries@[i].key@ == k,
            |k: Seq<char>|
                {
                    let i = choose|i: int|
                        0 <= i < self.entries@.len() && #[trigger] self.entries@[i].key@ == k;
                    self.entries@[i].data@
                },
        )
    }

    /// The entry at a valid index is in the contents, under its own key.
    proof fn lemma_entry_at(&self, i: int)
        requires
            self.inv(),
            0 <= i < self.entries@.len(),
        ensures
            self.contents().contains_key(self.entries@[i].key@),
            self.contents()[self.entries@[i].key@] == self.entries@[i].data@,
    {
        let k = self.entries@[i].key@;
        let j = choose|j: int| 0 <= j < self.entries@.len() && #[trigger] self.entries@[j].key@ == k;
        assert(j == i);
    }

    /// Every stored key is traversal-safe.
    pub proof fn lemma_contents_safe(&self)
        requires
            self.inv(),
        ensures
            forall|k: Seq<char>| #[trigger] self.contents().contains_key(k) ==> safe_key(k),
    {
    }

    /// A fresh, empty store whose root is not yet ensured.
    pub fn new() -> (s: Store)
        ensures
            s.inv(),
            s.contents() == Map::<Seq<char>, Seq<u8>>::empty(),
            !s.root_ensured(),
    {
        let s = Store { root_ready: false, entries: Vec::new() };
        proof {
            assert(s.contents() =~= Map::<Seq<char>, Seq<u8>>::empty());
        }
        s
    }

    /// Create the storage root if absent. Idempotent: the contents are
    /// untouched, and afterwards the root is ensured.
    pub fn ensure_root(&mut self)
        requires
            old(self).inv(),
        ensures
            final (self).inv(),
            final (self).root_ensured(),
            final (self).contents() == old(self).contents(),
    {
        self.root_ready = true;
    }

    /// The index holding the key, if any.
    fn find_index(&self, key: &str) -> (r: Option<usize>)
        requires
            self.inv(),
        ensures
            r matches Some(i) ==> i < self.entries@.len() && self.entries@[i as int].key@ == key@,
            r is None ==> !self.contents().contains_key(key@),
    {
        let n = self.entries.len();
        let mut i: usize = 0;
        while i < n
            invariant
                i <= n,
                n == self.entries@.len(),
                forall|j: int| 0 <= j < i ==> self.entries@[j].key@ != key@,
            decreases n - i,
        {
            if str_eq(self.entries[i].key.as_str(), key) {
                return Some(i);
            }
            i = i + 1;
        }
        None
    }

    /// Write bytes at a key, creating or overwriting the object. Succeeds
    /// exactly when the root has been ensured and the key passes the
    /// traversal rules; any failure leaves the store unchanged and nothing
    /// partially written.
    pub fn write(&mut self, key: String, data: Vec<u8>) -> (r: Result<(), ServiceError>)
        requires
            old(self).inv(),
        ensures
            final (self).inv(),
            final (self).root_ensured() == old(self).root_ensured(),
            r is Ok <==> (old(self).root_ensured() && safe_key(key@)),
            r is Ok ==> final (self).contents() == old(self).contents().insert(key@, data@),
            r matches Err(e) ==> e is StorageFailure && *final (self) == *old(self),
    {
        if !self.root_ready || !check_key(key.as_str()) {
            return Err(ServiceError::StorageFailure);
        }
        let ghost pre = *self;
        match self.find_index(key.as_str()) {
            Some(i) => {
                let ghost k = key@;
                self.entries[i].data = data;
                proof {
                    assert forall|x: int, y: int|
                        0 <= x < y < self.entries@.len() implies self.entries@[x].key@
                        != self.entries@[y].key@ by {
                        assert(pre.entries@[x].key@ != pre.entries@[y].key@);
                    }
                    assert forall|x: int|
                        0 <= x < self.entries@.len() implies safe_key(
                        #[trigger] self.entries@[x].key@,
                    ) by {
                        assert(safe_key(pre.entries@[x].key@));
                    }
                    assert(self.contents() =~= pre.contents().insert(k, data@)) by {
                        assert forall|q: Seq<char>|
                            self.contents().contains_key(q) == pre.contents().insert(
                                k,
                                data@,
                            ).contains_key(q) by {
                            if q == k {
                                assert(self.entries@[i as int].key@ == q);
                            } else {
                                assert forall|j: int|
                                    0 <= j < self.entries@.len() && self.entries@[j].key@
                                        == q implies pre.contents().contains_key(q) by {
                                    assert(pre.entries@[j].key@ == q);
                                }
                                assert forall|j: int|
                                    0 <= j < pre.entries@.len() && pre.entries@[j].key@
                                        == q implies self.contents().contains_key(q) by {
                                    assert(self.entries@[j].key@ == q);
                                }
                            }
                        }
                        assert forall|q: Seq<char>|
                            self.contents().contains_key(q) implies self.contents()[q]
                            == pre.contents().insert(k, data@)[q] by {
                            let j = choose|j: int|
                                0 <= j < self.entries@.len() && #[trigger] self.entries@[j].key@
                                    == q;
                            if q == k {
                                assert(j == i);
                            } else {
                                assert(j != i);
                                pre.lemma_entry_at(j);
                            }
                        }
                    }
                }
                Ok(())
            },
            None => {
                let ghost k = key@;
                self.entries.push(Entry { key, data });
                proof {
                    let n = pre.entries@.len() as int;
                    assert forall|x: int, y: int|
                        0 <= x < y < self.entries@.len() implies self.entries@[x].key@
                        != self.entries@[y].key@ by {
                        if y < n {
                            assert(pre.entries@[x].key@ != pre.entries@[y].key@);
                        } else {
                            pre.lemma_entry_at(x);
                        }
                    }
                    assert(self.contents() =~= pre.contents().insert(k, data@)) by {
                        assert forall|q: Seq<char>|
                            self.contents().contains_key(q) == pre.contents().insert(
                                k,
                                data@,
                            ).contains_key(q) by {
                            if q == k {
                                assert(self.entries@[n].key@ == q);
                            } else {
                                assert forall|j: int|
                                    0 <= j < self.entries@.len() && self.entries@[j].key@
                                        == q implies pre.contents().contains_key(q) by {
                                    assert(j < n);
                                    assert(pre.entries@[j].key@ == q);
                                }
                                assert forall|j: int|
                                    0 <= j < pre.entries@.len() && pre.entries@[j].key@
                                        == q implies self.contents().contains_key(q) by {
                                    assert(self.entries@[j].key@ == q);
                                }
                            }
                        }
                        assert forall|q: Seq<char>|
                            self.contents().contains_key(q) implies self.contents()[q]
                            == pre.contents().insert(k, data@)[q] by {
                            let j = choose|j: int|
                                0 <= j < self.entries@.len() && #[trigger] self.entries@[j].key@
                                    == q;
                            if q == k {
                                assert(j == n);
                            } else {
                                assert(j < n);
                                pre.lemma_entry_at(j);
                            }
                        }
                    }
                }
                Ok(())
            },
        }
    }

    /// Resolve a key to its bytes. Succeeds exactly when the key is stored;
    /// a key that fails the traversal rules is never stored, so it reads
    /// nothing and reports `NotFound`.
    pub fn open(&self, key: &str) -> (r: Result<&Vec<u8>, ServiceError>)
        requires
            self.inv(),
        ensures
            r is Ok <==> self.contents().contains_key(key@),
            r matches Ok(d) ==> d@ == self.contents()[key@],
            r matches Err(e) ==> e is NotFound,
    {
        if !check_key(key) {
            return Err(ServiceError::NotFound);
        }
        match self.find_index(key) {
            Some(i) => {
                proof {
                    self.lemma_entry_at(i as int);
                }
                Ok(&self.entries[i].data)
            },
            None => Err(ServiceError::NotFound),
        }
    }

    /// The keys currently present, in no guaranteed order and without
    /// duplicates: exactly the domain of the contents.
    pub fn list(&self) -> (r: Vec<String>)
        requires
            self.inv(),
        ensures
            forall|i: int|
                0 <= i < r@.len() ==> self.contents().contains_key(#[trigger] r@[i]@),
            forall|k: Seq<char>| #[trigger]
                self.contents().contains_key(k) ==> exists|i: int| 0 <= i < r@.len() && r@[i]@ == k,
            forall|i: int, j: int| 0 <= i < j < r@.len() ==> r@[i]@ != r@[j]@,
    {
        let n = self.entries.len();
        let mut r: Vec<String> = Vec::new();
        let mut i: usize = 0;
        while i < n
            invariant
                self.inv(),
                i <= n,
                n == self.entries@.len(),
                r@.len() == i,
                forall|j: int| 0 <= j < i ==> r@[j]@ == self.entries@[j].key@,
            decreases n - i,
        {
            r.push(self.entries[i].key.clone());
            i = i + 1;
        }
        proof {
            assert forall|j: int|
                0 <= j < r@.len() implies self.contents().contains_key(#[trigger] r@[j]@) by {
                self.lemma_entry_at(j);
            }
            assert forall|k: Seq<char>| #[trigger]
                self.contents().contains_key(k) implies exists|j: int|
                0 <= j < r@.len() && r@[j]@ == k by {
                let j = choose|j: int|
                    0 <= j < self.entries@.len() && #[trigger] self.entries@[j].key@ == k;
                assert(r@[j]@ == k);
            }
        }
        r
    }

    /// Delete the object at a key. Succeeds exactly when the key was
    /// stored; deleting an absent key reports `NotFound` and changes
    /// nothing, so a second delete of the same key is a clean `NotFound`.
    pub fn remove(&mut self, key: &str) -> (r: Result<(), ServiceError>)
        requires
            old(self).inv(),
        ensures
            final (self).inv(),
            final (self).root_ensured() == old(self).root_ensured(),
            r is Ok <==> old(self).contents().contains_key(key@),
            r is Ok ==> final (self).contents() == old(self).contents().remove(key@),
            r matches Err(e) ==> e is NotFound && *final (self) == *old(self),
    {
        if !check_key(key) {
            proof {
                old(self).lemma_contents_safe();
            }
            return Err(ServiceError::NotFound);
        }
        let ghost pre = *self;
        match self.find_index(key) {
            Some(i) => {
                proof {
                    pre.lemma_entry_at(i as int);
                }
                self.entries.remove(i);
                proof {
                    let k = key@;
                    let n = pre.entries@.len() as int;
                    assert forall|x: int, y: int|
                        0 <= x < y < self.entries@.len() implies self.entries@[x].key@
                        != self.entries@[y].key@ by {
                        let px: int = if x < i { x } else { x + 1 };
                        let py: int = if y < i { y } else { y + 1 };
                        assert(pre.entries@[px].key@ != pre.entries@[py].key@);
                    }
                    assert forall|x: int|
                        0 <= x < self.entries@.len() implies safe_key(
                        #[trigger] self.entries@[x].key@,
                    ) by {
                        let px: int = if x < i { x } else { x + 1 };
                        assert(safe_key(pre.entries@[px].key@));
                    }
                    assert(self.contents() =~= pre.contents().remove(k)) by {
                        assert forall|q: Seq<char>|
                            self.contents().contains_key(q) == pre.contents().remove(
                                k,
                            ).contains_key(q) by {
                            assert forall|j: int|
                                0 <= j < self.entries@.len() && self.entries@[j].key@
                                    == q implies pre.contents().contains_key(q) && q != k by {
                                let pj: int = if j < i { j } else { j + 1 };
                                assert(pre.entries@[pj].key@ == q);
                                assert(pre.entries@[i as int].key@ == k);
                            }
                            if q != k {
                                assert forall|j: int|
                                    0 <= j < pre.entries@.len() && pre.entries@[j].key@
                                        == q implies self.contents().contains_key(q) by {
                                    assert(j != i);
                                    let nj: int = if j < i { j } else { j - 1 };
                                    assert(self.entries@[nj].key@ == q);
                                }
                            }
                        }
                        assert forall|q: Seq<char>|
                            self.contents().contains_key(q) implies self.contents()[q]
                            == pre.contents().remove(k)[q] by {
                            let j = choose|j: int|
                                0 <= j < self.entries@.len() && #[trigger] self.entries@[j].key@
                                    == q;
                            let pj: int = if j < i { j } else { j + 1 };
                            assert(pre.entries@[pj].key@ == q);
                            pre.lemma_entry_at(pj);
                            assert(self.contents()[q] == self.entries@[j].data@);
                        }
                    }
                }
                Ok(())
            },
            None => Err(ServiceError::NotFound),
        }
    }
}

} // verus!
