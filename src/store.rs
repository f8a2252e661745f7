use vstd::prelude::*;
use crate::error::{ErrorKind, SigniaError};
use crate::hashing::{hash_bytes_hex, hex_of, sha256_of};
use crate::strs::str_eq;

verus! {

/// A content-addressed object store held in memory: each object is kept
/// under the hex SHA-256 of its bytes, once.
#[derive(Debug)]
pub struct MemStore {
    pub objects: Vec<(String, Vec<u8>)>,
}

/// Ids are the hashes of their bytes, and each id appears once.
pub open spec fn store_ok(s: MemStore) -> bool {
    (forall|i: int| 0 <= i < s.objects@.len() ==> (#[trigger] s.objects@[i]).0@ == hex_of(sha256_of(s.objects@[i].1@)))
        && (forall|i: int, j: int| 0 <= i < j < s.objects@.len() ==> (#[trigger] s.objects@[i]).0@ != (#[trigger] s.objects@[j]).0@)
}

/// The bytes stored under `id`.
pub open spec fn stored(s: MemStore, id: Seq<char>) -> Option<Seq<u8>> {
    if exists|i: int| 0 <= i < s.objects@.len() && (#[trigger] s.objects@[i]).0@ == id {
        Some(s.objects@[choose|i: int| 0 <= i < s.objects@.len() && (#[trigger] s.objects@[i]).0@ == id].1@)
    } else {
        None
    }
}

impl MemStore {
    pub fn new() -> (r: Self)
        ensures
            store_ok(r),
            r.objects@.len() == 0,
    {
        MemStore { objects: Vec::new() }
    }

    fn find(&self, id: &str) -> (r: Option<usize>)
        ensures
            r is Some ==> r->0 < self.objects@.len() && self.objects@[r->0 as int].0@ == id@,
            r is None ==> forall|i: int| 0 <= i < self.objects@.len() ==> (#[trigger] self.objects@[i]).0@ != id@,
    {
        let mut i: usize = 0;
        while i < self.objects.len()
            invariant
                i <= self.objects@.len(),
                forall|q: int| 0 <= q < i ==> (#[trigger] self.objects@[q]).0@ != id@,
            decreases self.objects@.len() - i,
        {
            if str_eq(self.objects[i].0.as_str(), id) {
                return Some(i);
            }
            i = i + 1;
        }
        None
    }

    /// Stores the bytes and returns their id, the hex SHA-256 of the bytes.
    /// When the id is already present nothing changes: the store relies on
    /// an id collision meaning identical bytes.
    pub fn put_bytes(&mut self, bytes: Vec<u8>) -> (id: String)
        requires
            store_ok(*old(self)),
        ensures
            store_ok(*final(self)),
            id@ == hex_of(sha256_of(bytes@)),
            stored(*final(self), id@) is Some,
            hex_of(sha256_of(stored(*final(self), id@)->0)) == id@,
            stored(*old(self), id@) is None ==> stored(*final(self), id@) == Some(bytes@),
            forall|k: Seq<char>| stored(*old(self), k) is Some ==> #[trigger] stored(*final(self), k) == stored(*old(self), k),
    {
        let id = hash_bytes_hex(bytes.as_slice());
        match self.find(id.as_str()) {
            Some(i) => {
                proof {
                    let o = self.objects@;
                    assert(o[i as int].0@ == hex_of(sha256_of(o[i as int].1@)));
                    let c = choose|q: int| 0 <= q < o.len() && (#[trigger] o[q]).0@ == id@;
                    if c != i {
                        if c < i {
                            assert(o[c].0@ != o[i as int].0@);
                        } else {
                            assert(o[i as int].0@ != o[c].0@);
                        }
                    }
                    assert(stored(*self, id@) == Some(o[i as int].1@));
                }
                id
            },
            None => {
                let ghost o0 = self.objects@;
                self.objects.push((id.clone(), bytes));
                proof {
                    let o = self.objects@;
                    assert(o[o0.len() as int].0@ == id@);
                    assert forall|k: Seq<char>| stored(*old(self), k) is Some implies #[trigger] stored(*self, k) == stored(*old(self), k) by {
                        let c0 = choose|q: int| 0 <= q < o0.len() && (#[trigger] o0[q]).0@ == k;
                        assert(o[c0] == o0[c0]);
                        let c = choose|q: int| 0 <= q < o.len() && (#[trigger] o[q]).0@ == k;
                        if c != c0 {
                            if c == o0.len() {
                                assert(o0[c0].0@ != id@);
                            } else if c < c0 {
                                assert(o0[c].0@ != o0[c0].0@);
                            } else {
                                assert(o0[c0].0@ != o0[c].0@);
                            }
                        }
                    }
                    let c = choose|q: int| 0 <= q < o.len() && (#[trigger] o[q]).0@ == id@;
                    if c != o0.len() {
                        assert(o0[c].0@ != id@);
                    }
                }
                id
            },
        }
    }

    /// The bytes stored under `id`; `NotFound` when there are none.
    pub fn get_bytes(&self, id: &str) -> (r: Result<Vec<u8>, SigniaError>)
        requires
            store_ok(*self),
        ensures
            r is Ok <==> stored(*self, id@) is Some,
            r is Ok ==> r->Ok_0@ == stored(*self, id@)->0,
            r is Err ==> r->Err_0.kind == ErrorKind::NotFound,
    {
        match self.find(id) {
            Some(i) => {
                proof {
                    let o = self.objects@;
                    let c = choose|q: int| 0 <= q < o.len() && (#[trigger] o[q]).0@ == id@;
                    if c != i {
                        if c < i {
                            assert(o[c].0@ != o[i as int].0@);
                        } else {
                            assert(o[i as int].0@ != o[c].0@);
                        }
                    }
                }
                let mut out: Vec<u8> = Vec::new();
                crate::hashing::extend(&mut out, self.objects[i].1.as_slice());
                Ok(out)
            },
            None => Err(SigniaError::with_detail(ErrorKind::NotFound, "object not found: ", id)),
        }
    }
}

} // verus!
