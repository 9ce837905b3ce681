use vstd::prelude::*;

verus! {

/// Why a completion was refused.
#[derive(Debug, Clone, Copy, PartialEq, Eq, Structural)]
pub enum ProtocolViolation {
    /// The id was never issued, or its request was already resolved.
    UnknownId,
}

/// What resolving `id` does to the set of outstanding ids: the new set, and
/// whether the id was outstanding.
pub open spec fn resolve_step(pending: Set<u64>, id: u64) -> (Set<u64>, bool) {
    if pending.contains(id) {
        (pending.remove(id), true)
    } else {
        (pending, false)
    }
}

/// Correlation ids of the requests that wait for a completion.
pub struct Protocol {
    pending: Vec<u64>,
    next_id: u64,
}

impl Protocol {
    /// The outstanding ids.
    pub closed spec fn pending(&self) -> Set<u64> {
        self.pending@.to_set()
    }

    /// The id the next request gets; every id handed out so far lies below
    /// it.
    pub closed spec fn counter(&self) -> u64 {
        self.next_id
    }

    /// Every id has been handed out.
    pub open spec fn exhausted(&self) -> bool {
        self.counter() == u64::MAX
    }

    /// Every outstanding id lies below the counter.
    pub proof fn lemma_pending_below(&self)
        requires
            self.wf(),
        ensures
            forall|id: u64| #[trigger] self.pending().contains(id) ==> id < self.counter(),
    {
        assert forall|id: u64| #[trigger] self.pending().contains(id) implies id < self.counter() by {
            let i = choose|i: int| 0 <= i < self.pending@.len() && self.pending@[i] == id;
        }
    }

    /// Outstanding ids are stored once each, and all lie below the next id.
    pub closed spec fn wf(&self) -> bool {
        &&& self.pending@.no_duplicates()
        &&& forall|i: int| 0 <= i < self.pending@.len() ==> self.pending@[i] < self.next_id
    }

    /// No request outstanding.
    pub fn new() -> (r: Protocol)
        ensures
            r.wf(),
            r.pending() == Set::<u64>::empty(),
            r.counter() == 0,
    {
        let r = Protocol { pending: Vec::new(), next_id: 0 };
        assert(r.pending() =~= Set::empty());
        r
    }

    /// Whether every id has been handed out.
    pub fn is_exhausted(&self) -> (r: bool)
        ensures
            r == self.exhausted(),
    {
        self.next_id == u64::MAX
    }

    /// Reserves a fresh id for a new request; `None` once every id has been
    /// handed out.
    pub fn issue(&mut self) -> (r: Option<u64>)
        requires
            old(self).wf(),
        ensures
            final(self).wf(),
            r is None <==> old(self).exhausted(),
            r is None ==> *final(self) == *old(self),
            r is Some ==> {
                &&& r->0 == old(self).counter()
                &&& final(self).counter() == old(self).counter() + 1
                &&& !old(self).pending().contains(r->0)
                &&& final(self).pending() == old(self).pending().insert(r->0)
            },
    {
        if self.next_id == u64::MAX {
            return None;
        }
        let id = self.next_id;
        let ghost before = self.pending@;
        self.pending.push(id);
        self.next_id = self.next_id + 1;
        assert(self.pending@ == before.push(id));
        assert(!before.contains(id));
        assert(self.pending@.to_set() =~= before.to_set().insert(id)) by {
            assert forall|x: u64| self.pending@.contains(x) <==> before.contains(x) || x == id by {
                if self.pending@.contains(x) {
                    let j = choose|j: int| 0 <= j < self.pending@.len() && self.pending@[j] == x;
                    if j < before.len() {
                        assert(before[j] == x);
                    }
                }
                if before.contains(x) {
                    let j = choose|j: int| 0 <= j < before.len() && before[j] == x;
                    assert(self.pending@[j] == x);
                }
                if x == id {
                    assert(self.pending@[before.len() as int] == id);
                }
            }
        }
        Some(id)
    }

    /// Releases `id` if its request is outstanding; refuses it otherwise and
    /// changes nothing.
    pub fn resolve(&mut self, id: u64) -> (r: Result<(), ProtocolViolation>)
        requires
            old(self).wf(),
        ensures
            final(self).wf(),
            (final(self).pending(), r is Ok) == resolve_step(old(self).pending(), id),
            final(self).counter() == old(self).counter(),
            r is Err ==> *final(self) == *old(self),
    {
        let mut i: usize = 0;
        while i < self.pending.len()
            invariant
                0 <= i <= self.pending@.len(),
                forall|k: int| 0 <= k < i ==> self.pending@[k] != id,
                self.wf(),
                *self == *old(self),
            decreases self.pending@.len() - i,
        {
            if self.pending[i] == id {
                let ghost before = self.pending@;
                self.pending.remove(i);
                assert(self.pending@ =~= before.remove(i as int));
                assert forall|a: int, b: int| 0 <= a < b < self.pending@.len() implies self.pending@[a] != self.pending@[b] by {
                    let a2 = if a < i { a } else { a + 1 };
                    let b2 = if b < i { b } else { b + 1 };
                    assert(self.pending@[a] == before[a2]);
                    assert(self.pending@[b] == before[b2]);
                }
                assert forall|k: int| 0 <= k < self.pending@.len() implies self.pending@[k] < self.next_id by {
                    let k2 = if k < i { k } else { k + 1 };
                    assert(self.pending@[k] == before[k2]);
                }
                assert(self.pending@.to_set() =~= before.to_set().remove(id)) by {
                    assert forall|x: u64| self.pending@.contains(x) <==> before.contains(x) && x != id by {
                        if self.pending@.contains(x) {
                            let j = choose|j: int| 0 <= j < self.pending@.len() && self.pending@[j] == x;
                            if j < i {
                                assert(before[j] == x);
                            } else {
                                assert(before[j + 1] == x);
                            }
                            assert(before[i as int] == id);
                        }
                        if before.contains(x) && x != id {
                            let j = choose|j: int| 0 <= j < before.len() && before[j] == x;
                            if j < i {
                                assert(self.pending@[j] == x);
                            } else {
                                assert(self.pending@[j - 1] == x);
                            }
                        }
                    }
                }
                assert(before.contains(id)) by {
                    assert(before[i as int] == id);
                }
                return Ok(());
            }
            i = i + 1;
        }
        assert(!self.pending@.contains(id));
        Err(ProtocolViolation::UnknownId)
    }
}

} // verus!
