//! Pending-ack storage for one namespace: a table from ack id to a one-shot
//! completion slot of the caller's choosing.
//!
//! The slot type is generic: the library stores and hands slots back, and
//! never resolves one twice — a removed id is gone, so a second ACK for the
//! same id finds nothing.

use vstd::prelude::*;

verus! {

/// Completion slots parked under their ack id, each id present at most once.
pub struct AckAwaiters<T> {
    pub awaiters: Vec<(u64, T)>,
}

impl<T> AckAwaiters<T> {
    /// Every parked ack id is unique.
    pub open spec fn wf(&self) -> bool {
        forall|i: int, j: int|
            0 <= i < j < self.awaiters@.len() ==> (#[trigger] self.awaiters@[i]).0 != (
            #[trigger] self.awaiters@[j]).0
    }

    pub open spec fn spec_contains(&self, id: u64) -> bool {
        exists|i: int| 0 <= i < self.awaiters@.len() && (#[trigger] self.awaiters@[i]).0 == id
    }

    pub open spec fn spec_index_of(&self, id: u64) -> int {
        choose|i: int| 0 <= i < self.awaiters@.len() && (#[trigger] self.awaiters@[i]).0 == id
    }

    /// The slot parked under `id`.
    pub open spec fn spec_get(&self, id: u64) -> T {
        self.awaiters@[self.spec_index_of(id)].1
    }

    pub open spec fn count(&self) -> nat {
        self.awaiters@.len()
    }

    /// In a well-formed table the witness index for an id is unique: there
    /// is at most one slot an ack can resolve.
    pub proof fn lemma_at_most_one_slot(&self, id: u64, i: int)
        requires
            self.wf(),
            0 <= i < self.awaiters@.len(),
            self.awaiters@[i].0 == id,
        ensures
            self.spec_index_of(id) == i,
            self.spec_contains(id),
    {
        assert(self.spec_contains(id));
        let j = self.spec_index_of(id);
        if j != i {
            if j < i {
                assert(self.awaiters@[j].0 != self.awaiters@[i].0);
            } else {
                assert(self.awaiters@[i].0 != self.awaiters@[j].0);
            }
        }
    }

    pub fn new() -> (r: Self)
        ensures
            r.wf(),
            r.count() == 0,
            forall|id: u64| !r.spec_contains(id),
    {
        AckAwaiters { awaiters: Vec::new() }
    }

    /// Parks a completion slot under a fresh ack id.
    pub fn add_awaiter(&mut self, ack_id: u64, task_completion: T)
        requires
            old(self).wf(),
            !old(self).spec_contains(ack_id),
        ensures
            final(self).wf(),
            final(self).spec_contains(ack_id),
            final(self).spec_get(ack_id) == task_completion,
            final(self).count() == old(self).count() + 1,
            forall|k: u64|
                k != ack_id ==> final(self).spec_contains(k) == old(self).spec_contains(k),
            forall|k: u64|
                k != ack_id && old(self).spec_contains(k) ==> final(self).spec_get(k) == old(
                    self,
                ).spec_get(k),
    {
        let ghost pre = *self;
        let n = self.awaiters.len();
        self.awaiters.push((ack_id, task_completion));
        proof {
            assert forall|i: int, j: int|
                0 <= i < j < self.awaiters@.len() implies (self.awaiters@[i]).0 != (
            self.awaiters@[j]).0 by {
                if j < n {
                    assert(pre.awaiters@[i].0 != pre.awaiters@[j].0);
                } else {
                    if pre.awaiters@[i].0 == ack_id {
                        assert(pre.spec_contains(ack_id));
                    }
                }
            }
            self.lemma_at_most_one_slot(ack_id, n as int);
            assert forall|k: u64| #![trigger self.spec_contains(k)]
            k != ack_id && pre.spec_contains(k) implies self.spec_contains(k) by {
                let i = pre.spec_index_of(k);
                pre.lemma_at_most_one_slot(k, i);
                assert(self.awaiters@[i].0 == k);
                self.lemma_at_most_one_slot(k, i);
            }
            assert forall|k: u64| #![trigger self.spec_get(k)]
            k != ack_id && pre.spec_contains(k) implies self.spec_get(k) == pre.spec_get(k) by {
                let i = pre.spec_index_of(k);
                pre.lemma_at_most_one_slot(k, i);
                assert(self.awaiters@[i].0 == k);
                self.lemma_at_most_one_slot(k, i);
            }
            assert forall|k: u64| #![trigger pre.spec_contains(k)]
            k != ack_id && self.spec_contains(k) implies pre.spec_contains(k) by {
                let i = self.spec_index_of(k);
                self.lemma_at_most_one_slot(k, i);
                assert(self.awaiters@[i].0 == k);
                assert(i < n);
                assert(pre.awaiters@[i].0 == k);
            }
        }
    }

    /// Removes and returns the slot parked under `ack_id`.  An unknown id
    /// finds nothing and leaves every other slot in place, so each parked
    /// slot can be resolved at most once.
    pub fn remove_awaiter(&mut self, ack_id: u64) -> (r: Option<T>)
        requires
            old(self).wf(),
        ensures
            final(self).wf(),
            old(self).spec_contains(ack_id) ==> r == Option::Some(old(self).spec_get(ack_id))
                && final(self).count() == old(self).count() - 1,
            !old(self).spec_contains(ack_id) ==> r is None && *final(self) == *old(self),
            !final(self).spec_contains(ack_id),
            forall|k: u64|
                k != ack_id ==> final(self).spec_contains(k) == old(self).spec_contains(k),
            forall|k: u64|
                k != ack_id && old(self).spec_contains(k) ==> final(self).spec_get(k) == old(
                    self,
                ).spec_get(k),
    {
        let ghost pre = *self;
        let n = self.awaiters.len();
        let mut idx: usize = 0;
        while idx < n
            invariant
                0 <= idx <= n,
                n == self.awaiters@.len(),
                *self == pre,
                pre == *old(self),
                pre.wf(),
                forall|i: int| 0 <= i < idx ==> (#[trigger] self.awaiters@[i]).0 != ack_id,
            decreases n - idx,
        {
            if self.awaiters[idx].0 == ack_id {
                proof {
                    pre.lemma_at_most_one_slot(ack_id, idx as int);
                }
                let entry = self.awaiters.remove(idx);
                proof {
                    assert(self.awaiters@ == pre.awaiters@.remove(idx as int));
                    assert forall|i: int|
                        0 <= i < self.awaiters@.len() implies self.awaiters@[i]
                        == pre.awaiters@[if i < idx {
                        i
                    } else {
                        i + 1
                    }] by {}
                    assert forall|i: int, j: int|
                        0 <= i < j < self.awaiters@.len() implies (self.awaiters@[i]).0 != (
                    self.awaiters@[j]).0 by {
                        let oi: int = if i < idx {
                            i
                        } else {
                            i + 1
                        };
                        let oj: int = if j < idx {
                            j
                        } else {
                            j + 1
                        };
                        assert(self.awaiters@[i] == pre.awaiters@[oi]);
                        assert(self.awaiters@[j] == pre.awaiters@[oj]);
                        assert(pre.awaiters@[oi].0 != pre.awaiters@[oj].0);
                    }
                    assert forall|i: int|
                        0 <= i < self.awaiters@.len() implies (#[trigger] self.awaiters@[i]).0
                        != ack_id by {
                        let oi: int = if i < idx {
                            i
                        } else {
                            i + 1
                        };
                        assert(self.awaiters@[i] == pre.awaiters@[oi]);
                        if oi != idx {
                            if oi < idx {
                                assert(pre.awaiters@[oi].0 != pre.awaiters@[idx as int].0);
                            } else {
                                assert(pre.awaiters@[idx as int].0 != pre.awaiters@[oi].0);
                            }
                        }
                    }
                    assert(!self.spec_contains(ack_id));
                    assert forall|k: u64| #![trigger self.spec_contains(k)]
                    k != ack_id && pre.spec_contains(k) implies self.spec_contains(k) by {
                        let i = pre.spec_index_of(k);
                        pre.lemma_at_most_one_slot(k, i);
                        let ni: int = if i < idx {
                            i
                        } else {
                            i - 1
                        };
                        assert(self.awaiters@[ni] == pre.awaiters@[i]);
                        self.lemma_at_most_one_slot(k, ni);
                    }
                    assert forall|k: u64| #![trigger self.spec_get(k)]
                    k != ack_id && pre.spec_contains(k) implies self.spec_get(k) == pre.spec_get(
                        k,
                    ) by {
                        let i = pre.spec_index_of(k);
                        pre.lemma_at_most_one_slot(k, i);
                        let ni: int = if i < idx {
                            i
                        } else {
                            i - 1
                        };
                        assert(self.awaiters@[ni] == pre.awaiters@[i]);
                        self.lemma_at_most_one_slot(k, ni);
                    }
                    assert forall|k: u64| #![trigger pre.spec_contains(k)]
                    k != ack_id && self.spec_contains(k) implies pre.spec_contains(k) by {
                        let i = self.spec_index_of(k);
                        self.lemma_at_most_one_slot(k, i);
                        assert(self.awaiters@[i].0 == k);
                        let oi: int = if i < idx {
                            i
                        } else {
                            i + 1
                        };
                        assert(self.awaiters@[i] == pre.awaiters@[oi]);
                    }
                }
                return Some(entry.1);
            }
            idx += 1;
        }
        proof {
            if pre.spec_contains(ack_id) {
                let i = pre.spec_index_of(ack_id);
                pre.lemma_at_most_one_slot(ack_id, i);
                assert(self.awaiters@[i].0 != ack_id);
            }
        }
        None
    }

    /// Empties the table, handing every parked slot out exactly once; the
    /// session failing all outstanding acks on disconnect drains it here.
    pub fn take_all(&mut self) -> (r: Vec<(u64, T)>)
        ensures
            r@ == old(self).awaiters@,
            final(self).count() == 0,
            forall|id: u64| !final(self).spec_contains(id),
            final(self).wf(),
    {
        let mut out: Vec<(u64, T)> = Vec::new();
        core::mem::swap(&mut out, &mut self.awaiters);
        out
    }
}

} // verus!
