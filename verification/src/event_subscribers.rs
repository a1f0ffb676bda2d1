//! The subscriber table: one handler per `(namespace, event)` key.
//!
//! The handler type is generic; the library only stores, finds and
//! enumerates handlers.  Registering a key twice fails deterministically and
//! leaves the table exactly as it was.

use vstd::prelude::*;
use crate::errors::SocketIoClientError;
use crate::frames::bytes_eq;

verus! {

/// A byte string occurs in a list of byte strings.
pub open spec fn in_list(out: Seq<Vec<u8>>, ns: Seq<u8>) -> bool {
    exists|a: int| 0 <= a < out.len() && (#[trigger] out[a])@ == ns
}

/// Handlers keyed by `(namespace, event_name)`, each key present at most
/// once.
pub struct EventSubscribers<S> {
    pub items: Vec<(Vec<u8>, Vec<u8>, S)>,
}

impl<S> EventSubscribers<S> {
    /// Every `(namespace, event)` key is unique.
    pub open spec fn wf(&self) -> bool {
        forall|i: int, j: int|
            0 <= i < j < self.items@.len() ==> !((#[trigger] self.items@[i]).0@
                == (#[trigger] self.items@[j]).0@ && self.items@[i].1@ == self.items@[j].1@)
    }

    pub open spec fn spec_contains(&self, ns: Seq<u8>, ev: Seq<u8>) -> bool {
        exists|i: int|
            0 <= i < self.items@.len() && (#[trigger] self.items@[i]).0@ == ns
                && self.items@[i].1@ == ev
    }

    pub open spec fn spec_index_of(&self, ns: Seq<u8>, ev: Seq<u8>) -> int {
        choose|i: int|
            0 <= i < self.items@.len() && (#[trigger] self.items@[i]).0@ == ns
                && self.items@[i].1@ == ev
    }

    /// The handler registered under `(ns, ev)`.
    pub open spec fn spec_get(&self, ns: Seq<u8>, ev: Seq<u8>) -> S {
        self.items@[self.spec_index_of(ns, ev)].2
    }

    pub open spec fn count(&self) -> nat {
        self.items@.len()
    }

    /// A namespace has at least one subscriber.
    pub open spec fn spec_has_namespace(&self, ns: Seq<u8>) -> bool {
        exists|i: int| 0 <= i < self.items@.len() && (#[trigger] self.items@[i]).0@ == ns
    }

    /// In a well-formed table the witness index for a key is unique.
    pub proof fn lemma_key_index(&self, ns: Seq<u8>, ev: Seq<u8>, i: int)
        requires
            self.wf(),
            0 <= i < self.items@.len(),
            self.items@[i].0@ == ns,
            self.items@[i].1@ == ev,
        ensures
            self.spec_contains(ns, ev),
            self.spec_index_of(ns, ev) == i,
    {
        assert(self.spec_contains(ns, ev));
        let j = self.spec_index_of(ns, ev);
        if j != i {
            if j < i {
                assert(!(self.items@[j].0@ == self.items@[i].0@ && self.items@[j].1@
                    == self.items@[i].1@));
            } else {
                assert(!(self.items@[i].0@ == self.items@[j].0@ && self.items@[i].1@
                    == self.items@[j].1@));
            }
        }
    }

    pub fn new() -> (r: Self)
        ensures
            r.wf(),
            r.count() == 0,
            forall|ns: Seq<u8>, ev: Seq<u8>| !r.spec_contains(ns, ev),
    {
        EventSubscribers { items: Vec::new() }
    }

    /// Finds the index of a key, if present.
    fn index_of(&self, namespace: &[u8], event_name: &[u8]) -> (r: Option<usize>)
        requires
            self.wf(),
        ensures
            match r {
                Option::Some(i) => self.spec_contains(namespace@, event_name@) && i
                    == self.spec_index_of(namespace@, event_name@) && i < self.items@.len(),
                Option::None => !self.spec_contains(namespace@, event_name@),
            },
    {
        let n = self.items.len();
        let mut i: usize = 0;
        while i < n
            invariant
                0 <= i <= n,
                n == self.items@.len(),
                self.wf(),
                forall|j: int|
                    0 <= j < i ==> !((#[trigger] self.items@[j]).0@ == namespace@
                        && self.items@[j].1@ == event_name@),
            decreases n - i,
        {
            let entry = vstd::std_specs::vec::vec_index(&self.items, i);
            if bytes_eq(entry.0.as_slice(), namespace) && bytes_eq(entry.1.as_slice(), event_name)
            {
                proof {
                    self.lemma_key_index(namespace@, event_name@, i as int);
                }
                return Some(i);
            }
            i += 1;
        }
        proof {
            if self.spec_contains(namespace@, event_name@) {
                let j = self.spec_index_of(namespace@, event_name@);
            }
        }
        None
    }

    /// Registers a handler.  A duplicate `(namespace, event)` key fails
    /// deterministically with `DuplicateSubscriber` and leaves the table
    /// unchanged.
    pub fn register(&mut self, namespace: Vec<u8>, event_name: Vec<u8>, subscriber: S) -> (r:
        Result<(), SocketIoClientError>)
        requires
            old(self).wf(),
        ensures
            final(self).wf(),
            old(self).spec_contains(namespace@, event_name@) ==> r == Result::<(),
                SocketIoClientError,
            >::Err(SocketIoClientError::DuplicateSubscriber) && *final(self) == *old(self),
            !old(self).spec_contains(namespace@, event_name@) ==> r is Ok && final(self)
                .spec_contains(namespace@, event_name@) && final(self).spec_get(
                namespace@,
                event_name@,
            ) == subscriber && final(self).count() == old(self).count() + 1,
            forall|ns: Seq<u8>, ev: Seq<u8>|
                !(ns == namespace@ && ev == event_name@) ==> final(self).spec_contains(ns, ev)
                    == old(self).spec_contains(ns, ev),
            forall|ns: Seq<u8>, ev: Seq<u8>|
                !(ns == namespace@ && ev == event_name@) && old(self).spec_contains(ns, ev)
                    ==> final(self).spec_get(ns, ev) == old(self).spec_get(ns, ev),
    {
        let ghost pre = *self;
        match self.index_of(namespace.as_slice(), event_name.as_slice()) {
            Some(_) => Err(SocketIoClientError::DuplicateSubscriber),
            None => {
                let n = self.items.len();
                self.items.push((namespace, event_name, subscriber));
                proof {
                    assert forall|i: int, j: int|
                        0 <= i < j < self.items@.len() implies !((self.items@[i]).0@
                        == (self.items@[j]).0@ && self.items@[i].1@ == self.items@[j].1@) by {
                        if j < n {
                            assert(!(pre.items@[i].0@ == pre.items@[j].0@ && pre.items@[i].1@
                                == pre.items@[j].1@));
                        } else {
                            if pre.items@[i].0@ == namespace@ && pre.items@[i].1@
                                == event_name@ {
                                assert(pre.spec_contains(namespace@, event_name@));
                            }
                        }
                    }
                    self.lemma_key_index(namespace@, event_name@, n as int);
                    assert forall|ns: Seq<u8>, ev: Seq<u8>|
                        #![trigger self.spec_contains(ns, ev)]
                    !(ns == namespace@ && ev == event_name@) && pre.spec_contains(
                        ns,
                        ev,
                    ) implies self.spec_contains(ns, ev) by {
                        let i = pre.spec_index_of(ns, ev);
                        pre.lemma_key_index(ns, ev, i);
                        assert(self.items@[i].0@ == ns && self.items@[i].1@ == ev);
                        self.lemma_key_index(ns, ev, i);
                    }
                    assert forall|ns: Seq<u8>, ev: Seq<u8>|
                        #![trigger self.spec_get(ns, ev)]
                    !(ns == namespace@ && ev == event_name@) && pre.spec_contains(
                        ns,
                        ev,
                    ) implies self.spec_get(ns, ev) == pre.spec_get(ns, ev) by {
                        let i = pre.spec_index_of(ns, ev);
                        pre.lemma_key_index(ns, ev, i);
                        assert(self.items@[i].0@ == ns && self.items@[i].1@ == ev);
                        self.lemma_key_index(ns, ev, i);
                    }
                    assert forall|ns: Seq<u8>, ev: Seq<u8>|
                        #![trigger pre.spec_contains(ns, ev)]
                    !(ns == namespace@ && ev == event_name@) && self.spec_contains(
                        ns,
                        ev,
                    ) implies pre.spec_contains(ns, ev) by {
                        let i = self.spec_index_of(ns, ev);
                        self.lemma_key_index(ns, ev, i);
                        assert(i < n);
                        pre.lemma_key_index(ns, ev, i);
                    }
                }
                Ok(())
            },
        }
    }

    /// Looks the handler for `(namespace, event)` up.
    pub fn get(&self, namespace: &[u8], event_name: &[u8]) -> (r: Option<&S>)
        requires
            self.wf(),
        ensures
            match r {
                Option::Some(s) => self.spec_contains(namespace@, event_name@) && *s
                    == self.spec_get(namespace@, event_name@),
                Option::None => !self.spec_contains(namespace@, event_name@),
            },
    {
        match self.index_of(namespace, event_name) {
            Some(i) => Some(&vstd::std_specs::vec::vec_index(&self.items, i).2),
            None => None,
        }
    }

    /// The distinct namespaces that have at least one subscriber, used to
    /// send a CONNECT per namespace after the handshake.
    pub fn get_namespaces(&self) -> (r: Vec<Vec<u8>>)
        requires
            self.wf(),
        ensures
            forall|i: int, j: int| 0 <= i < j < r@.len() ==> (#[trigger] r@[i])@ != (
            #[trigger] r@[j])@,
            forall|i: int|
                0 <= i < r@.len() ==> self.spec_has_namespace((#[trigger] r@[i])@),
            forall|ns: Seq<u8>| self.spec_has_namespace(ns) ==> #[trigger] in_list(r@, ns),
    {
        let mut out: Vec<Vec<u8>> = Vec::new();
        let n = self.items.len();
        let mut i: usize = 0;
        while i < n
            invariant
                0 <= i <= n,
                n == self.items@.len(),
                self.wf(),
                forall|a: int, b: int| 0 <= a < b < out@.len() ==> (#[trigger] out@[a])@ != (
                #[trigger] out@[b])@,
                forall|a: int|
                    0 <= a < out@.len() ==> self.spec_has_namespace((#[trigger] out@[a])@),
                forall|j: int|
                    0 <= j < i ==> in_list(out@, (#[trigger] self.items@[j]).0@),
            decreases n - i,
        {
            let ns = vstd::std_specs::vec::vec_index(&self.items, i).0.as_slice();
            let mut seen = false;
            let m = out.len();
            let mut k: usize = 0;
            while k < m
                invariant
                    0 <= k <= m,
                    m == out@.len(),
                    i < n,
                    n == self.items@.len(),
                    self.wf(),
                    ns@ == self.items@[i as int].0@,
                    seen ==> in_list(out@, ns@),
                    !seen ==> forall|a: int| 0 <= a < k ==> (#[trigger] out@[a])@ != ns@,
                    forall|a: int, b: int| 0 <= a < b < out@.len() ==> (#[trigger] out@[a])@ != (
                    #[trigger] out@[b])@,
                    forall|a: int|
                        0 <= a < out@.len() ==> self.spec_has_namespace((#[trigger] out@[a])@),
                    forall|j: int|
                        0 <= j < i ==> in_list(out@, (#[trigger] self.items@[j]).0@),
                decreases m - k,
            {
                if bytes_eq(vstd::std_specs::vec::vec_index(&out, k).as_slice(), ns) {
                    seen = true;
                }
                k += 1;
            }
            let ghost out_before = out@;
            if !seen {
                out.push(vstd::slice::slice_to_vec(ns));
                proof {
                    assert((out@[out@.len() - 1])@ == self.items@[i as int].0@);
                    assert(self.spec_has_namespace(ns@));
                    assert forall|x: Seq<u8>| in_list(out_before, x) implies in_list(
                        out@,
                        x,
                    ) by {
                        let a = choose|a: int|
                            0 <= a < out_before.len() && (#[trigger] out_before[a])@ == x;
                        assert(out@[a] == out_before[a]);
                    }
                }
            }
            proof {
                assert(in_list(out@, self.items@[i as int].0@));
            }
            i += 1;
        }
        proof {
            assert forall|ns2: Seq<u8>| self.spec_has_namespace(ns2) implies #[trigger] in_list(
                out@,
                ns2,
            ) by {
                let j = choose|j: int|
                    0 <= j < self.items@.len() && (#[trigger] self.items@[j]).0@ == ns2;
                assert(in_list(out@, self.items@[j].0@));
            }
        }
        out
    }
}

} // verus!
