//! The per-connection core: the session id, the monotonically increasing
//! ack counter, and the pending-ack table, together with the outbound frame
//! builders.
//!
//! Ack ids are allocated from a single counter, so an id never repeats
//! across namespaces of one connection; the table stores the namespace next
//! to each slot and an ACK resolves a slot only when both id and namespace
//! match.  Transport I/O stays outside: every method hands frames back as
//! plain byte strings.

use vstd::prelude::*;
use vstd::slice::slice_to_vec;
use crate::ack_awaiters::AckAwaiters;
use crate::codec::{ser_contract};
use crate::frames::{bytes_eq, serialize_contract};
use crate::models::{ContractView, MessageView, SocketIoContract, SocketIoMessage};

verus! {

/// Mutable state of one connection.
pub struct SocketIoConnectionInner<T> {
    /// Pending acks: id to (namespace, completion slot).
    pub active_ack_awaiters: AckAwaiters<(Vec<u8>, T)>,
    /// Last issued ack id; zero before the first `get_next_ack_id`.
    pub ack_id: u64,
    /// Session id from the handshake, absent until OPEN.
    pub sid: Option<Vec<u8>>,
}

impl<T> SocketIoConnectionInner<T> {
    /// Unique parked ids, each issued by the counter and nonzero.
    pub open spec fn wf(&self) -> bool {
        &&& self.active_ack_awaiters.wf()
        &&& forall|id: u64|
            #[trigger] self.active_ack_awaiters.spec_contains(id) ==> 1 <= id <= self.ack_id
    }

    /// A slot is parked under `(namespace, id)`.
    pub open spec fn spec_parked(&self, ns: Seq<u8>, id: u64) -> bool {
        self.active_ack_awaiters.spec_contains(id) && self.active_ack_awaiters.spec_get(id).0@
            == ns
    }

    /// The slot parked under `(namespace, id)`.
    pub open spec fn spec_slot(&self, id: u64) -> T {
        self.active_ack_awaiters.spec_get(id).1
    }

    pub fn new() -> (r: Self)
        ensures
            r.wf(),
            r.ack_id == 0,
            r.sid is None,
            forall|id: u64| !r.active_ack_awaiters.spec_contains(id),
            r.active_ack_awaiters.count() == 0,
    {
        SocketIoConnectionInner {
            active_ack_awaiters: AckAwaiters::new(),
            ack_id: 0,
            sid: None,
        }
    }

    /// Issues the next ack id: ids are strictly increasing, never zero, and
    /// never reused while the connection lives.
    pub fn get_next_ack_id(&mut self) -> (r: u64)
        requires
            old(self).wf(),
            old(self).ack_id < u64::MAX,
        ensures
            final(self).wf(),
            r == old(self).ack_id + 1,
            final(self).ack_id == r,
            r >= 1,
            final(self).active_ack_awaiters == old(self).active_ack_awaiters,
            final(self).sid == old(self).sid,
            !old(self).active_ack_awaiters.spec_contains(r),
    {
        proof {
            // a parked id is at most the counter, so the successor is fresh
            assert(!self.active_ack_awaiters.spec_contains((self.ack_id + 1) as u64));
        }
        self.ack_id = self.ack_id + 1;
        self.ack_id
    }
}

/// The verified core of a connection: state plus outbound frame building.
/// The transport handle, the lock around this state and the async send path
/// live with the caller.
pub struct SocketIoConnection<T> {
    pub inner: SocketIoConnectionInner<T>,
    pub debug_payload: bool,
}

impl<T> SocketIoConnection<T> {
    pub open spec fn wf(&self) -> bool {
        self.inner.wf()
    }

    pub fn new(debug_payload: bool) -> (r: Self)
        ensures
            r.wf(),
            r.inner.ack_id == 0,
            r.inner.sid is None,
            r.debug_payload == debug_payload,
            forall|id: u64| !r.inner.active_ack_awaiters.spec_contains(id),
            r.inner.active_ack_awaiters.count() == 0,
    {
        SocketIoConnection { inner: SocketIoConnectionInner::new(), debug_payload }
    }

    /// Records the session id from the handshake OPEN.
    pub fn set_sid(&mut self, sid: Vec<u8>)
        requires
            old(self).wf(),
        ensures
            final(self).wf(),
            final(self).inner.sid == Option::Some(sid),
            final(self).inner.ack_id == old(self).inner.ack_id,
            final(self).inner.active_ack_awaiters == old(self).inner.active_ack_awaiters,
            final(self).debug_payload == old(self).debug_payload,
    {
        self.inner.sid = Some(sid);
    }

    /// The current session id, if the handshake has completed.
    pub fn get_sid(&self) -> (r: Option<Vec<u8>>)
        ensures
            match r {
                Option::Some(v) => self.inner.sid is Some && v@ == self.inner.sid->0@,
                Option::None => self.inner.sid is None,
            },
    {
        match &self.inner.sid {
            Some(v) => Some(slice_to_vec(v.as_slice())),
            None => None,
        }
    }

    /// Serializes one packet to the text frame the transport should write.
    pub fn send_message(&self, contract: &SocketIoContract) -> (r: Vec<u8>)
        ensures
            r@ == ser_contract(contract@),
    {
        serialize_contract(contract)
    }

    /// One CONNECT frame per registered namespace, in registration order.
    pub fn subscribe_to_namespaces(&self, namespaces: &Vec<Vec<u8>>) -> (r: Vec<Vec<u8>>)
        ensures
            r@.len() == namespaces@.len(),
            forall|i: int|
                0 <= i < r@.len() ==> (#[trigger] r@[i])@ == ser_contract(
                    ContractView::Message(
                        MessageView::Connect {
                            namespace: namespaces@[i]@,
                            sid: Option::None,
                        },
                    ),
                ),
    {
        let mut out: Vec<Vec<u8>> = Vec::new();
        let n = namespaces.len();
        let mut i: usize = 0;
        while i < n
            invariant
                0 <= i <= n,
                n == namespaces@.len(),
                out@.len() == i,
                forall|j: int|
                    0 <= j < i ==> (#[trigger] out@[j])@ == ser_contract(
                        ContractView::Message(
                            MessageView::Connect {
                                namespace: namespaces@[j]@,
                                sid: Option::None,
                            },
                        ),
                    ),
            decreases n - i,
        {
            let ns = slice_to_vec(vstd::std_specs::vec::vec_index(namespaces, i).as_slice());
            let msg = SocketIoMessage::Connect { namespace: ns, sid: None };
            let frame = serialize_contract(&SocketIoContract::Message(msg));
            out.push(frame);
            i += 1;
        }
        out
    }

    /// Allocates the next ack id, parks the completion slot under it, and
    /// builds the EVENT frame carrying that id.  The id is returned so the
    /// caller can match the frame on the wire to the parked slot.
    pub fn send_event_with_ack(
        &mut self,
        namespace: Vec<u8>,
        event_name: Vec<u8>,
        data: Vec<u8>,
        slot: T,
    ) -> (r: (u64, Vec<u8>))
        requires
            old(self).wf(),
            old(self).inner.ack_id < u64::MAX,
        ensures
            final(self).wf(),
            r.0 == old(self).inner.ack_id + 1,
            final(self).inner.ack_id == r.0,
            final(self).inner.spec_parked(namespace@, r.0),
            final(self).inner.spec_slot(r.0) == slot,
            forall|k: u64|
                k != r.0 ==> final(self).inner.active_ack_awaiters.spec_contains(k) == old(self).inner.active_ack_awaiters.spec_contains(k),
            forall|k: u64|
                k != r.0 && old(self).inner.active_ack_awaiters.spec_contains(k) ==> final(self).inner.active_ack_awaiters.spec_get(k) == old(self).inner.active_ack_awaiters.spec_get(k),
            final(self).inner.sid == old(self).inner.sid,
            r.1@ == ser_contract(
                ContractView::Message(
                    MessageView::Event {
                        namespace: namespace@,
                        event_name: event_name@,
                        data: data@,
                        ack: Option::Some(r.0),
                    },
                ),
            ),
    {
        let ack_id = self.inner.get_next_ack_id();
        let ns_copy = slice_to_vec(namespace.as_slice());
        self.inner.active_ack_awaiters.add_awaiter(ack_id, (ns_copy, slot));
        let msg = SocketIoMessage::Event {
            namespace,
            event_name,
            data,
            ack: Some(ack_id),
        };
        let frame = serialize_contract(&SocketIoContract::Message(msg));
        (ack_id, frame)
    }

    /// Builds an EVENT frame with no ack id: nothing is parked.
    pub fn send_event_and_forget(
        &self,
        namespace: Vec<u8>,
        event_name: Vec<u8>,
        data: Vec<u8>,
    ) -> (r: Vec<u8>)
        ensures
            r@ == ser_contract(
                ContractView::Message(
                    MessageView::Event {
                        namespace: namespace@,
                        event_name: event_name@,
                        data: data@,
                        ack: Option::None,
                    },
                ),
            ),
    {
        let msg = SocketIoMessage::Event { namespace, event_name, data, ack: None };
        serialize_contract(&SocketIoContract::Message(msg))
    }

    /// Resolves the awaiter parked under `(namespace, ack_id)`.  An unknown
    /// id, or a known id on a different namespace, changes nothing
    /// observable and returns nothing: the caller logs and drops it.
    pub fn handle_ack_event(&mut self, namespace: &Vec<u8>, ack_id: u64) -> (r: Option<T>)
        requires
            old(self).wf(),
        ensures
            final(self).wf(),
            old(self).inner.spec_parked(namespace@, ack_id) ==> r == Option::Some(
                old(self).inner.spec_slot(ack_id),
            ) && !final(self).inner.active_ack_awaiters.spec_contains(ack_id),
            !old(self).inner.spec_parked(namespace@, ack_id) ==> r is None && forall|k: u64|
                final(self).inner.active_ack_awaiters.spec_contains(k) == old(self).inner.active_ack_awaiters.spec_contains(k),
            !old(self).inner.spec_parked(namespace@, ack_id) ==> forall|k: u64|
                old(self).inner.active_ack_awaiters.spec_contains(k) ==> final(self).inner.active_ack_awaiters.spec_get(k) == old(self).inner.active_ack_awaiters.spec_get(k),
            forall|k: u64|
                k != ack_id ==> final(self).inner.active_ack_awaiters.spec_contains(k) == old(self).inner.active_ack_awaiters.spec_contains(k),
            forall|k: u64|
                k != ack_id && old(self).inner.active_ack_awaiters.spec_contains(k) ==> final(self).inner.active_ack_awaiters.spec_get(k) == old(self).inner.active_ack_awaiters.spec_get(k),
            final(self).inner.ack_id == old(self).inner.ack_id,
            final(self).inner.sid == old(self).inner.sid,
    {
        match self.inner.active_ack_awaiters.remove_awaiter(ack_id) {
            Some(pair) => {
                if bytes_eq(pair.0.as_slice(), namespace.as_slice()) {
                    Some(pair.1)
                } else {
                    self.inner.active_ack_awaiters.add_awaiter(ack_id, pair);
                    None
                }
            },
            None => None,
        }
    }

    /// Removes every awaiter parked on one namespace, handing each out
    /// exactly once; awaiters on other namespaces stay untouched.  Called
    /// when the server disconnects a single namespace.
    pub fn fail_namespace_awaiters(&mut self, namespace: &Vec<u8>) -> (r: Vec<(u64, (Vec<u8>, T))>)
        requires
            old(self).wf(),
        ensures
            final(self).wf(),
            forall|k: u64| !final(self).inner.spec_parked(namespace@, k),
            forall|ns2: Seq<u8>, k: u64|
                ns2 != namespace@ ==> final(self).inner.spec_parked(ns2, k) == old(self).inner.spec_parked(ns2, k),
            forall|k: u64|
                #[trigger] final(self).inner.active_ack_awaiters.spec_contains(k) ==> old(self).inner.active_ack_awaiters.spec_contains(k) && final(self).inner.active_ack_awaiters.spec_get(k) == old(self).inner.active_ack_awaiters.spec_get(k),
            forall|i: int|
                0 <= i < r@.len() ==> old(self).inner.spec_parked(
                    namespace@,
                    (#[trigger] r@[i]).0,
                ) && r@[i].1 == old(self).inner.active_ack_awaiters.spec_get(r@[i].0),
            forall|k: u64|
                old(self).inner.spec_parked(namespace@, k) ==> exists|i: int|
                    0 <= i < r@.len() && (#[trigger] r@[i]).0 == k,
            final(self).inner.ack_id == old(self).inner.ack_id,
            final(self).inner.sid == old(self).inner.sid,
    {
        let ghost pre = old(self).inner.active_ack_awaiters;
        let mut all = self.inner.active_ack_awaiters.take_all();
        let ghost pre_seq = all@;
        let mut removed: Vec<(u64, (Vec<u8>, T))> = Vec::new();
        proof {
            assert(pre_seq == pre.awaiters@);
        }
        while all.len() > 0
            invariant
                pre.wf(),
                pre_seq == pre.awaiters@,
                self.inner.ack_id == old(self).inner.ack_id,
                self.inner.sid == old(self).inner.sid,
                pre == old(self).inner.active_ack_awaiters,
                all@.len() <= pre_seq.len(),
                all@ == pre_seq.subrange(0, all@.len() as int),
                self.inner.active_ack_awaiters.wf(),
                forall|k: u64|
                    #[trigger] self.inner.active_ack_awaiters.spec_contains(k) ==> exists|j: int|
                        all@.len() <= j < pre_seq.len() && (#[trigger] pre_seq[j]).0 == k
                            && pre_seq[j].1 == self.inner.active_ack_awaiters.spec_get(k)
                            && pre_seq[j].1.0@ != namespace@,
                forall|j: int|
                    all@.len() <= j < pre_seq.len() && (#[trigger] pre_seq[j]).1.0@ != namespace@
                        ==> self.inner.active_ack_awaiters.spec_contains(pre_seq[j].0)
                        && self.inner.active_ack_awaiters.spec_get(pre_seq[j].0) == pre_seq[j].1,
                forall|j: int|
                    all@.len() <= j < pre_seq.len() && (#[trigger] pre_seq[j]).1.0@ == namespace@
                        ==> exists|i: int| 0 <= i < removed@.len() && #[trigger] removed@[i]
                        == pre_seq[j],
                forall|i: int|
                    0 <= i < removed@.len() ==> exists|j: int|
                        all@.len() <= j < pre_seq.len() && #[trigger] removed@[i] == pre_seq[j]
                            && pre_seq[j].1.0@ == namespace@,
                forall|id: u64|
                    #[trigger] pre.spec_contains(id) ==> 1 <= id <= self.inner.ack_id,
                forall|id: u64|
                    1 <= id <= self.inner.ack_id || !self.inner.active_ack_awaiters.spec_contains(
                        id,
                    ),
            decreases all@.len(),
        {
            let ghost all_before = all@;
            let ghost removed_before = removed@;
            if let Some(e) = all.pop() {
                let ghost j = all@.len() as int;
                proof {
                    assert(e == pre_seq[j]);
                    assert(all@ =~= pre_seq.subrange(0, j));
                    assert forall|a: int, b: int|
                        0 <= a < b < pre_seq.len() implies (#[trigger] pre_seq[a]).0 != (
                    #[trigger] pre_seq[b]).0 by {
                        assert(pre.awaiters@[a].0 != pre.awaiters@[b].0);
                    }
                }
                if bytes_eq(e.1.0.as_slice(), namespace.as_slice()) {
                    removed.push(e);
                    proof {
                        assert(removed@[removed@.len() - 1] == pre_seq[j]);
                        assert forall|jj: int|
                            j <= jj < pre_seq.len() && (#[trigger] pre_seq[jj]).1.0@ == namespace@
                                implies exists|i: int|
                            0 <= i < removed@.len() && #[trigger] removed@[i] == pre_seq[jj] by {
                            if jj == j {
                                assert(removed@[removed@.len() - 1] == pre_seq[jj]);
                            } else {
                                let i = choose|i: int|
                                    0 <= i < removed_before.len() && #[trigger] removed_before[i]
                                        == pre_seq[jj];
                                assert(removed@[i] == pre_seq[jj]);
                            }
                        }
                    }
                } else {
                    proof {
                        if self.inner.active_ack_awaiters.spec_contains(e.0) {
                            let jj = choose|jj: int|
                                all_before.len() <= jj < pre_seq.len() && (
                                #[trigger] pre_seq[jj]).0 == e.0 && pre_seq[jj].1
                                    == self.inner.active_ack_awaiters.spec_get(e.0)
                                    && pre_seq[jj].1.0@ != namespace@;
                            assert(pre_seq[jj].0 == pre_seq[j].0);
                        }
                        assert(pre.spec_contains(e.0)) by {
                            assert(pre.awaiters@[j].0 == e.0);
                        }
                        pre.lemma_at_most_one_slot(e.0, j);
                        assert(1 <= e.0 <= self.inner.ack_id);
                    }
                    let ghost table_before = self.inner.active_ack_awaiters;
                    self.inner.active_ack_awaiters.add_awaiter(e.0, e.1);
                    proof {
                        let cur = self.inner.active_ack_awaiters;
                        assert(cur.spec_get(e.0) == (e.1));
                        assert forall|k: u64| #[trigger] cur.spec_contains(k) implies exists|
                            jj: int,
                        |
                            j <= jj < pre_seq.len() && (#[trigger] pre_seq[jj]).0 == k
                                && pre_seq[jj].1 == cur.spec_get(k) && pre_seq[jj].1.0@
                                != namespace@ by {
                            if k == e.0 {
                                assert(pre_seq[j].0 == k && pre_seq[j].1 == cur.spec_get(k));
                            } else {
                                assert(table_before.spec_contains(k));
                                let jj = choose|jj: int|
                                    all_before.len() <= jj < pre_seq.len() && (
                                    #[trigger] pre_seq[jj]).0 == k && pre_seq[jj].1
                                        == table_before.spec_get(k) && pre_seq[jj].1.0@
                                        != namespace@;
                                assert(cur.spec_get(k) == table_before.spec_get(k));
                            }
                        }
                        assert forall|jj: int|
                            j <= jj < pre_seq.len() && (#[trigger] pre_seq[jj]).1.0@ != namespace@
                                implies cur.spec_contains(pre_seq[jj].0) && cur.spec_get(
                                pre_seq[jj].0,
                            ) == pre_seq[jj].1 by {
                            if jj == j {
                            } else {
                                assert(table_before.spec_contains(pre_seq[jj].0)
                                    && table_before.spec_get(pre_seq[jj].0) == pre_seq[jj].1);
                                assert(pre_seq[jj].0 != e.0);
                            }
                        }
                    }
                }
            } else {
                proof {
                    assert(false);
                }
            }
        }
        proof {
            assert(all@.len() == 0);
        }
        proof {
            let cur = self.inner.active_ack_awaiters;
            assert forall|k: u64| !self.inner.spec_parked(namespace@, k) by {
                if cur.spec_contains(k) {
                    let j = choose|j: int|
                        0 <= j < pre_seq.len() && (#[trigger] pre_seq[j]).0 == k && pre_seq[j].1
                            == cur.spec_get(k) && pre_seq[j].1.0@ != namespace@;
                }
            }
            assert forall|ns2: Seq<u8>, k: u64| ns2 != namespace@ implies #[trigger]
            self.inner.spec_parked(ns2, k) == old(self).inner.spec_parked(ns2, k) by {
                if old(self).inner.spec_parked(ns2, k) {
                    let i = pre.spec_index_of(k);
                    pre.lemma_at_most_one_slot(k, i);
                    assert(pre_seq[i].0 == k);
                    assert(pre_seq[i].1.0@ == ns2);
                    assert(cur.spec_contains(k) && cur.spec_get(k) == pre_seq[i].1);
                }
                if cur.spec_contains(k) {
                    let j = choose|j: int|
                        0 <= j < pre_seq.len() && (#[trigger] pre_seq[j]).0 == k && pre_seq[j].1
                            == cur.spec_get(k) && pre_seq[j].1.0@ != namespace@;
                    pre.lemma_at_most_one_slot(k, j);
                }
            }
            assert forall|k: u64| #[trigger] cur.spec_contains(k) implies pre.spec_contains(k)
                && cur.spec_get(k) == pre.spec_get(k) by {
                let j = choose|j: int|
                    0 <= j < pre_seq.len() && (#[trigger] pre_seq[j]).0 == k && pre_seq[j].1
                        == cur.spec_get(k) && pre_seq[j].1.0@ != namespace@;
                pre.lemma_at_most_one_slot(k, j);
            }
            assert forall|i: int|
                0 <= i < removed@.len() implies old(self).inner.spec_parked(
                    namespace@,
                    (#[trigger] removed@[i]).0,
                ) && removed@[i].1 == pre.spec_get(removed@[i].0) by {
                let j = choose|j: int|
                    0 <= j < pre_seq.len() && #[trigger] removed@[i] == pre_seq[j]
                        && pre_seq[j].1.0@ == namespace@;
                pre.lemma_at_most_one_slot(removed@[i].0, j);
            }
            assert forall|k: u64| old(self).inner.spec_parked(namespace@, k) implies exists|i: int|
                0 <= i < removed@.len() && (#[trigger] removed@[i]).0 == k by {
                let j = pre.spec_index_of(k);
                pre.lemma_at_most_one_slot(k, j);
                assert(pre_seq[j].1.0@ == namespace@);
                let i = choose|i: int|
                    0 <= i < removed@.len() && #[trigger] removed@[i] == pre_seq[j];
                assert(removed@[i].0 == k);
            }
        }
        removed
    }

    /// Empties the pending-ack table, handing every parked slot out exactly
    /// once; called when the session closes so that each awaiter can be
    /// failed with a connection-lost error.
    pub fn fail_all_awaiters(&mut self) -> (r: Vec<(u64, (Vec<u8>, T))>)
        requires
            old(self).wf(),
        ensures
            final(self).wf(),
            r@ == old(self).inner.active_ack_awaiters.awaiters@,
            forall|id: u64| !final(self).inner.active_ack_awaiters.spec_contains(id),
            final(self).inner.active_ack_awaiters.count() == 0,
            final(self).inner.ack_id == old(self).inner.ack_id,
            final(self).inner.sid == old(self).inner.sid,
    {
        self.inner.active_ack_awaiters.take_all()
    }
}

/// Ack ids issued by one connection are strictly monotonically increasing
/// and unique.  `get_next_ack_id` returns `counter + 1` and leaves the
/// counter at that value, and no operation ever lowers the counter; so an
/// id issued from any later counter state is strictly greater than every id
/// issued before it, and no id is issued twice.
pub proof fn lemma_ack_ids_strictly_increasing(
    counter_at_first: u64,
    counter_at_second: u64,
    first_id: u64,
    second_id: u64,
)
    requires
        first_id == counter_at_first + 1,
        counter_at_second >= first_id,
        second_id == counter_at_second + 1,
    ensures
        second_id > first_id,
{
}

/// A parked awaiter resolves at most once: in a well-formed connection an
/// ack id identifies at most one slot.  Completing it removes it, so a
/// second ACK with the same id finds nothing, and draining the table on
/// close hands each remaining slot out exactly once.
pub proof fn lemma_ack_resolved_at_most_once<T>(c: &SocketIoConnection<T>, id: u64, i: int, j: int)
    requires
        c.wf(),
        0 <= i < c.inner.active_ack_awaiters.awaiters@.len(),
        0 <= j < c.inner.active_ack_awaiters.awaiters@.len(),
        c.inner.active_ack_awaiters.awaiters@[i].0 == id,
        c.inner.active_ack_awaiters.awaiters@[j].0 == id,
    ensures
        i == j,
{
    c.inner.active_ack_awaiters.lemma_at_most_one_slot(id, i);
    c.inner.active_ack_awaiters.lemma_at_most_one_slot(id, j);
}

} // verus!
