//! The session state machine: Engine.IO handshake, ping/pong liveness,
//! namespace lifecycle and inbound dispatch, as a pure transition core.
//!
//! Every inbound packet is turned into a state change plus a list of
//! actions; the caller performs the actions in order (write a frame, invoke
//! a handler, resolve or fail an awaiter, fire a callback).  No user
//! handler action is ever produced before the handshake OPEN has been
//! processed, and a PING is answered by a PONG with the same probe flag
//! before any other outbound frame.

use vstd::prelude::*;
use vstd::slice::slice_to_vec;
use crate::codec::ser_contract;
use crate::connection::SocketIoConnection;
use crate::errors::SocketIoClientError;
use crate::event_subscribers::{in_list, EventSubscribers};
use crate::frames::{bytes_eq, serialize_contract};
use crate::models::{ContractView, MessageView, SocketIoContract, SocketIoHandshakeOpenModel,
    SocketIoMessage};

verus! {

/// Lifecycle of one session.
#[derive(Clone, Copy, PartialEq, Eq, Structural, Debug)]
pub enum SessionState {
    Idle,
    Connecting,
    HandshakePending,
    Open,
    Closing,
    Closed,
}

/// What the caller must do after a transition, in list order.
pub enum SessionAction<T> {
    /// Write this text frame to the transport.
    SendFrame { frame: Vec<u8> },
    /// Run the subscriber registered under `(namespace, event)`.
    InvokeSubscriber {
        event_namespace: Vec<u8>,
        event_name: Vec<u8>,
        event_data: Vec<u8>,
        event_ack: Option<u64>,
    },
    /// Fire the user's connect callback.
    NotifyConnected,
    /// Fire the user's disconnect callback; produced at most once per close.
    NotifyDisconnected,
    /// Resolve this awaiter with the ACK payload.
    CompleteAck { completed_slot: T, ack_data: Vec<u8> },
    /// Resolve this awaiter with the given error.
    FailAwaiter { failed_slot: T, fail_error: SocketIoClientError },
    /// The server confirmed a namespace join.
    NamespaceJoined { joined_namespace: Vec<u8> },
    /// The server refused a namespace join.
    NamespaceConnectFailed { failed_namespace: Vec<u8>, error_message: Vec<u8> },
    /// An ACK arrived for an id that has no awaiter: log and drop.
    WarnUnknownAck { unknown_ack: u64 },
}

/// The action writes exactly this frame.
pub open spec fn action_sends_frame<T>(a: SessionAction<T>, f: Seq<u8>) -> bool {
    (a matches SessionAction::SendFrame { frame } && frame@ == f)
}

/// The frame is a CONNECT for some namespace that has a subscriber.
pub open spec fn connect_frame_for<S>(subscribers: &EventSubscribers<S>, f: Seq<u8>) -> bool {
    exists|ns: Seq<u8>|
        #[trigger] subscribers.spec_has_namespace(ns) && f == ser_contract(
            ContractView::Message(MessageView::Connect { namespace: ns, sid: Option::None }),
        )
}

/// Per-session context: the state, the adopted handshake parameters and the
/// connection core.
pub struct SocketIoContext<T> {
    pub state: SessionState,
    pub handshake_response: Option<SocketIoHandshakeOpenModel>,
    pub connection: SocketIoConnection<T>,
    /// Namespaces the server refused or disconnected: no further events are
    /// dispatched for them until the server confirms a new join.
    pub dead_namespaces: Vec<Vec<u8>>,
}

impl<T> SocketIoContext<T> {
    /// The connection core is well-formed, and an open session has a
    /// non-empty sid.
    pub open spec fn wf(&self) -> bool {
        &&& self.connection.wf()
        &&& self.state == SessionState::Open ==> (self.connection.inner.sid is Some
            && self.connection.inner.sid->0@.len() > 0)
    }

    /// The server refused or disconnected this namespace; events on it are
    /// no longer dispatched.
    pub open spec fn spec_namespace_dead(&self, ns: Seq<u8>) -> bool {
        in_list(self.dead_namespaces@, ns)
    }

    pub fn new(debug_payload: bool) -> (r: Self)
        ensures
            r.wf(),
            r.state == SessionState::Idle,
            r.handshake_response is None,
            r.connection.inner.ack_id == 0,
            r.connection.inner.sid is None,
            r.connection.inner.active_ack_awaiters.count() == 0,
            forall|id: u64| !r.connection.inner.active_ack_awaiters.spec_contains(id),
            r.connection.debug_payload == debug_payload,
            forall|ns: Seq<u8>| !r.spec_namespace_dead(ns),
    {
        SocketIoContext {
            state: SessionState::Idle,
            handshake_response: None,
            connection: SocketIoConnection::new(debug_payload),
            dead_namespaces: Vec::new(),
        }
    }

    /// Starts dialing; idempotent, as repeated calls change nothing.
    pub fn start(&mut self)
        requires
            old(self).wf(),
        ensures
            final(self).wf(),
            old(self).state == SessionState::Idle ==> final(self).state
                == SessionState::Connecting,
            old(self).state != SessionState::Idle ==> *final(self) == *old(self),
            final(self).connection == old(self).connection,
            final(self).handshake_response == old(self).handshake_response,
            final(self).dead_namespaces == old(self).dead_namespaces,
    {
        if matches!(self.state, SessionState::Idle) {
            self.state = SessionState::Connecting;
        }
    }

    /// The transport dialed successfully: a fresh connection waits for the
    /// handshake OPEN.
    pub fn on_connected(&mut self, debug_payload: bool)
        requires
            old(self).wf(),
        ensures
            final(self).wf(),
            final(self).state == SessionState::HandshakePending,
            final(self).handshake_response is None,
            final(self).connection.inner.ack_id == 0,
            final(self).connection.inner.sid is None,
            final(self).connection.inner.active_ack_awaiters.count() == 0,
            forall|id: u64| !final(self).connection.inner.active_ack_awaiters.spec_contains(id),
            final(self).connection.debug_payload == debug_payload,
            forall|ns: Seq<u8>| !final(self).spec_namespace_dead(ns),
    {
        self.state = SessionState::HandshakePending;
        self.handshake_response = None;
        self.connection = SocketIoConnection::new(debug_payload);
        self.dead_namespaces = Vec::new();
    }

    /// Fails every parked awaiter with `ConnectionLost` and notifies the
    /// user exactly once; used for CLOSE packets, transport loss and
    /// heartbeat timeouts.
    fn close_session(&mut self) -> (r: Vec<SessionAction<T>>)
        requires
            old(self).wf(),
        ensures
            final(self).wf(),
            final(self).state == SessionState::Closing,
            final(self).connection.inner.active_ack_awaiters.count() == 0,
            final(self).handshake_response is None,
            final(self).connection.inner.sid is None,
            r@.len() == old(self).connection.inner.active_ack_awaiters.count() + 1,
            r@[r@.len() - 1] is NotifyDisconnected,
            forall|i: int|
                0 <= i < r@.len() - 1 ==> ((#[trigger] r@[i]) matches SessionAction::FailAwaiter {
                    failed_slot,
                    fail_error,
                } && fail_error == SocketIoClientError::ConnectionLost && failed_slot == old(self).connection.inner.active_ack_awaiters.awaiters@[i].1.1),
    {
        let ghost pre_seq = self.connection.inner.active_ack_awaiters.awaiters@;
        let mut pairs = self.connection.fail_all_awaiters();
        let mut actions: Vec<SessionAction<T>> = Vec::new();
        while pairs.len() > 0
            invariant
                pairs@.len() <= pre_seq.len(),
                pairs@ == pre_seq.subrange(0, pairs@.len() as int),
                actions@.len() == pre_seq.len() - pairs@.len(),
                forall|a: int|
                    0 <= a < actions@.len() ==> ((#[trigger] actions@[a]) matches
                        SessionAction::FailAwaiter { failed_slot, fail_error } && fail_error
                        == SocketIoClientError::ConnectionLost && failed_slot == pre_seq[pairs@.len()
                        + a].1.1),
            decreases pairs@.len(),
        {
            let ghost actions_before = actions@;
            let ghost np = pairs@.len() as int;
            if let Some(e) = pairs.pop() {
                proof {
                    assert(e == pre_seq[np - 1]);
                    assert(pairs@ =~= pre_seq.subrange(0, np - 1));
                }
                actions.insert(
                    0,
                    SessionAction::FailAwaiter {
                        failed_slot: e.1.1,
                        fail_error: SocketIoClientError::ConnectionLost,
                    },
                );
                proof {
                    assert forall|a: int|
                        0 <= a < actions@.len() implies ((#[trigger] actions@[a]) matches
                            SessionAction::FailAwaiter { failed_slot, fail_error } && fail_error
                            == SocketIoClientError::ConnectionLost && failed_slot
                            == pre_seq[pairs@.len() + a].1.1) by {
                        if a > 0 {
                            assert(actions@[a] == actions_before[a - 1]);
                        }
                    }
                }
            } else {
                proof {
                    assert(false);
                }
            }
        }
        actions.push(SessionAction::NotifyDisconnected);
        self.state = SessionState::Closing;
        self.handshake_response = None;
        self.connection.inner.sid = None;
        actions
    }

    /// The transport reported loss of the connection.
    pub fn on_disconnected(&mut self) -> (r: Vec<SessionAction<T>>)
        requires
            old(self).wf(),
        ensures
            final(self).wf(),
            old(self).state != SessionState::Closing && old(self).state != SessionState::Closed
                ==> final(self).state == SessionState::Closing && final(self).connection.inner.active_ack_awaiters.count() == 0 && final(self).handshake_response is None && final(self).connection.inner.sid is None && r@.len() == old(self).connection.inner.active_ack_awaiters.count() + 1 && r@[r@.len() - 1]
                is NotifyDisconnected && forall|i: int|
                0 <= i < r@.len() - 1 ==> ((#[trigger] r@[i]) matches SessionAction::FailAwaiter {
                    failed_slot,
                    fail_error,
                } && fail_error == SocketIoClientError::ConnectionLost && failed_slot == old(self).connection.inner.active_ack_awaiters.awaiters@[i].1.1),
            old(self).state == SessionState::Closing || old(self).state == SessionState::Closed
                ==> r@.len() == 0 && *final(self) == *old(self),
    {
        if matches!(self.state, SessionState::Closing) || matches!(self.state, SessionState::Closed)
        {
            Vec::new()
        } else {
            self.close_session()
        }
    }

    /// The session is fully shut down.
    pub fn close_complete(&mut self)
        requires
            old(self).wf(),
            old(self).state == SessionState::Closing,
        ensures
            final(self).wf(),
            final(self).state == SessionState::Closed,
            final(self).connection == old(self).connection,
    {
        self.state = SessionState::Closed;
    }

    /// The heartbeat deadline has passed: fatal, treated as a disconnect.
    pub fn on_heartbeat_timeout(&mut self) -> (r: Vec<SessionAction<T>>)
        requires
            old(self).wf(),
        ensures
            final(self).wf(),
            old(self).state != SessionState::Closing && old(self).state != SessionState::Closed
                ==> final(self).state == SessionState::Closing && final(self).connection.inner.active_ack_awaiters.count() == 0 && final(self).handshake_response is None && final(self).connection.inner.sid is None && r@.len() == old(self).connection.inner.active_ack_awaiters.count() + 1 && r@[r@.len() - 1]
                is NotifyDisconnected && forall|i: int|
                0 <= i < r@.len() - 1 ==> ((#[trigger] r@[i]) matches SessionAction::FailAwaiter {
                    failed_slot,
                    fail_error,
                } && fail_error == SocketIoClientError::ConnectionLost && failed_slot == old(self).connection.inner.active_ack_awaiters.awaiters@[i].1.1),
            old(self).state == SessionState::Closing || old(self).state == SessionState::Closed
                ==> r@.len() == 0 && *final(self) == *old(self),
    {
        self.on_disconnected()
    }

    /// Whether the liveness deadline `pingInterval + pingTimeout` since the
    /// last inbound frame has been exceeded.
    pub fn heartbeat_expired(&self, last_inbound_ms: u64, now_ms: u64) -> (r: bool)
        ensures
            r == (self.handshake_response is Some && now_ms > last_inbound_ms && now_ms
                - last_inbound_ms > self.handshake_response->0.ping_interval
                + self.handshake_response->0.ping_timeout),
    {
        match &self.handshake_response {
            Some(h) => {
                if now_ms <= last_inbound_ms {
                    false
                } else {
                    let elapsed = now_ms - last_inbound_ms;
                    if elapsed <= h.ping_interval {
                        false
                    } else {
                        elapsed - h.ping_interval > h.ping_timeout
                    }
                }
            },
            None => false,
        }
    }

    /// Whether events on this namespace are suppressed.
    fn is_namespace_dead(&self, ns: &[u8]) -> (r: bool)
        ensures
            r == self.spec_namespace_dead(ns@),
    {
        let n = self.dead_namespaces.len();
        let mut k: usize = 0;
        while k < n
            invariant
                0 <= k <= n,
                n == self.dead_namespaces@.len(),
                forall|a: int| 0 <= a < k ==> (#[trigger] self.dead_namespaces@[a])@ != ns@,
            decreases n - k,
        {
            if bytes_eq(vstd::std_specs::vec::vec_index(&self.dead_namespaces, k).as_slice(), ns) {
                return true;
            }
            k += 1;
        }
        false
    }

    /// Marks a namespace as refused or disconnected.
    fn mark_namespace_dead(&mut self, ns: &[u8])
        ensures
            forall|x: Seq<u8>|
                final(self).spec_namespace_dead(x) == (old(self).spec_namespace_dead(x) || x
                    == ns@),
            final(self).state == old(self).state,
            final(self).connection == old(self).connection,
            final(self).handshake_response == old(self).handshake_response,
    {
        let ghost pre = self.dead_namespaces@;
        self.dead_namespaces.push(slice_to_vec(ns));
        proof {
            assert forall|x: Seq<u8>|
                self.spec_namespace_dead(x) == (in_list(pre, x) || x == ns@) by {
                if in_list(pre, x) {
                    let a = choose|a: int| 0 <= a < pre.len() && (#[trigger] pre[a])@ == x;
                    assert(self.dead_namespaces@[a] == pre[a]);
                    assert(in_list(self.dead_namespaces@, x));
                }
                if x == ns@ {
                    assert((self.dead_namespaces@[self.dead_namespaces@.len() - 1])@ == x);
                    assert(in_list(self.dead_namespaces@, x));
                }
                if in_list(self.dead_namespaces@, x) {
                    let a = choose|a: int|
                        0 <= a < self.dead_namespaces@.len() && (
                        #[trigger] self.dead_namespaces@[a])@ == x;
                    if a < pre.len() {
                        assert(pre[a] == self.dead_namespaces@[a]);
                        assert(in_list(pre, x));
                    }
                }
            }
        }
    }

    /// The server confirmed a fresh join: the namespace is live again.
    fn revive_namespace(&mut self, ns: &[u8])
        ensures
            forall|x: Seq<u8>|
                final(self).spec_namespace_dead(x) == (old(self).spec_namespace_dead(x) && x
                    != ns@),
            final(self).state == old(self).state,
            final(self).connection == old(self).connection,
            final(self).handshake_response == old(self).handshake_response,
    {
        let ghost pre = self.dead_namespaces@;
        let mut rest: Vec<Vec<u8>> = Vec::new();
        core::mem::swap(&mut rest, &mut self.dead_namespaces);
        while rest.len() > 0
            invariant
                rest@.len() <= pre.len(),
                rest@ == pre.subrange(0, rest@.len() as int),
                self.state == old(self).state,
                self.connection == old(self).connection,
                self.handshake_response == old(self).handshake_response,
                forall|a: int|
                    0 <= a < self.dead_namespaces@.len() ==> (
                    #[trigger] self.dead_namespaces@[a])@ != ns@,
                forall|a: int|
                    0 <= a < self.dead_namespaces@.len() ==> in_list(
                        pre,
                        (#[trigger] self.dead_namespaces@[a])@,
                    ),
                forall|j: int|
                    rest@.len() <= j < pre.len() && (#[trigger] pre[j])@ != ns@ ==> in_list(
                        self.dead_namespaces@,
                        pre[j]@,
                    ),
            decreases rest@.len(),
        {
            let ghost np = rest@.len() as int;
            let ghost kept_before = self.dead_namespaces@;
            if let Some(e) = rest.pop() {
                proof {
                    assert(e == pre[np - 1]);
                    assert(rest@ =~= pre.subrange(0, np - 1));
                }
                if !bytes_eq(e.as_slice(), ns) {
                    self.dead_namespaces.push(e);
                    proof {
                        assert((self.dead_namespaces@[self.dead_namespaces@.len() - 1])@
                            == pre[np - 1]@);
                        assert(in_list(pre, pre[np - 1]@));
                        assert forall|j: int|
                            np - 1 <= j < pre.len() && (#[trigger] pre[j])@ != ns@ implies in_list(
                            self.dead_namespaces@,
                            pre[j]@,
                        ) by {
                            if j == np - 1 {
                                assert(in_list(self.dead_namespaces@, pre[j]@));
                            } else {
                                let a = choose|a: int|
                                    0 <= a < kept_before.len() && (#[trigger] kept_before[a])@
                                        == pre[j]@;
                                assert(self.dead_namespaces@[a] == kept_before[a]);
                                assert(in_list(self.dead_namespaces@, pre[j]@));
                            }
                        }
                    }
                }
            } else {
                proof {
                    assert(false);
                }
            }
        }
        proof {
            assert forall|x: Seq<u8>|
                self.spec_namespace_dead(x) == (in_list(pre, x) && x != ns@) by {
                if in_list(self.dead_namespaces@, x) {
                    let a = choose|a: int|
                        0 <= a < self.dead_namespaces@.len() && (
                        #[trigger] self.dead_namespaces@[a])@ == x;
                }
                if in_list(pre, x) && x != ns@ {
                    let j = choose|j: int| 0 <= j < pre.len() && (#[trigger] pre[j])@ == x;
                    assert(in_list(self.dead_namespaces@, pre[j]@));
                }
            }
        }
    }

    /// Handles one parsed inbound packet.
    ///
    /// The liveness reply comes first: a PING is answered by a PONG with
    /// the same probe flag before any other outbound frame, and a probe
    /// PING's reply is followed by UPGRADE; a received PONG is accepted
    /// silently.  No subscriber is invoked unless the session is already
    /// open, and none on a namespace the server has refused or
    /// disconnected.  An ACK for an unknown id is dropped with a warning
    /// and changes nothing.
    pub fn handle_socket_io_contract<S>(
        &mut self,
        contract: SocketIoContract,
        subscribers: &EventSubscribers<S>,
    ) -> (r: Vec<SessionAction<T>>)
        requires
            old(self).wf(),
            subscribers.wf(),
        ensures
            final(self).wf(),
            // a PING is answered by a PONG with the same flag first
            contract@ matches ContractView::Ping { with_probe } ==> (*final(self) == *old(self)
                && r@.len() == (if with_probe { 2int } else { 1int })
                && (r@[0] matches SessionAction::SendFrame { frame } && frame@ == ser_contract(
                    ContractView::Pong { with_probe },
                ))
                && (with_probe ==> (r@[1] matches SessionAction::SendFrame { frame } && frame@
                    == ser_contract(ContractView::Upgrade)))),
            // a received PONG is accepted silently, probe or not: UPGRADE
            // follows only the client's own probe-PONG reply to a PING
            contract@ matches ContractView::Pong { with_probe } ==> r@.len() == 0 && *final(self)
                == *old(self),
            // no handler is invoked before the handshake OPEN is processed
            old(self).state != SessionState::Open ==> forall|i: int|
                0 <= i < r@.len() ==> !((#[trigger] r@[i]) is InvokeSubscriber),
            // the handshake OPEN is adopted exactly once, in HandshakePending;
            // an OPEN without a sid is a failed handshake frame and is dropped
            contract@ matches ContractView::Open(m) ==> ((old(self).state
                == SessionState::HandshakePending && m.sid.len() > 0 ==> final(self).state == SessionState::Open
                && final(self).connection.inner.sid is Some
                && final(self).connection.inner.sid->0@ == m.sid
                && final(self).handshake_response is Some
                && final(self).handshake_response->0@ == m
                && final(self).connection.inner.ack_id == old(self).connection.inner.ack_id
                && final(self).connection.inner.active_ack_awaiters == old(self).connection.inner.active_ack_awaiters
                && r@.len() >= 1 && r@[r@.len() - 1] is NotifyConnected
                && (forall|i: int|
                    0 <= i < r@.len() - 1 ==> ((#[trigger] r@[i]) matches
                        SessionAction::SendFrame { frame } && connect_frame_for(
                        subscribers,
                        frame@,
                    )))
                && (forall|ns: Seq<u8>|
                    #[trigger] subscribers.spec_has_namespace(ns) ==> exists|i: int|
                        0 <= i < r@.len() - 1 && action_sends_frame(
                            #[trigger] r@[i],
                            ser_contract(
                                ContractView::Message(
                                    MessageView::Connect { namespace: ns, sid: Option::None },
                                ),
                            ),
                        ))
                && (forall|i: int, j: int, f: Seq<u8>|
                    #![trigger action_sends_frame(r@[i], f), action_sends_frame(r@[j], f)]
                    0 <= i < j < r@.len() - 1 && action_sends_frame(r@[i], f)
                        ==> !action_sends_frame(r@[j], f))
                && final(self).dead_namespaces == old(self).dead_namespaces)
                && (old(self).state == SessionState::HandshakePending && m.sid.len() == 0
                    ==> r@.len() == 0 && *final(self) == *old(self))
                && (old(self).state != SessionState::HandshakePending ==> r@.len() == 0
                    && *final(self) == *old(self))),
            // CLOSE fails every parked ack and notifies the user once
            contract@ == ContractView::Close ==> ((old(self).state != SessionState::Closing
                && old(self).state != SessionState::Closed ==> final(self).state
                == SessionState::Closing
                && final(self).connection.inner.active_ack_awaiters.count() == 0
                && final(self).handshake_response is None
                && final(self).connection.inner.sid is None
                && r@.len() == old(self).connection.inner.active_ack_awaiters.count() + 1
                && r@[r@.len() - 1] is NotifyDisconnected
                && forall|i: int|
                    0 <= i < r@.len() - 1 ==> ((#[trigger] r@[i]) matches
                        SessionAction::FailAwaiter { failed_slot, fail_error } && fail_error
                        == SocketIoClientError::ConnectionLost && failed_slot == old(self).connection.inner.active_ack_awaiters.awaiters@[i].1.1))
                && (old(self).state == SessionState::Closing || old(self).state
                    == SessionState::Closed ==> r@.len() == 0 && *final(self) == *old(self))),
            // UPGRADE and NOOP change nothing
            contract@ == ContractView::Upgrade || contract@ == ContractView::Noop ==> r@.len() == 0
                && *final(self) == *old(self),
            // a message before the session is open is dropped
            old(self).state != SessionState::Open ==> (contract@ matches ContractView::Message(
                msg,
            ) ==> r@.len() == 0 && *final(self) == *old(self)),
            // namespace join confirmed: the namespace is live again
            old(self).state == SessionState::Open ==> (contract@ matches ContractView::Message(
                MessageView::Connect { namespace: ns_v, sid: sid_v },
            ) ==> final(self).state == old(self).state && final(self).connection == old(
                self,
            ).connection && final(self).handshake_response == old(self).handshake_response && (
            forall|x: Seq<u8>|
                final(self).spec_namespace_dead(x) == (old(self).spec_namespace_dead(x) && x
                    != ns_v)) && r@.len() == 1 && (r@[0] matches
                SessionAction::NamespaceJoined { joined_namespace } && joined_namespace@ == ns_v)),
            // namespace disconnect: every awaiter on that namespace fails
            // exactly once, the namespace goes dead, others are untouched
            old(self).state == SessionState::Open ==> (contract@ matches ContractView::Message(
                MessageView::Disconnect { namespace: ns_v },
            ) ==> final(self).state == SessionState::Open
                && final(self).handshake_response == old(self).handshake_response
                && final(self).spec_namespace_dead(ns_v)
                && (forall|x: Seq<u8>|
                    x != ns_v ==> final(self).spec_namespace_dead(x) == old(
                        self,
                    ).spec_namespace_dead(x))
                && (forall|k: u64| !final(self).connection.inner.spec_parked(ns_v, k))
                && (forall|ns2: Seq<u8>, k: u64|
                    ns2 != ns_v ==> final(self).connection.inner.spec_parked(ns2, k) == old(self).connection.inner.spec_parked(ns2, k))
                && (forall|i: int|
                    0 <= i < r@.len() ==> ((#[trigger] r@[i]) matches
                        SessionAction::FailAwaiter { failed_slot, fail_error } && fail_error
                        == SocketIoClientError::NamespaceDisconnected))
                && (forall|k: u64|
                    old(self).connection.inner.spec_parked(ns_v, k) ==> exists|i: int|
                        0 <= i < r@.len() && ((#[trigger] r@[i]) matches
                            SessionAction::FailAwaiter { failed_slot, fail_error } && failed_slot
                            == old(self).connection.inner.spec_slot(k)))),
            // events go to the registered subscriber, unless the namespace
            // was refused or disconnected; otherwise they are dropped
            old(self).state == SessionState::Open ==> (contract@ matches ContractView::Message(
                MessageView::Event { namespace: ns_v, event_name: ev_v, data: data_v, ack: ack_v },
            ) ==> *final(self) == *old(self)
                && (subscribers.spec_contains(ns_v, ev_v) && !old(self).spec_namespace_dead(ns_v)
                    ==> r@.len() == 1 && (r@[0] matches
                    SessionAction::InvokeSubscriber {
                        event_namespace,
                        event_name,
                        event_data,
                        event_ack,
                    } && event_namespace@ == ns_v && event_name@ == ev_v && event_data@ == data_v
                    && event_ack == ack_v))
                && (!subscribers.spec_contains(ns_v, ev_v) || old(self).spec_namespace_dead(ns_v)
                    ==> r@.len() == 0)),
            // an ACK resolves exactly its awaiter; an unknown id is dropped
            old(self).state == SessionState::Open ==> (contract@ matches ContractView::Message(
                MessageView::Ack { namespace: ns_v, data: data_v, ack: ack_v },
            ) ==> final(self).state == SessionState::Open
                && (old(self).connection.inner.spec_parked(ns_v, ack_v) ==> r@.len() == 1
                    && (r@[0] matches SessionAction::CompleteAck { completed_slot, ack_data }
                        && completed_slot == old(self).connection.inner.spec_slot(ack_v)
                        && ack_data@ == data_v)
                    && !final(self).connection.inner.active_ack_awaiters.spec_contains(ack_v))
                && (!old(self).connection.inner.spec_parked(ns_v, ack_v) ==> r@.len() == 1
                    && (r@[0] matches SessionAction::WarnUnknownAck { unknown_ack } && unknown_ack
                        == ack_v)
                    && (forall|k: u64|
                        final(self).connection.inner.active_ack_awaiters.spec_contains(k) == old(self).connection.inner.active_ack_awaiters.spec_contains(k)))
                && (forall|k: u64|
                    k != ack_v ==> final(self).connection.inner.active_ack_awaiters.spec_contains(k) == old(self).connection.inner.active_ack_awaiters.spec_contains(k))),
            // a refused namespace join surfaces its message and kills the
            // namespace: no subscriber on it will fire
            old(self).state == SessionState::Open ==> (contract@ matches ContractView::Message(
                MessageView::ConnectError { namespace: ns_v, message: msg_v },
            ) ==> final(self).state == old(self).state && final(self).connection == old(
                self,
            ).connection && final(self).handshake_response == old(self).handshake_response
                && final(self).spec_namespace_dead(ns_v)
                && (forall|x: Seq<u8>|
                    x != ns_v ==> final(self).spec_namespace_dead(x) == old(
                        self,
                    ).spec_namespace_dead(x))
                && r@.len() == 1 && (r@[0] matches
                SessionAction::NamespaceConnectFailed { failed_namespace, error_message }
                && failed_namespace@ == ns_v && error_message@ == msg_v)),
            // binary payloads are preserved by the codec but not dispatched
            old(self).state == SessionState::Open ==> (contract@ matches ContractView::Message(
                MessageView::BinaryEvent { raw },
            ) ==> r@.len() == 0 && *final(self) == *old(self)),
            old(self).state == SessionState::Open ==> (contract@ matches ContractView::Message(
                MessageView::BinaryAck { raw },
            ) ==> r@.len() == 0 && *final(self) == *old(self)),
    {
        match contract {
            SocketIoContract::Ping { with_probe } => {
                let mut actions: Vec<SessionAction<T>> = Vec::new();
                let pong = serialize_contract(&SocketIoContract::Pong { with_probe });
                actions.push(SessionAction::SendFrame { frame: pong });
                if with_probe {
                    let upgrade = serialize_contract(&SocketIoContract::Upgrade);
                    actions.push(SessionAction::SendFrame { frame: upgrade });
                }
                actions
            },
            SocketIoContract::Pong { with_probe } => Vec::new(),
            SocketIoContract::Open(model) => {
                if matches!(self.state, SessionState::HandshakePending) && model.sid.len() > 0 {
                    let sid_copy = slice_to_vec(model.sid.as_slice());
                    self.connection.set_sid(sid_copy);
                    self.handshake_response = Some(model);
                    let namespaces = subscribers.get_namespaces();
                    let frames = self.connection.subscribe_to_namespaces(&namespaces);
                    proof {
                        assert forall|a: int|
                            0 <= a < frames@.len() implies connect_frame_for(
                            subscribers,
                            (#[trigger] frames@[a])@,
                        ) by {
                            let ns0 = namespaces@[a]@;
                            assert(subscribers.spec_has_namespace(ns0));
                            assert(frames@[a]@ == ser_contract(
                                ContractView::Message(
                                    MessageView::Connect { namespace: ns0, sid: Option::None },
                                ),
                            ));
                        }
                    }
                    let mut actions: Vec<SessionAction<T>> = Vec::new();
                    let n = frames.len();
                    let mut i: usize = 0;
                    while i < n
                        invariant
                            0 <= i <= n,
                            n == frames@.len(),
                            actions@.len() == i,
                            forall|a: int|
                                0 <= a < frames@.len() ==> connect_frame_for(
                                    subscribers,
                                    (#[trigger] frames@[a])@,
                                ),
                            forall|a: int|
                                0 <= a < i ==> ((#[trigger] actions@[a]) matches
                                    SessionAction::SendFrame { frame } && connect_frame_for(
                                    subscribers,
                                    frame@,
                                )),
                            forall|a: int|
                                0 <= a < i ==> action_sends_frame(
                                    #[trigger] actions@[a],
                                    frames@[a]@,
                                ),
                        decreases n - i,
                    {
                        let frame = slice_to_vec(
                            vstd::std_specs::vec::vec_index(&frames, i).as_slice(),
                        );
                        actions.push(SessionAction::SendFrame { frame });
                        i += 1;
                    }
                    let ghost sent = actions@;
                    actions.push(SessionAction::NotifyConnected);
                    proof {
                        assert forall|i: int, j: int, f: Seq<u8>|
                            #![trigger action_sends_frame(actions@[i], f),
                                action_sends_frame(actions@[j], f)]
                            0 <= i < j < actions@.len() - 1 && action_sends_frame(
                                actions@[i],
                                f,
                            ) implies !action_sends_frame(actions@[j], f) by {
                            if action_sends_frame(actions@[j], f) {
                                assert(actions@[i] == sent[i]);
                                assert(actions@[j] == sent[j]);
                                assert(f == frames@[i]@);
                                assert(f == frames@[j]@);
                                crate::codec_laws::lemma_connect_frame_injective(
                                    namespaces@[i]@,
                                    namespaces@[j]@,
                                );
                                assert((namespaces@[i])@ != (namespaces@[j])@);
                            }
                        }
                    }
                    proof {
                        assert forall|ns: Seq<u8>|
                            #[trigger] subscribers.spec_has_namespace(ns) implies exists|i: int|
                            0 <= i < actions@.len() - 1 && action_sends_frame(
                                #[trigger] actions@[i],
                                ser_contract(
                                    ContractView::Message(
                                        MessageView::Connect { namespace: ns, sid: Option::None },
                                    ),
                                ),
                            ) by {
                            assert(crate::event_subscribers::in_list(namespaces@, ns));
                            let j = choose|j: int|
                                0 <= j < namespaces@.len() && (#[trigger] namespaces@[j])@ == ns;
                            assert(frames@[j]@ == ser_contract(
                                ContractView::Message(
                                    MessageView::Connect { namespace: ns, sid: Option::None },
                                ),
                            ));
                            assert(actions@[j] == sent[j]);
                            assert(action_sends_frame(actions@[j], frames@[j]@));
                        }
                    }
                    self.state = SessionState::Open;
                    actions
                } else {
                    Vec::new()
                }
            },
            SocketIoContract::Close => {
                if matches!(self.state, SessionState::Closing) || matches!(
                    self.state,
                    SessionState::Closed,
                ) {
                    Vec::new()
                } else {
                    self.close_session()
                }
            },
            SocketIoContract::Upgrade => Vec::new(),
            SocketIoContract::Noop => Vec::new(),
            SocketIoContract::Message(msg) => {
                if !matches!(self.state, SessionState::Open) {
                    return Vec::new();
                }
                match msg {
                    SocketIoMessage::Connect { namespace, sid } => {
                        self.revive_namespace(namespace.as_slice());
                        let mut actions: Vec<SessionAction<T>> = Vec::new();
                        actions.push(SessionAction::NamespaceJoined { joined_namespace: namespace });
                        actions
                    },
                    SocketIoMessage::Disconnect { namespace } => {
                        let mut pairs = self.connection.fail_namespace_awaiters(&namespace);
                        let ghost drained = pairs@;
                        let mut actions: Vec<SessionAction<T>> = Vec::new();
                        while pairs.len() > 0
                            invariant
                                pairs@.len() <= drained.len(),
                                pairs@ == drained.subrange(0, pairs@.len() as int),
                                forall|a: int|
                                    0 <= a < actions@.len() ==> ((#[trigger] actions@[a]) matches
                                        SessionAction::FailAwaiter { failed_slot, fail_error }
                                        && fail_error
                                        == SocketIoClientError::NamespaceDisconnected),
                                forall|j: int|
                                    pairs@.len() <= j < drained.len() ==> exists|a: int|
                                        0 <= a < actions@.len() && ((#[trigger] actions@[a])
                                        matches SessionAction::FailAwaiter {
                                            failed_slot,
                                            fail_error,
                                        } && failed_slot == (#[trigger] drained[j]).1.1),
                            decreases pairs@.len(),
                        {
                            let ghost actions_before = actions@;
                            let ghost np = pairs@.len() as int;
                            if let Some(e) = pairs.pop() {
                                proof {
                                    assert(e == drained[np - 1]);
                                    assert(pairs@ =~= drained.subrange(0, np - 1));
                                }
                                actions.push(
                                    SessionAction::FailAwaiter {
                                        failed_slot: e.1.1,
                                        fail_error: SocketIoClientError::NamespaceDisconnected,
                                    },
                                );
                                proof {
                                    assert forall|a: int|
                                        0 <= a < actions@.len() implies ((#[trigger] actions@[a])
                                        matches SessionAction::FailAwaiter {
                                        failed_slot,
                                        fail_error,
                                    } && fail_error
                                        == SocketIoClientError::NamespaceDisconnected) by {
                                        if a < actions@.len() - 1 {
                                            assert(actions@[a] == actions_before[a]);
                                        }
                                    }
                                    assert forall|j: int|
                                        np - 1 <= j < drained.len() implies exists|a: int|
                                        0 <= a < actions@.len() && ((#[trigger] actions@[a])
                                        matches SessionAction::FailAwaiter {
                                            failed_slot,
                                            fail_error,
                                        } && failed_slot == (#[trigger] drained[j]).1.1) by {
                                        if j == np - 1 {
                                            let last = actions@.len() - 1;
                                            assert((actions@[last]) matches
                                                SessionAction::FailAwaiter {
                                                failed_slot,
                                                fail_error,
                                            } && failed_slot == drained[j].1.1);
                                        } else {
                                            let a = choose|a: int|
                                                0 <= a < actions_before.len() && ((
                                                #[trigger] actions_before[a]) matches
                                                SessionAction::FailAwaiter {
                                                    failed_slot,
                                                    fail_error,
                                                } && failed_slot == drained[j].1.1);
                                            assert(actions@[a] == actions_before[a]);
                                        }
                                    }
                                }
                            } else {
                                proof {
                                    assert(false);
                                }
                            }
                        }
                        self.mark_namespace_dead(namespace.as_slice());
                        proof {
                            assert forall|k: u64|
                                old(self).connection.inner.spec_parked(
                                    namespace@,
                                    k,
                                ) implies exists|i: int|
                                0 <= i < actions@.len() && ((#[trigger] actions@[i]) matches
                                    SessionAction::FailAwaiter { failed_slot, fail_error }
                                    && failed_slot == old(self).connection.inner.spec_slot(
                                        k,
                                    )) by {
                                let j = choose|j: int|
                                    0 <= j < drained.len() && (#[trigger] drained[j]).0 == k;
                                assert(drained[j].1 == old(
                                    self,
                                ).connection.inner.active_ack_awaiters.spec_get(k));
                                assert(exists|a: int|
                                    0 <= a < actions@.len() && ((#[trigger] actions@[a]) matches
                                        SessionAction::FailAwaiter { failed_slot, fail_error }
                                        && failed_slot == drained[j].1.1));
                            }
                        }
                        actions
                    },
                    SocketIoMessage::Event { namespace, event_name, data, ack } => {
                        let mut actions: Vec<SessionAction<T>> = Vec::new();
                        if self.is_namespace_dead(namespace.as_slice()) {
                            return actions;
                        }
                        match subscribers.get(namespace.as_slice(), event_name.as_slice()) {
                            Some(_) => {
                                actions.push(
                                    SessionAction::InvokeSubscriber {
                                        event_namespace: namespace,
                                        event_name,
                                        event_data: data,
                                        event_ack: ack,
                                    },
                                );
                            },
                            None => {},
                        }
                        actions
                    },
                    SocketIoMessage::Ack { namespace, data, ack } => {
                        let mut actions: Vec<SessionAction<T>> = Vec::new();
                        match self.connection.handle_ack_event(&namespace, ack) {
                            Some(slot) => {
                                actions.push(
                                    SessionAction::CompleteAck {
                                        completed_slot: slot,
                                        ack_data: data,
                                    },
                                );
                            },
                            None => {
                                actions.push(SessionAction::WarnUnknownAck { unknown_ack: ack });
                            },
                        }
                        actions
                    },
                    SocketIoMessage::ConnectError { namespace, message } => {
                        self.mark_namespace_dead(namespace.as_slice());
                        let mut actions: Vec<SessionAction<T>> = Vec::new();
                        actions.push(
                            SessionAction::NamespaceConnectFailed {
                                failed_namespace: namespace,
                                error_message: message,
                            },
                        );
                        actions
                    },
                    SocketIoMessage::BinaryEvent { raw } => Vec::new(),
                    SocketIoMessage::BinaryAck { raw } => Vec::new(),
                }
            },
        }
    }
}

} // verus!
