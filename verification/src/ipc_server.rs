//! The IPC server's protocol state machine. It holds who is connected, who
//! subscribed to what, and the requests that wait for the writer; it decides
//! what is sent to whom and in which order. Reading and writing sockets is
//! left to the caller, who hands in frames and sends what comes back, in the
//! order in which it comes back.

use vstd::prelude::*;
use crate::app_command::{
    command_fault, events_of_command, ledger_after_command, run_command, tree_after_command,
    InvokeCommand,
};
use crate::container::{ContainerKind, ROOT};
use crate::error::{ConnectionFault, ProtocolFault, WmError};
use crate::snapshot::{records_of_kind, snapshot, ContainerRecord};
use crate::user_config::UserConfig;
use crate::wire::{decode, decode_request};
use crate::wm_event::{EventFilter, WmEvent};
use crate::wm_state::WmState;

verus! {

/// A request of a client.
#[derive(Clone, Copy, Debug, PartialEq, Eq, Structural)]
pub enum IpcMessage {
    /// Asks for the monitors.
    Monitors,
    /// Asks for the windows.
    Windows,
    /// Asks for a command to be run.
    InvokeCommand(InvokeCommand),
    /// Registers the connection for the events that pass the filter.
    Subscribe(EventFilter),
}

/// Identifier of a connection: its number in the order of acceptance.
pub type ConnectionId = usize;

/// What the server knows of one connection.
#[derive(Clone, Copy, Debug, PartialEq, Eq)]
pub struct Connection {
    /// Whether the connection is still there.
    pub open: bool,
    /// The filter it subscribed with, if it subscribed.
    pub subscription: Option<EventFilter>,
}

/// A request that waits for the writer.
#[derive(Clone, Copy, Debug, PartialEq, Eq)]
pub struct Request {
    pub conn: ConnectionId,
    pub message: IpcMessage,
}

/// A message from the server to a client.
#[derive(Clone, Debug, PartialEq, Eq)]
pub enum ServerMessage {
    /// Reply to `Monitors`.
    Monitors(Vec<ContainerRecord>),
    /// Reply to `Windows`.
    Windows(Vec<ContainerRecord>),
    /// The command ran.
    CommandAck,
    /// The command was refused.
    CommandFailed(WmError),
    /// The subscription is registered.
    Subscribed,
    /// A change that a subscriber is told of.
    Event(WmEvent),
    /// The request was dropped because the server stopped.
    Cancelled,
}

/// Mathematical model of a [`ServerMessage`].
pub enum ServerMessageView {
    Monitors(Seq<ContainerRecord>),
    Windows(Seq<ContainerRecord>),
    CommandAck,
    CommandFailed(WmError),
    Subscribed,
    Event(WmEvent),
    Cancelled,
}

impl View for ServerMessage {
    type V = ServerMessageView;

    open spec fn view(&self) -> ServerMessageView {
        match *self {
            ServerMessage::Monitors(records) => ServerMessageView::Monitors(records@),
            ServerMessage::Windows(records) => ServerMessageView::Windows(records@),
            ServerMessage::CommandAck => ServerMessageView::CommandAck,
            ServerMessage::CommandFailed(e) => ServerMessageView::CommandFailed(e),
            ServerMessage::Subscribed => ServerMessageView::Subscribed,
            ServerMessage::Event(e) => ServerMessageView::Event(e),
            ServerMessage::Cancelled => ServerMessageView::Cancelled,
        }
    }
}

/// A message together with the connection it goes to.
#[derive(Clone, Debug, PartialEq, Eq)]
pub struct Outbound {
    pub conn: ConnectionId,
    pub message: ServerMessage,
}

/// Mathematical model of an [`Outbound`].
pub struct OutboundView {
    pub conn: ConnectionId,
    pub message: ServerMessageView,
}

impl View for Outbound {
    type V = OutboundView;

    open spec fn view(&self) -> OutboundView {
        OutboundView { conn: self.conn, message: self.message@ }
    }
}

/// The models of a sequence of outbound messages, in their order.
pub open spec fn outbound_views(s: Seq<Outbound>) -> Seq<OutboundView> {
    s.map_values(|o: Outbound| o@)
}

/// Whether a connection is registered.
pub open spec fn is_connected(conns: Seq<Connection>, id: ConnectionId) -> bool {
    id < conns.len() && conns[id as int].open
}

/// The filter a connection subscribed with; `None` if it did not subscribe
/// or is not registered.
pub open spec fn subscription_of(conns: Seq<Connection>, id: ConnectionId) -> Option<EventFilter> {
    if is_connected(conns, id) {
        conns[id as int].subscription
    } else {
        None
    }
}

/// The waiting requests without those of one connection, in their order.
pub open spec fn without_requests_of(pending: Seq<Request>, id: ConnectionId) -> Seq<Request>
    decreases pending.len(),
{
    if pending.len() == 0 {
        Seq::empty()
    } else {
        let front = without_requests_of(pending.drop_last(), id);
        if pending.last().conn == id {
            front
        } else {
            front.push(pending.last())
        }
    }
}

/// The waiting requests of one connection, in their order.
pub open spec fn requests_of(pending: Seq<Request>, id: ConnectionId) -> Seq<IpcMessage>
    decreases pending.len(),
{
    if pending.len() == 0 {
        Seq::empty()
    } else {
        let front = requests_of(pending.drop_last(), id);
        if pending.last().conn == id {
            front.push(pending.last().message)
        } else {
            front
        }
    }
}

/// One event as it goes out: to every registered subscriber whose filter
/// admits it, in the order of the connections.
pub open spec fn fan_out_one(conns: Seq<Connection>, event: WmEvent) -> Seq<OutboundView>
    decreases conns.len(),
{
    if conns.len() == 0 {
        Seq::empty()
    } else {
        let front = fan_out_one(conns.drop_last(), event);
        let last = conns.last();
        if last.open && last.subscription is Some && last.subscription.unwrap().admits(event) {
            front.push(
                OutboundView {
                    conn: (conns.len() - 1) as usize,
                    message: ServerMessageView::Event(event),
                },
            )
        } else {
            front
        }
    }
}

/// A sequence of events as it goes out: one event after the other.
pub open spec fn fan_out(conns: Seq<Connection>, events: Seq<WmEvent>) -> Seq<OutboundView>
    decreases events.len(),
{
    if events.len() == 0 {
        Seq::empty()
    } else {
        fan_out(conns, events.drop_last()) + fan_out_one(conns, events.last())
    }
}

/// The messages that go to one connection, in their order.
pub open spec fn messages_for(out: Seq<OutboundView>, id: ConnectionId) -> Seq<ServerMessageView>
    decreases out.len(),
{
    if out.len() == 0 {
        Seq::empty()
    } else {
        let front = messages_for(out.drop_last(), id);
        if out.last().conn == id {
            front.push(out.last().message)
        } else {
            front
        }
    }
}

/// The events that a filter admits, in their order and each as the message
/// that carries it.
pub open spec fn admitted(events: Seq<WmEvent>, filter: EventFilter) -> Seq<ServerMessageView>
    decreases events.len(),
{
    if events.len() == 0 {
        Seq::empty()
    } else {
        let front = admitted(events.drop_last(), filter);
        if filter.admits(events.last()) {
            front.push(ServerMessageView::Event(events.last()))
        } else {
            front
        }
    }
}

/// The notices that waiting requests were dropped, one for each, in their
/// order.
pub open spec fn cancellations(pending: Seq<Request>) -> Seq<OutboundView> {
    pending.map_values(
        |r: Request| OutboundView { conn: r.conn, message: ServerMessageView::Cancelled },
    )
}

/// Mathematical model of the server.
pub struct IpcServerView {
    /// Whether connections and requests are still taken.
    pub accepting: bool,
    /// The connections in the order of acceptance; a connection's identifier
    /// is its position.
    pub connections: Seq<Connection>,
    /// The requests that wait for the writer, oldest first.
    pub pending: Seq<Request>,
    /// The most requests that may wait.
    pub capacity: usize,
}

/// The server's invariant: the connections can be counted, the queue is
/// within its bound, every waiting request belongs to a registered
/// connection, and a stopped server holds neither connections nor requests.
pub open spec fn server_wf(v: IpcServerView) -> bool {
    &&& v.connections.len() <= usize::MAX
    &&& v.pending.len() <= v.capacity
    &&& forall|k: int| 0 <= k < v.pending.len() ==> is_connected(v.connections, (#[trigger] v.pending[k]).conn)
    &&& !v.accepting ==> v.connections.len() == 0 && v.pending.len() == 0
}

/// The server after a connection went away: it is no longer registered, its
/// subscription is gone, and so are its waiting requests.
pub open spec fn disconnected(v: IpcServerView, id: ConnectionId) -> IpcServerView {
    if is_connected(v.connections, id) {
        IpcServerView {
            connections: v.connections.update(
                id as int,
                Connection { open: false, subscription: None },
            ),
            pending: without_requests_of(v.pending, id),
            ..v
        }
    } else {
        v
    }
}

/// What taking a frame from a connection does: the result, and the server
/// afterwards. A stopped server and an unknown connection are refused. A
/// frame that holds no request ends the connection it came on. A full queue
/// refuses the request and keeps everything as it is.
pub open spec fn receive_outcome(v: IpcServerView, conn: ConnectionId, frame: Seq<u8>) -> (
    Result<(), WmError>,
    IpcServerView,
) {
    if !v.accepting {
        (Err(WmError::Connection(ConnectionFault::ShuttingDown)), v)
    } else if !is_connected(v.connections, conn) {
        (Err(WmError::Connection(ConnectionFault::UnknownConnection)), v)
    } else {
        match decode_request(frame) {
            Err(f) => (Err(WmError::Protocol(f)), disconnected(v, conn)),
            Ok(message) => if v.pending.len() >= v.capacity {
                (Err(WmError::Connection(ConnectionFault::QueueFull)), v)
            } else {
                (Ok(()), IpcServerView { pending: v.pending.push(Request { conn, message }), ..v })
            },
        }
    }
}

/// Dropping the requests of a connection leaves only requests that waited
/// before, none of them of that connection, and no more than before.
pub proof fn lemma_without_requests_of(pending: Seq<Request>, id: ConnectionId)
    ensures
        without_requests_of(pending, id).len() <= pending.len(),
        forall|k: int|
            0 <= k < without_requests_of(pending, id).len() ==> {
                let r = #[trigger] without_requests_of(pending, id)[k];
                r.conn != id && pending.contains(r)
            },
    decreases pending.len(),
{
    if pending.len() > 0 {
        let front = pending.drop_last();
        lemma_without_requests_of(front, id);
        let kept = without_requests_of(pending, id);
        assert forall|k: int| 0 <= k < kept.len() implies {
            let r = #[trigger] kept[k];
            r.conn != id && pending.contains(r)
        } by {
            let r = kept[k];
            if k < without_requests_of(front, id).len() {
                let old_r = without_requests_of(front, id)[k];
                assert(front.contains(old_r));
                let j = choose|j: int| 0 <= j < front.len() && front[j] == old_r;
                assert(pending[j] == r);
            } else {
                assert(pending[pending.len() - 1] == r);
            }
        }
    }
}

/// A connection that goes away leaves every other connection as it was: its
/// registration, its subscription, and its waiting requests in their order.
pub proof fn lemma_disconnect_isolated(v: IpcServerView, gone: ConnectionId, other: ConnectionId)
    requires
        gone != other,
    ensures
        is_connected(disconnected(v, gone).connections, other) == is_connected(
            v.connections,
            other,
        ),
        subscription_of(disconnected(v, gone).connections, other) == subscription_of(
            v.connections,
            other,
        ),
        requests_of(disconnected(v, gone).pending, other) == requests_of(v.pending, other),
{
    lemma_requests_of_other(v.pending, gone, other);
}

/// The requests of one connection are the same with and without the
/// requests of another.
pub proof fn lemma_requests_of_other(pending: Seq<Request>, gone: ConnectionId, other: ConnectionId)
    requires
        gone != other,
    ensures
        requests_of(without_requests_of(pending, gone), other) == requests_of(pending, other),
    decreases pending.len(),
{
    if pending.len() > 0 {
        let front = pending.drop_last();
        lemma_requests_of_other(front, gone, other);
        if pending.last().conn != gone {
            let kept = without_requests_of(front, gone);
            assert(kept.push(pending.last()).drop_last() =~= kept);
        }
    }
}

/// A frame that holds no request, arriving on one connection, leaves every
/// other connection as it was.
pub proof fn lemma_malformed_frame_isolated(
    v: IpcServerView,
    sender: ConnectionId,
    frame: Seq<u8>,
    other: ConnectionId,
)
    requires
        sender != other,
        decode_request(frame) is Err,
    ensures
        is_connected(receive_outcome(v, sender, frame).1.connections, other) == is_connected(
            v.connections,
            other,
        ),
        subscription_of(receive_outcome(v, sender, frame).1.connections, other)
            == subscription_of(v.connections, other),
        requests_of(receive_outcome(v, sender, frame).1.pending, other) == requests_of(
            v.pending,
            other,
        ),
{
    lemma_disconnect_isolated(v, sender, other);
}

/// The messages for one connection in two batches, one sent after the
/// other, are those of the first and then those of the second.
pub proof fn lemma_messages_for_concat(
    a: Seq<OutboundView>,
    b: Seq<OutboundView>,
    id: ConnectionId,
)
    ensures
        messages_for(a + b, id) == messages_for(a, id) + messages_for(b, id),
    decreases b.len(),
{
    if b.len() == 0 {
        assert(a + b =~= a);
        assert(messages_for(a, id) + messages_for(b, id) =~= messages_for(a, id));
    } else {
        assert((a + b).drop_last() =~= a + b.drop_last());
        assert((a + b).last() == b.last());
        lemma_messages_for_concat(a, b.drop_last(), id);
        if b.last().conn == id {
            assert(messages_for(a, id) + messages_for(b.drop_last(), id).push(b.last().message)
                =~= (messages_for(a, id) + messages_for(b.drop_last(), id)).push(
                b.last().message,
            ));
        }
    }
}

/// One event goes to a connection exactly if the connection is registered
/// and subscribed with a filter that admits the event, and then once.
pub proof fn lemma_fan_out_one_for(conns: Seq<Connection>, event: WmEvent, id: ConnectionId)
    requires
        conns.len() <= usize::MAX,
    ensures
        messages_for(fan_out_one(conns, event), id) == (if subscription_of(conns, id) is Some
            && subscription_of(conns, id).unwrap().admits(event) {
            seq![ServerMessageView::Event(event)]
        } else {
            Seq::empty()
        }),
        forall|k: int|
            0 <= k < fan_out_one(conns, event).len() ==> (#[trigger] fan_out_one(
                conns,
                event,
            )[k]).conn < conns.len(),
    decreases conns.len(),
{
    if conns.len() > 0 {
        let front = conns.drop_last();
        let last_id = (conns.len() - 1) as usize;
        lemma_fan_out_one_for(front, event, id);
        let sent_front = fan_out_one(front, event);
        let sent = fan_out_one(conns, event);
        if id < front.len() {
            assert(front[id as int] == conns[id as int]);
        }
        assert(subscription_of(front, id) == (if id == last_id {
            None
        } else {
            subscription_of(conns, id)
        }));
        if id == last_id {
            lemma_none_for_absent(sent_front, id);
        }
        if sent.len() > sent_front.len() {
            assert(sent.drop_last() =~= sent_front);
        }
    }
}

/// A batch in which no message goes to a connection holds no message for it.
pub proof fn lemma_none_for_absent(out: Seq<OutboundView>, id: ConnectionId)
    requires
        forall|k: int| 0 <= k < out.len() ==> (#[trigger] out[k]).conn != id,
    ensures
        messages_for(out, id) == Seq::<ServerMessageView>::empty(),
    decreases out.len(),
{
    if out.len() > 0 {
        assert(out.last() == out[out.len() - 1]);
        assert forall|k: int| 0 <= k < out.drop_last().len() implies (#[trigger] out.drop_last()[k]).conn
            != id by {
            assert(out.drop_last()[k] == out[k]);
        }
        lemma_none_for_absent(out.drop_last(), id);
    }
}

/// A subscriber is sent the events that its filter admits in the order in
/// which they were handed over, each once; a connection that is not
/// registered or did not subscribe is sent none.
pub proof fn lemma_events_arrive_in_order(
    conns: Seq<Connection>,
    events: Seq<WmEvent>,
    id: ConnectionId,
)
    requires
        conns.len() <= usize::MAX,
    ensures
        messages_for(fan_out(conns, events), id) == (match subscription_of(conns, id) {
            Some(filter) => admitted(events, filter),
            None => Seq::empty(),
        }),
    decreases events.len(),
{
    if events.len() > 0 {
        lemma_events_arrive_in_order(conns, events.drop_last(), id);
        lemma_fan_out_one_for(conns, events.last(), id);
        lemma_messages_for_concat(
            fan_out(conns, events.drop_last()),
            fan_out_one(conns, events.last()),
            id,
        );
        match subscription_of(conns, id) {
            Some(filter) => {
                let front = admitted(events.drop_last(), filter);
                if filter.admits(events.last()) {
                    assert(front + seq![ServerMessageView::Event(events.last())] =~= front.push(
                        ServerMessageView::Event(events.last()),
                    ));
                } else {
                    assert(front + Seq::<ServerMessageView>::empty() =~= front);
                }
            },
            None => {
                assert(Seq::<ServerMessageView>::empty() + Seq::<ServerMessageView>::empty()
                    =~= Seq::<ServerMessageView>::empty());
            },
        }
    }
}

/// All events of a sequence of batches, one batch after the other.
pub open spec fn flattened(batches: Seq<Seq<WmEvent>>) -> Seq<WmEvent>
    decreases batches.len(),
{
    if batches.len() == 0 {
        Seq::empty()
    } else {
        flattened(batches.drop_last()) + batches.last()
    }
}

/// What goes out for a sequence of commands of one connection that all ran,
/// each with the batch of events it gave rise to: command after command
/// the acknowledgement and then the events of its batch.
pub open spec fn served(
    conns: Seq<Connection>,
    invoker: ConnectionId,
    batches: Seq<Seq<WmEvent>>,
) -> Seq<OutboundView>
    decreases batches.len(),
{
    if batches.len() == 0 {
        Seq::empty()
    } else {
        served(conns, invoker, batches.drop_last()) + seq![
            OutboundView { conn: invoker, message: ServerMessageView::CommandAck },
        ] + fan_out(conns, batches.last())
    }
}

/// What a filter admits of two sequences of events, one after the other, is
/// what it admits of the first and then what it admits of the second.
pub proof fn lemma_admitted_concat(a: Seq<WmEvent>, b: Seq<WmEvent>, filter: EventFilter)
    ensures
        admitted(a + b, filter) == admitted(a, filter) + admitted(b, filter),
    decreases b.len(),
{
    if b.len() == 0 {
        assert(a + b =~= a);
        assert(admitted(a, filter) + admitted(b, filter) =~= admitted(a, filter));
    } else {
        assert((a + b).drop_last() =~= a + b.drop_last());
        assert((a + b).last() == b.last());
        lemma_admitted_concat(a, b.drop_last(), filter);
        if filter.admits(b.last()) {
            let e = ServerMessageView::Event(b.last());
            assert(admitted(a, filter) + admitted(b.drop_last(), filter).push(e) =~= (admitted(
                a,
                filter,
            ) + admitted(b.drop_last(), filter)).push(e));
        }
    }
}

/// The events of a sequence of commands that ran reach a subscriber in the
/// order in which the commands were applied, and within one command in the
/// order of its changes: another connection than the one that sent the
/// commands is sent exactly the events that its filter admits, in that
/// order, and nothing if it did not subscribe.
pub proof fn lemma_commands_events_in_order(
    conns: Seq<Connection>,
    invoker: ConnectionId,
    batches: Seq<Seq<WmEvent>>,
    id: ConnectionId,
)
    requires
        conns.len() <= usize::MAX,
        id != invoker,
    ensures
        messages_for(served(conns, invoker, batches), id) == (match subscription_of(conns, id) {
            Some(filter) => admitted(flattened(batches), filter),
            None => Seq::empty(),
        }),
    decreases batches.len(),
{
    if batches.len() > 0 {
        let before = served(conns, invoker, batches.drop_last());
        let ack = seq![OutboundView { conn: invoker, message: ServerMessageView::CommandAck }];
        let events = fan_out(conns, batches.last());
        lemma_commands_events_in_order(conns, invoker, batches.drop_last(), id);
        lemma_events_arrive_in_order(conns, batches.last(), id);
        lemma_none_for_absent(ack, id);
        lemma_messages_for_concat(before, ack, id);
        lemma_messages_for_concat(before + ack, events, id);
        assert(messages_for(before, id) + Seq::<ServerMessageView>::empty() =~= messages_for(
            before,
            id,
        ));
        match subscription_of(conns, id) {
            Some(filter) => {
                lemma_admitted_concat(flattened(batches.drop_last()), batches.last(), filter);
            },
            None => {
                assert(Seq::<ServerMessageView>::empty() + Seq::<ServerMessageView>::empty()
                    =~= Seq::<ServerMessageView>::empty());
            },
        }
    }
}

/// Appending a message to a batch appends its model to the batch's models.
pub proof fn lemma_views_push(s: Seq<Outbound>, o: Outbound)
    ensures
        outbound_views(s.push(o)) == outbound_views(s).push(o@),
{
    assert(outbound_views(s.push(o)) =~= outbound_views(s).push(o@));
}

/// The server: who is connected, who subscribed to what, and the requests
/// that wait for the writer.
pub struct IpcServer {
    accepting: bool,
    connections: Vec<Connection>,
    pending: Vec<Request>,
    capacity: usize,
}

impl View for IpcServer {
    type V = IpcServerView;

    closed spec fn view(&self) -> IpcServerView {
        IpcServerView {
            accepting: self.accepting,
            connections: self.connections@,
            pending: self.pending@,
            capacity: self.capacity,
        }
    }
}

impl IpcServer {
    /// The server's invariant.
    pub open spec fn wf(&self) -> bool {
        server_wf(self@)
    }

    /// A server that takes connections, with no connection yet and an empty
    /// queue that holds at most `capacity` requests.
    pub fn start(capacity: usize) -> (server: Self)
        ensures
            server.wf(),
            server@ == (IpcServerView {
                accepting: true,
                connections: Seq::empty(),
                pending: Seq::empty(),
                capacity,
            }),
    {
        IpcServer { accepting: true, connections: Vec::new(), pending: Vec::new(), capacity }
    }

    /// Stops the server: it takes no more connections or requests, every
    /// waiting request is dropped with a notice to its connection, oldest
    /// first, and every connection is let go.
    pub fn stop(&mut self) -> (out: Vec<Outbound>)
        requires
            old(self).wf(),
        ensures
            final(self).wf(),
            final(self)@ == (IpcServerView {
                accepting: false,
                connections: Seq::empty(),
                pending: Seq::empty(),
                capacity: old(self)@.capacity,
            }),
            outbound_views(out@) == cancellations(old(self)@.pending),
    {
        let mut out: Vec<Outbound> = Vec::new();
        let mut i: usize = 0;
        while i < self.pending.len()
            invariant
                i <= self.pending.len(),
                *self == *old(self),
                outbound_views(out@) == cancellations(self.pending@.take(i as int)),
            decreases self.pending.len() - i,
        {
            let notice = Outbound { conn: self.pending[i].conn, message: ServerMessage::Cancelled };
            proof {
                lemma_views_push(out@, notice);
                assert(cancellations(self.pending@.take(i + 1)) =~= cancellations(
                    self.pending@.take(i as int),
                ).push(notice@));
            }
            out.push(notice);
            i += 1;
        }
        assert(self.pending@.take(self.pending.len() as int) =~= self.pending@);
        self.accepting = false;
        self.connections.clear();
        self.pending.clear();
        out
    }

    /// Whether the server still takes connections and requests.
    pub fn is_accepting(&self) -> (b: bool)
        ensures
            b == self@.accepting,
    {
        self.accepting
    }

    /// Whether a connection is registered.
    pub fn has_connection(&self, conn: ConnectionId) -> (b: bool)
        ensures
            b == is_connected(self@.connections, conn),
    {
        conn < self.connections.len() && self.connections[conn].open
    }

    /// The filter a connection subscribed with, if it is registered and
    /// subscribed.
    pub fn subscription(&self, conn: ConnectionId) -> (f: Option<EventFilter>)
        ensures
            f == subscription_of(self@.connections, conn),
    {
        if conn < self.connections.len() && self.connections[conn].open {
            self.connections[conn].subscription
        } else {
            None
        }
    }

    /// Number of requests that wait for the writer.
    pub fn pending_len(&self) -> (n: usize)
        ensures
            n == self@.pending.len(),
    {
        self.pending.len()
    }

    /// Registers a new connection, not subscribed to anything, and returns
    /// its identifier. A stopped server refuses.
    pub fn accept(&mut self) -> (r: Result<ConnectionId, WmError>)
        requires
            old(self).wf(),
        ensures
            final(self).wf(),
            !old(self)@.accepting ==> r == Err::<ConnectionId, WmError>(
                WmError::Connection(ConnectionFault::ShuttingDown),
            ) && *final(self) == *old(self),
            old(self)@.accepting ==> r == Ok::<ConnectionId, WmError>(
                old(self)@.connections.len() as usize,
            ) && final(self)@ == (IpcServerView {
                connections: old(self)@.connections.push(
                    Connection { open: true, subscription: None },
                ),
                ..old(self)@
            }),
    {
        if !self.accepting {
            return Err(WmError::Connection(ConnectionFault::ShuttingDown));
        }
        let id = self.connections.len();
        self.connections.push(Connection { open: true, subscription: None });
        // Reading the length bounds the number of connections by the address width.
        let _ = self.connections.len();
        proof {
            assert forall|k: int| 0 <= k < self@.pending.len() implies is_connected(
                self@.connections,
                (#[trigger] self@.pending[k]).conn,
            ) by {
                assert(is_connected(old(self)@.connections, old(self)@.pending[k].conn));
            }
        }
        Ok(id)
    }

    /// Lets a connection go: its registration, its subscription and its
    /// waiting requests. Every other connection stays as it is. A
    /// connection that is not registered changes nothing.
    pub fn disconnect(&mut self, conn: ConnectionId)
        requires
            old(self).wf(),
        ensures
            final(self).wf(),
            final(self)@ == disconnected(old(self)@, conn),
    {
        if !self.has_connection(conn) {
            return ;
        }
        let mut kept: Vec<Request> = Vec::new();
        let mut i: usize = 0;
        while i < self.pending.len()
            invariant
                i <= self.pending.len(),
                *self == *old(self),
                kept@ == without_requests_of(self.pending@.take(i as int), conn),
            decreases self.pending.len() - i,
        {
            let request = self.pending[i];
            proof {
                assert(self.pending@.take(i + 1).drop_last() =~= self.pending@.take(i as int));
                assert(self.pending@.take(i + 1).last() == request);
            }
            if request.conn != conn {
                kept.push(request);
            }
            i += 1;
        }
        assert(self.pending@.take(self.pending.len() as int) =~= self.pending@);
        self.pending = kept;
        self.connections[conn] = Connection { open: false, subscription: None };
        proof {
            lemma_without_requests_of(old(self)@.pending, conn);
            assert forall|k: int| 0 <= k < self@.pending.len() implies is_connected(
                self@.connections,
                (#[trigger] self@.pending[k]).conn,
            ) by {
                let r = self@.pending[k];
                let j = choose|j: int|
                    0 <= j < old(self)@.pending.len() && old(self)@.pending[j] == r;
                assert(is_connected(old(self)@.connections, old(self)@.pending[j].conn));
            }
        }
    }

    /// Takes one frame that arrived on a connection. A frame that holds a
    /// request puts the request at the end of the queue. A frame that holds
    /// none ends the connection it came on, and no other. A stopped server,
    /// an unknown connection and a full queue are refused with nothing
    /// changed; after a full queue the same frame can be handed in again.
    pub fn receive(&mut self, conn: ConnectionId, frame: &[u8]) -> (r: Result<(), WmError>)
        requires
            old(self).wf(),
        ensures
            final(self).wf(),
            r == receive_outcome(old(self)@, conn, frame@).0,
            final(self)@ == receive_outcome(old(self)@, conn, frame@).1,
    {
        if !self.accepting {
            return Err(WmError::Connection(ConnectionFault::ShuttingDown));
        }
        if !self.has_connection(conn) {
            return Err(WmError::Connection(ConnectionFault::UnknownConnection));
        }
        match decode(frame) {
            Err(e) => {
                self.disconnect(conn);
                Err(e)
            },
            Ok(message) => {
                if self.pending.len() >= self.capacity {
                    return Err(WmError::Connection(ConnectionFault::QueueFull));
                }
                self.pending.push(Request { conn, message });
                proof {
                    assert forall|k: int| 0 <= k < self@.pending.len() implies is_connected(
                        self@.connections,
                        (#[trigger] self@.pending[k]).conn,
                    ) by {
                        if k < old(self)@.pending.len() {
                            assert(is_connected(
                                old(self)@.connections,
                                old(self)@.pending[k].conn,
                            ));
                        }
                    }
                }
                Ok(())
            },
        }
    }

    /// Takes the oldest waiting request off the queue; `None` if none waits.
    pub fn next_request(&mut self) -> (r: Option<Request>)
        requires
            old(self).wf(),
        ensures
            final(self).wf(),
            old(self)@.pending.len() == 0 ==> r is None && *final(self) == *old(self),
            old(self)@.pending.len() > 0 ==> r == Some(old(self)@.pending[0]) && final(self)@ == (
            IpcServerView { pending: old(self)@.pending.skip(1), ..old(self)@ }),
    {
        if self.pending.len() == 0 {
            return None;
        }
        let request = self.pending.remove(0);
        proof {
            assert(self@.pending =~= old(self)@.pending.skip(1));
            assert forall|k: int| 0 <= k < self@.pending.len() implies is_connected(
                self@.connections,
                (#[trigger] self@.pending[k]).conn,
            ) by {
                assert(is_connected(old(self)@.connections, old(self)@.pending[k + 1].conn));
            }
        }
        Some(request)
    }

    /// Appends one event as it goes out to the subscribers.
    fn fan_out_into(&self, event: WmEvent, out: &mut Vec<Outbound>)
        ensures
            outbound_views(final(out)@) == outbound_views(old(out)@) + fan_out_one(
                self@.connections,
                event,
            ),
    {
        let mut i: usize = 0;
        assert(self.connections@.take(0) =~= Seq::<Connection>::empty());
        assert(outbound_views(out@) + Seq::<OutboundView>::empty() =~= outbound_views(out@));
        while i < self.connections.len()
            invariant
                i <= self.connections.len(),
                outbound_views(out@) == outbound_views(old(out)@) + fan_out_one(
                    self.connections@.take(i as int),
                    event,
                ),
            decreases self.connections.len() - i,
        {
            let c = self.connections[i];
            proof {
                assert(self.connections@.take(i + 1).drop_last() =~= self.connections@.take(
                    i as int,
                ));
                assert(self.connections@.take(i + 1).last() == c);
            }
            let passes = c.open && match c.subscription {
                Some(filter) => filter.lets_through(&event),
                None => false,
            };
            if passes {
                let delivery = Outbound { conn: i, message: ServerMessage::Event(event) };
                proof {
                    lemma_views_push(out@, delivery);
                    let sent = fan_out_one(self.connections@.take(i as int), event);
                    assert((outbound_views(old(out)@) + sent).push(delivery@) =~= outbound_views(
                        old(out)@,
                    ) + sent.push(delivery@));
                }
                out.push(delivery);
            }
            i += 1;
        }
        assert(self.connections@.take(self.connections.len() as int) =~= self.connections@);
    }

    /// Appends a sequence of events as it goes out to the subscribers.
    fn deliver(&self, events: &Vec<WmEvent>, out: &mut Vec<Outbound>)
        ensures
            outbound_views(final(out)@) == outbound_views(old(out)@) + fan_out(
                self@.connections,
                events@,
            ),
    {
        let mut i: usize = 0;
        assert(events@.take(0) =~= Seq::<WmEvent>::empty());
        assert(outbound_views(out@) + Seq::<OutboundView>::empty() =~= outbound_views(out@));
        while i < events.len()
            invariant
                i <= events.len(),
                outbound_views(out@) == outbound_views(old(out)@) + fan_out(
                    self@.connections,
                    events@.take(i as int),
                ),
            decreases events.len() - i,
        {
            proof {
                assert(events@.take(i + 1).drop_last() =~= events@.take(i as int));
                assert(events@.take(i + 1).last() == events@[i as int]);
                let sent = fan_out(self@.connections, events@.take(i as int));
                let next = fan_out_one(self@.connections, events@[i as int]);
                assert((outbound_views(old(out)@) + sent) + next =~= outbound_views(old(out)@) + (
                sent + next));
            }
            self.fan_out_into(events[i], out);
            i += 1;
        }
        assert(events@.take(events.len() as int) =~= events@);
    }

    /// What goes out for one event that did not come from a request: the
    /// event, to every subscriber whose filter admits it, in the order of
    /// the connections.
    pub fn process_event(&self, event: WmEvent) -> (out: Vec<Outbound>)
        ensures
            outbound_views(out@) == fan_out_one(self@.connections, event),
    {
        let mut out: Vec<Outbound> = Vec::new();
        self.fan_out_into(event, &mut out);
        assert(outbound_views(Seq::<Outbound>::empty()) + fan_out_one(self@.connections, event)
            =~= fan_out_one(self@.connections, event));
        out
    }

    /// Serves one request against the state and returns what is to be sent,
    /// in the order in which it is to be sent.
    ///
    /// A request of a connection that is no longer registered is dropped: it
    /// changes nothing and nothing is sent. A query is answered with a
    /// snapshot of the tree as it stands between two commands. A subscription
    /// is registered and acknowledged. A command is run: if it is refused the
    /// state stays as it was and only the refusal is sent; if it ran, its
    /// acknowledgement is sent first and then its events to the subscribers,
    /// after the state has changed.
    pub fn process_message(
        &mut self,
        conn: ConnectionId,
        message: IpcMessage,
        state: &mut WmState,
        config: &UserConfig,
    ) -> (out: Vec<Outbound>)
        requires
            old(self).wf(),
            old(state).wf(),
        ensures
            final(self).wf(),
            final(state).wf(),
            !is_connected(old(self)@.connections, conn) ==> {
                &&& *final(self) == *old(self)
                &&& *final(state) == *old(state)
                &&& out@.len() == 0
            },
            is_connected(old(self)@.connections, conn) ==> (match message {
                IpcMessage::Monitors => {
                    &&& *final(self) == *old(self)
                    &&& *final(state) == *old(state)
                    &&& outbound_views(out@) == seq![
                        OutboundView {
                            conn,
                            message: ServerMessageView::Monitors(
                                records_of_kind(
                                    old(state).tree@,
                                    old(state).tree.preorder(ROOT),
                                    ContainerKind::Monitor,
                                ),
                            ),
                        },
                    ]
                },
                IpcMessage::Windows => {
                    &&& *final(self) == *old(self)
                    &&& *final(state) == *old(state)
                    &&& outbound_views(out@) == seq![
                        OutboundView {
                            conn,
                            message: ServerMessageView::Windows(
                                records_of_kind(
                                    old(state).tree@,
                                    old(state).tree.preorder(ROOT),
                                    ContainerKind::Window,
                                ),
                            ),
                        },
                    ]
                },
                IpcMessage::Subscribe(filter) => {
                    &&& final(self)@ == (IpcServerView {
                        connections: old(self)@.connections.update(
                            conn as int,
                            Connection { open: true, subscription: Some(filter) },
                        ),
                        ..old(self)@
                    })
                    &&& *final(state) == *old(state)
                    &&& outbound_views(out@) == seq![
                        OutboundView { conn, message: ServerMessageView::Subscribed },
                    ]
                },
                IpcMessage::InvokeCommand(command) => {
                    &&& *final(self) == *old(self)
                    &&& match command_fault(&old(state).tree, command, *config) {
                        Some(e) => {
                            &&& *final(state) == *old(state)
                            &&& outbound_views(out@) == seq![
                                OutboundView { conn, message: ServerMessageView::CommandFailed(e) },
                            ]
                        },
                        None => {
                            &&& final(state).tree@ == tree_after_command(old(state).tree@, command)
                            &&& final(state).pending_sync@ == ledger_after_command(
                                old(state).tree@,
                                old(state).pending_sync@,
                                command,
                            )
                            &&& outbound_views(out@) == seq![
                                OutboundView { conn, message: ServerMessageView::CommandAck },
                            ] + fan_out(
                                old(self)@.connections,
                                events_of_command(old(state).tree@, command),
                            )
                        },
                    }
                },
            }),
    {
        let mut out: Vec<Outbound> = Vec::new();
        if !self.has_connection(conn) {
            return out;
        }
        match message {
            IpcMessage::Monitors => {
                let records = snapshot(&state.tree, ContainerKind::Monitor);
                let reply = Outbound { conn, message: ServerMessage::Monitors(records) };
                proof {
                    lemma_views_push(out@, reply);
                }
                out.push(reply);
                assert(outbound_views(out@) =~= seq![reply@]);
            },
            IpcMessage::Windows => {
                let records = snapshot(&state.tree, ContainerKind::Window);
                let reply = Outbound { conn, message: ServerMessage::Windows(records) };
                proof {
                    lemma_views_push(out@, reply);
                }
                out.push(reply);
                assert(outbound_views(out@) =~= seq![reply@]);
            },
            IpcMessage::Subscribe(filter) => {
                self.connections[conn] = Connection { open: true, subscription: Some(filter) };
                let reply = Outbound { conn, message: ServerMessage::Subscribed };
                proof {
                    lemma_views_push(out@, reply);
                    assert forall|k: int| 0 <= k < self@.pending.len() implies is_connected(
                        self@.connections,
                        (#[trigger] self@.pending[k]).conn,
                    ) by {
                        assert(is_connected(old(self)@.connections, old(self)@.pending[k].conn));
                    }
                }
                out.push(reply);
                assert(outbound_views(out@) =~= seq![reply@]);
            },
            IpcMessage::InvokeCommand(command) => {
                match run_command(command, state, config) {
                    Err(e) => {
                        let reply = Outbound { conn, message: ServerMessage::CommandFailed(e) };
                        proof {
                            lemma_views_push(out@, reply);
                        }
                        out.push(reply);
                        assert(outbound_views(out@) =~= seq![reply@]);
                    },
                    Ok(events) => {
                        let reply = Outbound { conn, message: ServerMessage::CommandAck };
                        proof {
                            lemma_views_push(out@, reply);
                        }
                        out.push(reply);
                        assert(outbound_views(out@) =~= seq![reply@]);
                        self.deliver(&events, &mut out);
                    },
                }
            },
        }
        out
    }
}


} // verus!
