//! The life of one connection, and of the listener that accepts it, as state
//! machines.
//!
//! The program that owns the sockets performs each action and reports what
//! came of it as an event; every decision is taken here.

use crate::endian::{
    lemma_u16_be_round_trip, lemma_u32_le_round_trip, spec_u16_be, spec_u16_be_bytes,
    spec_u32_le_bytes,
};
use crate::income_packet::{
    spec_decode_header, spec_decode_opcode_payload, Auth, AuthView, DecodeError, FramingError,
    Header, Packet, PacketView,
};
use crate::outcome_packet::{pack, spec_pack, EncodeError, Opcode, OUTCOME_ID};
use vstd::prelude::*;
use vstd::slice::slice_subrange;
use vstd::string::{StringExecFns, StringSliceAdditionalSpecFns};
use vstd::utf8::encode_utf8;

verus! {

/// Size of the buffer one read fills.
pub const FRAME_CAPACITY: usize = 512;

/// How many account records an Auth asks the store for.
pub const ACCOUNT_LIMIT: i64 = 4;

/// Where a connection stands.
#[derive(Clone, Copy, Debug, PartialEq, Eq, Structural)]
pub enum ConnState {
    /// The greeting is being written.
    Greeting,
    /// Waiting for the next frame, or for a probe reply to be written.
    AwaitingFrame,
    /// An Auth was decoded and the store is being asked.
    Dispatching,
    /// The response to an Auth is being written.
    Responding,
    /// Terminal.
    Closed,
}

/// Why a connection was closed.
#[derive(Clone, Copy, Debug, PartialEq, Eq, Structural)]
pub enum CloseReason {
    /// The peer closed its side: a read returned no bytes.
    Disconnected,
    /// A read or a write failed.
    Io,
    /// The frame was too short for a header.
    Framing(FramingError),
    /// The payload could not be decoded.
    Decode(DecodeError),
    /// A frame could not be built.
    Encode(EncodeError),
    /// The store's lock was poisoned.
    LockPoisoned,
    /// The event does not belong to the state it arrived in.
    Unexpected,
}

/// What happened on the socket or in the store.
#[derive(Debug)]
pub enum Event {
    /// The bytes of the last `Send` were written.
    Written,
    /// A read returned these bytes; none on an orderly disconnect.
    Frame(Vec<u8>),
    /// The store answered.
    StoreDone,
    /// The store's lock could not be taken.
    StoreFailed,
    /// A read or a write failed.
    IoFailed,
}

/// An [`Event`] as mathematical values.
pub enum EventView {
    Written,
    Frame(Seq<u8>),
    StoreDone,
    StoreFailed,
    IoFailed,
}

impl View for Event {
    type V = EventView;

    open spec fn view(&self) -> EventView {
        match self {
            Event::Written => EventView::Written,
            Event::Frame(f) => EventView::Frame(f@),
            Event::StoreDone => EventView::StoreDone,
            Event::StoreFailed => EventView::StoreFailed,
            Event::IoFailed => EventView::IoFailed,
        }
    }
}

/// What the owner of the socket has to do next.
#[derive(Debug)]
pub enum Action {
    /// Write these bytes, then report `Written` or `IoFailed`.
    Send(Vec<u8>),
    /// Read once into a buffer of `FRAME_CAPACITY` bytes, then report
    /// `Frame` or `IoFailed`.
    Read,
    /// Take the store's lock and list up to `ACCOUNT_LIMIT` accounts for
    /// these credentials, then report `StoreDone` or `StoreFailed`.
    Query(Auth),
    /// Shut the socket down in both directions and drop it.
    Shutdown,
    /// Drop the socket.
    Close(CloseReason),
}

/// An [`Action`] as mathematical values.
pub enum ActionView {
    Send(Seq<u8>),
    Read,
    Query(AuthView),
    Shutdown,
    Close(CloseReason),
}

impl View for Action {
    type V = ActionView;

    open spec fn view(&self) -> ActionView {
        match self {
            Action::Send(b) => ActionView::Send(b@),
            Action::Read => ActionView::Read,
            Action::Query(a) => ActionView::Query(a@),
            Action::Shutdown => ActionView::Shutdown,
            Action::Close(r) => ActionView::Close(*r),
        }
    }
}

/// The reply to a liveness probe.
pub open spec fn spec_probe_reply() -> Seq<u8> {
    seq![0u8, 2u8]
}

/// The payload of the response to an Auth.
pub open spec fn spec_characters() -> Seq<u8> {
    seq![
        0x00u8, 0x00u8, 0x7Cu8, 0x35u8, 0x09u8, 0x19u8, 0xB2u8, 0x50u8, 0xD3u8, 0x49u8,
        0x00u8, 0x01u8, 0x00u8, 0x00u8, 0x00u8, 0x00u8, 0x00u8, 0x00u8, 0x32u8, 0x14u8,
    ]
}

/// The payload of the response to an Auth.
pub fn characters() -> (bytes: [u8; 20])
    ensures
        bytes@ == spec_characters(),
{
    let bytes: [u8; 20] = [
        0x00, 0x00, 0x7C, 0x35, 0x09, 0x19, 0xB2, 0x50, 0xD3, 0x49,
        0x00, 0x01, 0x00, 0x00, 0x00, 0x00, 0x00, 0x00, 0x32, 0x14,
    ];
    assert(bytes@ =~= spec_characters());
    bytes
}

/// How a connection starts: the greeting frame carries `first_date` under
/// the opcode `FirstDate`; a text too long for a frame closes the connection
/// before anything is sent.
pub open spec fn spec_greet(first_date: Seq<char>) -> (ConnState, ActionView) {
    if encode_utf8(first_date).len() + 8 <= 0xFFFF {
        (
            ConnState::Greeting,
            ActionView::Send(spec_pack(Opcode::FirstDate.spec_code(), encode_utf8(first_date))),
        )
    } else {
        (ConnState::Closed, ActionView::Close(CloseReason::Encode(EncodeError::PayloadTooLarge)))
    }
}

/// What a frame leads to while one is awaited. No bytes: the peer is gone.
/// Two bytes: a liveness probe, answered at once. Anything else is a header
/// and a payload: an Auth goes to the store, an Exit shuts the socket down,
/// and whatever does not decode closes the connection without a reply.
pub open spec fn spec_on_frame(frame: Seq<u8>) -> (ConnState, ActionView) {
    if frame.len() == 0 {
        (ConnState::Closed, ActionView::Close(CloseReason::Disconnected))
    } else if frame.len() == 2 {
        (ConnState::AwaitingFrame, ActionView::Send(spec_probe_reply()))
    } else {
        match spec_decode_header(frame) {
            Err(e) => (ConnState::Closed, ActionView::Close(CloseReason::Framing(e))),
            Ok(header) => match spec_decode_opcode_payload(header.opcode, frame.skip(8)) {
                Err(e) => (ConnState::Closed, ActionView::Close(CloseReason::Decode(e))),
                Ok(PacketView::Auth(a)) => (ConnState::Dispatching, ActionView::Query(a)),
                Ok(PacketView::Exit) => (ConnState::Closed, ActionView::Shutdown),
            },
        }
    }
}

/// The transition function: the state after `event` arrives in `state`, and
/// what to do next.
pub open spec fn spec_step(state: ConnState, event: EventView) -> (ConnState, ActionView) {
    let unexpected = (ConnState::Closed, ActionView::Close(CloseReason::Unexpected));
    match state {
        ConnState::Closed => unexpected,
        _ => match event {
            EventView::IoFailed => (ConnState::Closed, ActionView::Close(CloseReason::Io)),
            EventView::Written => if state == ConnState::Dispatching {
                unexpected
            } else {
                (ConnState::AwaitingFrame, ActionView::Read)
            },
            EventView::Frame(frame) => if state == ConnState::AwaitingFrame {
                spec_on_frame(frame)
            } else {
                unexpected
            },
            EventView::StoreDone => if state == ConnState::Dispatching {
                (
                    ConnState::Responding,
                    ActionView::Send(
                        spec_pack(Opcode::ResponseCharacters.spec_code(), spec_characters()),
                    ),
                )
            } else {
                unexpected
            },
            EventView::StoreFailed => if state == ConnState::Dispatching {
                (ConnState::Closed, ActionView::Close(CloseReason::LockPoisoned))
            } else {
                unexpected
            },
        },
    }
}

/// The address a listener binds: host and port with a colon between them.
pub fn bind_address(url: &str, port: &str) -> (address: String)
    ensures
        address@ == url@ + seq![':'] + port@,
{
    let mut address: String = String::from_str(url);
    address.append(":");
    address.append(port);
    proof {
        reveal_strlit(":");
        assert(":"@ =~= seq![':']);
    }
    address
}

/// Opens a connection: builds the greeting around `first_date`.
pub fn greet(first_date: &str) -> (r: (ConnState, Action))
    ensures
        (r.0, r.1@) == spec_greet(first_date@),
{
    match pack(Opcode::FirstDate, first_date.as_bytes()) {
        Ok(frame) => (ConnState::Greeting, Action::Send(frame)),
        Err(e) => (ConnState::Closed, Action::Close(CloseReason::Encode(e))),
    }
}

/// Decides what a frame leads to while one is awaited.
pub fn on_frame(frame: &[u8]) -> (r: (ConnState, Action))
    ensures
        (r.0, r.1@) == spec_on_frame(frame@),
{
    let n: usize = frame.len();
    if n == 0 {
        return (ConnState::Closed, Action::Close(CloseReason::Disconnected));
    }
    if n == 2 {
        let mut reply: Vec<u8> = Vec::with_capacity(2);
        reply.push(0);
        reply.push(2);
        assert(reply@ =~= spec_probe_reply());
        return (ConnState::AwaitingFrame, Action::Send(reply));
    }
    let header: Header = match Header::unpack(frame) {
        Ok(header) => header,
        Err(e) => {
            return (ConnState::Closed, Action::Close(CloseReason::Framing(e)));
        },
    };
    assert(frame@.subrange(8, n as int) =~= frame@.skip(8));
    match header.handle(slice_subrange(frame, 8, n)) {
        Ok(Packet::Auth(auth)) => (ConnState::Dispatching, Action::Query(auth)),
        Ok(Packet::Exit) => (ConnState::Closed, Action::Shutdown),
        Err(e) => (ConnState::Closed, Action::Close(CloseReason::Decode(e))),
    }
}

/// Takes one step of the connection's state machine.
pub fn step(state: ConnState, event: Event) -> (r: (ConnState, Action))
    ensures
        (r.0, r.1@) == spec_step(state, event@),
{
    let unexpected = (ConnState::Closed, Action::Close(CloseReason::Unexpected));
    if let ConnState::Closed = state {
        return unexpected;
    }
    match event {
        Event::IoFailed => (ConnState::Closed, Action::Close(CloseReason::Io)),
        Event::Written => {
            if let ConnState::Dispatching = state {
                unexpected
            } else {
                (ConnState::AwaitingFrame, Action::Read)
            }
        },
        Event::Frame(frame) => {
            if let ConnState::AwaitingFrame = state {
                on_frame(frame.as_slice())
            } else {
                unexpected
            }
        },
        Event::StoreDone => {
            if let ConnState::Dispatching = state {
                let payload: [u8; 20] = characters();
                match pack(Opcode::ResponseCharacters, payload.as_slice()) {
                    Ok(frame) => (ConnState::Responding, Action::Send(frame)),
                    Err(e) => (ConnState::Closed, Action::Close(CloseReason::Encode(e))),
                }
            } else {
                unexpected
            }
        },
        Event::StoreFailed => {
            if let ConnState::Dispatching = state {
                (ConnState::Closed, Action::Close(CloseReason::LockPoisoned))
            } else {
                unexpected
            }
        },
    }
}

/// The state a connection is in after `events` have arrived one after the
/// other, starting from `state`.
pub open spec fn spec_run(state: ConnState, events: Seq<EventView>) -> ConnState
    decreases events.len(),
{
    if events.len() == 0 {
        state
    } else {
        spec_run(spec_step(state, events[0]).0, events.drop_first())
    }
}

/// A two-byte frame, or the report that a reply was written.
pub open spec fn spec_is_probe_traffic(event: EventView) -> bool {
    match event {
        EventView::Frame(frame) => frame.len() == 2,
        EventView::Written => true,
        _ => false,
    }
}

/// A liveness probe is answered with the same two bytes whatever it holds,
/// and leaves the connection waiting for a frame.
pub proof fn lemma_probe_answered(frame: Seq<u8>)
    requires
        frame.len() == 2,
    ensures
        spec_step(ConnState::AwaitingFrame, EventView::Frame(frame)) == (
            ConnState::AwaitingFrame,
            ActionView::Send(spec_probe_reply()),
        ),
        spec_probe_reply() == seq![0x00u8, 0x02u8],
        spec_step(ConnState::AwaitingFrame, EventView::Written) == (
            ConnState::AwaitingFrame,
            ActionView::Read,
        ),
{
}

/// What the owner of the socket is asked to do, event by event, as `events`
/// arrive one after the other, starting from `state`.
pub open spec fn spec_actions(state: ConnState, events: Seq<EventView>) -> Seq<ActionView>
    decreases events.len(),
{
    if events.len() == 0 {
        Seq::empty()
    } else {
        seq![spec_step(state, events[0]).1] + spec_actions(
            spec_step(state, events[0]).0,
            events.drop_first(),
        )
    }
}

/// However many probes arrive, and however their replies are interleaved
/// with them, every probe is answered with the same two bytes and the
/// connection goes on waiting for a frame: it never reaches the store, and
/// never closes.
pub proof fn lemma_probes_never_dispatch(events: Seq<EventView>)
    requires
        forall|i: int| 0 <= i < events.len() ==> spec_is_probe_traffic(#[trigger] events[i]),
    ensures
        spec_run(ConnState::AwaitingFrame, events) == ConnState::AwaitingFrame,
        spec_actions(ConnState::AwaitingFrame, events).len() == events.len(),
        forall|i: int|
            0 <= i < events.len() ==> #[trigger] spec_actions(ConnState::AwaitingFrame, events)[i]
                == (if events[i] is Frame {
                ActionView::Send(spec_probe_reply())
            } else {
                ActionView::Read
            }),
    decreases events.len(),
{
    if events.len() > 0 {
        assert(spec_is_probe_traffic(events[0]));
        let rest = events.drop_first();
        assert forall|i: int| 0 <= i < rest.len() implies spec_is_probe_traffic(
            #[trigger] rest[i],
        ) by {
            assert(rest[i] == events[i + 1]);
        }
        lemma_probes_never_dispatch(rest);
        let actions = spec_actions(ConnState::AwaitingFrame, events);
        let later = spec_actions(ConnState::AwaitingFrame, rest);
        assert(actions == seq![spec_step(ConnState::AwaitingFrame, events[0]).1] + later);
        assert forall|i: int| 0 <= i < events.len() implies #[trigger] actions[i] == (if events[i]
            is Frame {
            ActionView::Send(spec_probe_reply())
        } else {
            ActionView::Read
        }) by {
            if i > 0 {
                assert(actions[i] == later[i - 1]);
                assert(rest[i - 1] == events[i]);
            }
        }
    }
}

/// A closed connection stays closed, and nothing is sent on it.
pub proof fn lemma_closed_is_terminal(events: Seq<EventView>)
    ensures
        spec_run(ConnState::Closed, events) == ConnState::Closed,
        forall|e: EventView| #[trigger]
            spec_step(ConnState::Closed, e) == (
                ConnState::Closed,
                ActionView::Close(CloseReason::Unexpected),
            ),
    decreases events.len(),
{
    if events.len() > 0 {
        lemma_closed_is_terminal(events.drop_first());
    }
}

/// A frame whose header announces an Exit shuts the connection down without
/// a reply, whatever its payload.
pub proof fn lemma_exit_shuts_down(frame: Seq<u8>)
    requires
        frame.len() >= 8,
        spec_u16_be(frame.subrange(6, 8)) == 432,
    ensures
        spec_step(ConnState::AwaitingFrame, EventView::Frame(frame)) == (
            ConnState::Closed,
            ActionView::Shutdown,
        ),
{
}

/// After the greeting the peer is only ever sent the probe reply or the
/// response to an Auth, and a step that closes the connection sends nothing.
pub proof fn lemma_sends_are_well_formed(state: ConnState, event: EventView)
    ensures
        spec_step(state, event).0 == ConnState::Closed ==> !(spec_step(state, event).1 is Send),
        match spec_step(state, event).1 {
            ActionView::Send(bytes) => bytes == spec_probe_reply() || bytes == spec_pack(
                Opcode::ResponseCharacters.spec_code(),
                spec_characters(),
            ),
            _ => true,
        },
{
}

/// A frame built by `spec_pack` starts with a header that states the frame's
/// true size, the fixed correlation value and the opcode.
pub proof fn lemma_packed_frame_header(code: u16, payload: Seq<u8>)
    requires
        payload.len() + 8 <= 0xFFFF,
    ensures
        spec_pack(code, payload).len() == payload.len() + 8,
        spec_decode_header(spec_pack(code, payload)) == Ok::<Header, FramingError>(
            Header { length: (payload.len() + 8) as u16, id: OUTCOME_ID, opcode: code },
        ),
        spec_pack(code, payload).skip(8) == payload,
{
    let total = (8 + payload.len()) as u16;
    let frame = spec_pack(code, payload);
    let empty = Seq::<u8>::empty();
    lemma_u16_be_round_trip(total, empty);
    lemma_u32_le_round_trip(OUTCOME_ID, empty);
    lemma_u16_be_round_trip(code, empty);
    assert(frame.subrange(0, 2) =~= spec_u16_be_bytes(total) + empty);
    assert(frame.subrange(2, 6) =~= spec_u32_le_bytes(OUTCOME_ID) + empty);
    assert(frame.subrange(6, 8) =~= spec_u16_be_bytes(code) + empty);
    assert(frame.skip(8) =~= payload);
}

/// Where the listener stands.
#[derive(Clone, Copy, Debug, PartialEq, Eq, Structural)]
pub enum ListenerState {
    /// The listening socket is being bound.
    Binding,
    /// Connections are being accepted.
    Listening,
    /// The socket could not be bound. Terminal.
    Failed,
}

/// What happened on the listening socket.
#[derive(Clone, Copy, Debug, PartialEq, Eq, Structural)]
pub enum ListenerEvent {
    /// The socket is bound.
    Bound,
    /// The socket could not be bound.
    BindFailed,
    /// A connection was accepted.
    Accepted,
    /// An accept failed.
    AcceptFailed,
}

/// What the owner of the listening socket has to do next.
#[derive(Clone, Copy, Debug, PartialEq, Eq, Structural)]
pub enum ListenerAction {
    /// Wait for the next connection.
    Accept,
    /// Hand the accepted socket to a handler of its own, with a share of the
    /// store, then wait for the next connection.
    Spawn,
    /// Log the failed accept, then wait for the next connection.
    Log,
    /// Give up: the process cannot serve.
    Abort,
}

/// The listener's transition function. A bind that fails is fatal; an accept
/// that fails is logged and the listener goes on.
pub open spec fn spec_listener_step(state: ListenerState, event: ListenerEvent) -> (
    ListenerState,
    ListenerAction,
) {
    match (state, event) {
        (ListenerState::Binding, ListenerEvent::Bound) => (
            ListenerState::Listening,
            ListenerAction::Accept,
        ),
        (ListenerState::Listening, ListenerEvent::Accepted) => (
            ListenerState::Listening,
            ListenerAction::Spawn,
        ),
        (ListenerState::Listening, ListenerEvent::AcceptFailed) => (
            ListenerState::Listening,
            ListenerAction::Log,
        ),
        _ => (ListenerState::Failed, ListenerAction::Abort),
    }
}

/// Takes one step of the listener's state machine.
pub fn listener_step(state: ListenerState, event: ListenerEvent) -> (r: (
    ListenerState,
    ListenerAction,
))
    ensures
        r == spec_listener_step(state, event),
{
    match state {
        ListenerState::Binding => match event {
            ListenerEvent::Bound => (ListenerState::Listening, ListenerAction::Accept),
            _ => (ListenerState::Failed, ListenerAction::Abort),
        },
        ListenerState::Listening => match event {
            ListenerEvent::Accepted => (ListenerState::Listening, ListenerAction::Spawn),
            ListenerEvent::AcceptFailed => (ListenerState::Listening, ListenerAction::Log),
            _ => (ListenerState::Failed, ListenerAction::Abort),
        },
        ListenerState::Failed => (ListenerState::Failed, ListenerAction::Abort),
    }
}

/// The state of the listener after `events`, starting from `state`.
pub open spec fn spec_listener_run(state: ListenerState, events: Seq<ListenerEvent>)
    -> ListenerState
    decreases events.len(),
{
    if events.len() == 0 {
        state
    } else {
        spec_listener_run(spec_listener_step(state, events[0]).0, events.drop_first())
    }
}

/// Once it listens, the listener goes on listening whatever the accepts
/// bring: no failed accept stops it.
pub proof fn lemma_listener_survives_accepts(events: Seq<ListenerEvent>)
    requires
        forall|i: int|
            0 <= i < events.len() ==> #[trigger] events[i] == ListenerEvent::Accepted || events[i]
                == ListenerEvent::AcceptFailed,
    ensures
        spec_listener_run(ListenerState::Listening, events) == ListenerState::Listening,
    decreases events.len(),
{
    if events.len() > 0 {
        let rest = events.drop_first();
        assert(events[0] == ListenerEvent::Accepted || events[0] == ListenerEvent::AcceptFailed);
        assert forall|i: int| 0 <= i < rest.len() implies #[trigger] rest[i]
            == ListenerEvent::Accepted || rest[i] == ListenerEvent::AcceptFailed by {
            assert(rest[i] == events[i + 1]);
        }
        lemma_listener_survives_accepts(rest);
    }
}

} // verus!
