//! The bridge between a client's WebSocket and the backend's: which message
//! becomes which on the other side, and what each direction does next.

use vstd::prelude::*;

verus! {

/// The code and the reason that a close message can carry.
#[derive(Debug, PartialEq, Eq)]
pub struct CloseFrame {
    pub code: u16,
    pub reason: String,
}

/// A message on the client's side.
#[derive(Debug, PartialEq, Eq)]
pub enum ClientMessage {
    Text(String),
    Binary(Vec<u8>),
    Ping(Vec<u8>),
    Pong(Vec<u8>),
    Close(Option<CloseFrame>),
}

/// A message on the backend's side, where a raw frame can come up as well.
#[derive(Debug, PartialEq, Eq)]
pub enum BackendMessage {
    Text(String),
    Binary(Vec<u8>),
    Ping(Vec<u8>),
    Pong(Vec<u8>),
    Close(Option<CloseFrame>),
    Frame,
}

/// Where one direction of the bridge stands.
#[derive(Debug, Clone, Copy, PartialEq, Eq, Structural)]
pub enum RelayState {
    /// It waits for a message.
    Receiving,
    /// It waits for a message to be sent on.
    Sending,
    /// It is over.
    Stopped,
}

/// What happened to one direction of the bridge.
#[derive(Debug, PartialEq, Eq)]
pub enum RelayEvent<M> {
    /// A message came in.
    Received(M),
    /// Receiving failed.
    ReceiveFailed,
    /// The sender has closed the connection.
    Ended,
    /// The message was sent on.
    Sent,
    /// Sending failed.
    SendFailed,
}

/// What one direction of the bridge does next.
#[derive(Debug, PartialEq, Eq)]
pub enum RelayAction<M> {
    Receive,
    Send(M),
    Stop,
}

/// What the backend gets for a message of the client.
pub open spec fn for_backend(message: ClientMessage) -> Option<BackendMessage> {
    match message {
        ClientMessage::Text(text) => Some(BackendMessage::Text(text)),
        ClientMessage::Binary(bytes) => Some(BackendMessage::Binary(bytes)),
        ClientMessage::Ping(bytes) => Some(BackendMessage::Ping(bytes)),
        ClientMessage::Pong(bytes) => Some(BackendMessage::Pong(bytes)),
        ClientMessage::Close(frame) => Some(BackendMessage::Close(frame)),
    }
}

/// What the client gets for a message of the backend: nothing for a raw frame.
pub open spec fn for_client(message: BackendMessage) -> Option<ClientMessage> {
    match message {
        BackendMessage::Text(text) => Some(ClientMessage::Text(text)),
        BackendMessage::Binary(bytes) => Some(ClientMessage::Binary(bytes)),
        BackendMessage::Ping(bytes) => Some(ClientMessage::Ping(bytes)),
        BackendMessage::Pong(bytes) => Some(ClientMessage::Pong(bytes)),
        BackendMessage::Close(frame) => Some(ClientMessage::Close(frame)),
        BackendMessage::Frame => None,
    }
}

/// Whether an event can come up in a state: an answer to the last action.
pub open spec fn fits<M>(state: RelayState, event: RelayEvent<M>) -> bool {
    match state {
        RelayState::Receiving => {
            ||| event is Received
            ||| event is ReceiveFailed
            ||| event is Ended
        },
        RelayState::Sending => event is Sent || event is SendFailed,
        RelayState::Stopped => false,
    }
}

/// The step of one direction: a message that becomes something on the other
/// side is sent on, a failure or the end of the connection stops the
/// direction, and after anything else the next message is awaited.
pub open spec fn step<M, N>(convert: spec_fn(M) -> Option<N>, event: RelayEvent<M>) -> (
    RelayState,
    RelayAction<N>,
) {
    match event {
        RelayEvent::Received(message) => match convert(message) {
            Some(converted) => (RelayState::Sending, RelayAction::Send(converted)),
            None => (RelayState::Receiving, RelayAction::Receive),
        },
        RelayEvent::Sent => (RelayState::Receiving, RelayAction::Receive),
        RelayEvent::ReceiveFailed | RelayEvent::Ended | RelayEvent::SendFailed => (
            RelayState::Stopped,
            RelayAction::Stop,
        ),
    }
}

/// Turns a message of the client into one for the backend.
pub fn convert_axum_to_tungstenite(msg: ClientMessage) -> (r: Option<BackendMessage>)
    ensures
        r == for_backend(msg),
{
    Some(
        match msg {
            ClientMessage::Text(text) => BackendMessage::Text(text),
            ClientMessage::Binary(bytes) => BackendMessage::Binary(bytes),
            ClientMessage::Ping(bytes) => BackendMessage::Ping(bytes),
            ClientMessage::Pong(bytes) => BackendMessage::Pong(bytes),
            ClientMessage::Close(frame) => BackendMessage::Close(frame),
        },
    )
}

/// Turns a message of the backend into one for the client, if it becomes one.
pub fn convert_tungstenite_to_axum(msg: BackendMessage) -> (r: Option<ClientMessage>)
    ensures
        r == for_client(msg),
{
    Some(
        match msg {
            BackendMessage::Text(text) => ClientMessage::Text(text),
            BackendMessage::Binary(bytes) => ClientMessage::Binary(bytes),
            BackendMessage::Ping(bytes) => ClientMessage::Ping(bytes),
            BackendMessage::Pong(bytes) => ClientMessage::Pong(bytes),
            BackendMessage::Close(frame) => ClientMessage::Close(frame),
            BackendMessage::Frame => {
                return None;
            },
        },
    )
}

/// The step of the direction from the client to the backend.
pub fn client_to_backend(state: RelayState, event: RelayEvent<ClientMessage>) -> (r: (
    RelayState,
    RelayAction<BackendMessage>,
))
    requires
        fits(state, event),
    ensures
        r == step(|message: ClientMessage| for_backend(message), event),
{
    match event {
        RelayEvent::Received(message) => match convert_axum_to_tungstenite(message) {
            Some(converted) => (RelayState::Sending, RelayAction::Send(converted)),
            None => (state, RelayAction::Receive),
        },
        RelayEvent::Sent => (RelayState::Receiving, RelayAction::Receive),
        RelayEvent::ReceiveFailed | RelayEvent::Ended | RelayEvent::SendFailed => {
            (RelayState::Stopped, RelayAction::Stop)
        },
    }
}

/// The step of the direction from the backend to the client.
pub fn backend_to_client(state: RelayState, event: RelayEvent<BackendMessage>) -> (r: (
    RelayState,
    RelayAction<ClientMessage>,
))
    requires
        fits(state, event),
    ensures
        r == step(|message: BackendMessage| for_client(message), event),
{
    match event {
        RelayEvent::Received(message) => match convert_tungstenite_to_axum(message) {
            Some(converted) => (RelayState::Sending, RelayAction::Send(converted)),
            None => (state, RelayAction::Receive),
        },
        RelayEvent::Sent => (RelayState::Receiving, RelayAction::Receive),
        RelayEvent::ReceiveFailed | RelayEvent::Ended | RelayEvent::SendFailed => {
            (RelayState::Stopped, RelayAction::Stop)
        },
    }
}

/// The state of a direction after these events.
pub open spec fn state_after<M, N>(
    convert: spec_fn(M) -> Option<N>,
    events: Seq<RelayEvent<M>>,
) -> RelayState {
    if events.len() == 0 {
        RelayState::Receiving
    } else {
        step(convert, events.last()).0
    }
}

/// Whether a direction can see these events: each fits the state that those
/// before it led to.
pub open spec fn is_run<M, N>(
    convert: spec_fn(M) -> Option<N>,
    events: Seq<RelayEvent<M>>,
) -> bool {
    forall|i: int|
        0 <= i < events.len() ==> fits(state_after(convert, events.take(i)), #[trigger] events[i])
}

/// The messages that a direction sends on at these events, in order.
pub open spec fn sent<M, N>(
    convert: spec_fn(M) -> Option<N>,
    events: Seq<RelayEvent<M>>,
) -> Seq<N>
    decreases events.len(),
{
    if events.len() == 0 {
        Seq::empty()
    } else {
        match step(convert, events.last()).1 {
            RelayAction::Send(message) => sent(convert, events.drop_last()).push(message),
            _ => sent(convert, events.drop_last()),
        }
    }
}

/// The messages that came in with these events, in order.
pub open spec fn received<M>(events: Seq<RelayEvent<M>>) -> Seq<M>
    decreases events.len(),
{
    if events.len() == 0 {
        Seq::empty()
    } else {
        match events.last() {
            RelayEvent::Received(message) => received(events.drop_last()).push(message),
            _ => received(events.drop_last()),
        }
    }
}

/// What `messages` become on the other side, without those that become nothing.
pub open spec fn converted<M, N>(
    convert: spec_fn(M) -> Option<N>,
    messages: Seq<M>,
) -> Seq<N>
    decreases messages.len(),
{
    if messages.len() == 0 {
        Seq::empty()
    } else {
        match convert(messages.last()) {
            Some(message) => converted(convert, messages.drop_last()).push(message),
            None => converted(convert, messages.drop_last()),
        }
    }
}

/// A direction sends on what it receives, each message that becomes something
/// on the other side once, in the order of arrival, and nothing else.
pub proof fn law_messages_are_sent_on_in_order<M, N>(
    convert: spec_fn(M) -> Option<N>,
    events: Seq<RelayEvent<M>>,
)
    ensures
        sent(convert, events) == converted(convert, received(events)),
    decreases events.len(),
{
    if events.len() > 0 {
        law_messages_are_sent_on_in_order(convert, events.drop_last());
        if let RelayEvent::Received(message) = events.last() {
            assert(received(events).drop_last() == received(events.drop_last()));
        }
    }
}

/// A direction that has stopped sees no further event, and one stops exactly
/// on a failure or on the end of the connection that it receives from.
pub proof fn law_a_direction_stops_once<M, N>(
    convert: spec_fn(M) -> Option<N>,
    events: Seq<RelayEvent<M>>,
    i: int,
)
    requires
        is_run(convert, events),
        0 <= i < events.len(),
    ensures
        events[i] is ReceiveFailed || events[i] is Ended || events[i] is SendFailed <==> state_after(
            convert,
            events.take(i + 1),
        ) is Stopped,
        state_after(convert, events.take(i + 1)) is Stopped ==> i + 1 == events.len(),
{
    assert(events.take(i + 1).last() == events[i]);
    if i + 1 < events.len() {
        assert(fits(state_after(convert, events.take(i + 1)), events[i + 1]));
    }
}

/// A message keeps its kind and all that it carries, in either direction.
pub proof fn law_messages_keep_kind_and_content(
    text: String,
    bytes: Vec<u8>,
    frame: Option<CloseFrame>,
)
    ensures
        for_backend(ClientMessage::Text(text)) == Some(BackendMessage::Text(text)),
        for_backend(ClientMessage::Binary(bytes)) == Some(BackendMessage::Binary(bytes)),
        for_backend(ClientMessage::Ping(bytes)) == Some(BackendMessage::Ping(bytes)),
        for_backend(ClientMessage::Pong(bytes)) == Some(BackendMessage::Pong(bytes)),
        for_backend(ClientMessage::Close(frame)) == Some(BackendMessage::Close(frame)),
        for_client(BackendMessage::Text(text)) == Some(ClientMessage::Text(text)),
        for_client(BackendMessage::Binary(bytes)) == Some(ClientMessage::Binary(bytes)),
        for_client(BackendMessage::Ping(bytes)) == Some(ClientMessage::Ping(bytes)),
        for_client(BackendMessage::Pong(bytes)) == Some(ClientMessage::Pong(bytes)),
        for_client(BackendMessage::Close(frame)) == Some(ClientMessage::Close(frame)),
        for_client(BackendMessage::Frame) is None,
{
}

/// A message that becomes something on the other side is sent on at once, and
/// one that becomes nothing is passed over; after either, and after a message
/// was sent on, the direction goes on, and a failure or the end stops it.
pub proof fn law_what_each_event_leads_to<M, N>(
    convert: spec_fn(M) -> Option<N>,
    message: M,
    converted: N,
)
    ensures
        convert(message) == Some(converted) ==> step(convert, RelayEvent::Received(message)) == (
            RelayState::Sending,
            RelayAction::Send(converted),
        ),
        convert(message) is None ==> step(convert, RelayEvent::Received(message)) == (
            RelayState::Receiving,
            RelayAction::<N>::Receive,
        ),
        step(convert, RelayEvent::<M>::Sent) == (RelayState::Receiving, RelayAction::<N>::Receive),
        step(convert, RelayEvent::<M>::ReceiveFailed) == (
            RelayState::Stopped,
            RelayAction::<N>::Stop,
        ),
        step(convert, RelayEvent::<M>::Ended) == (RelayState::Stopped, RelayAction::<N>::Stop),
        step(convert, RelayEvent::<M>::SendFailed) == (RelayState::Stopped, RelayAction::<N>::Stop),
{
}

/// A direction that receives takes a message, a failure or the end, one that
/// sends takes success or failure, and one that has stopped takes nothing.
pub proof fn law_every_answer_is_taken<M>(event: RelayEvent<M>)
    ensures
        fits(RelayState::Receiving, event) <==> event is Received || event is ReceiveFailed
            || event is Ended,
        fits(RelayState::Sending, event) <==> event is Sent || event is SendFailed,
        !fits(RelayState::Stopped, event),
{
}

/// Every message of the client becomes one for the backend, and comes back
/// from there as it was.
pub proof fn law_client_messages_come_back(message: ClientMessage)
    ensures
        for_backend(message) matches Some(there) && for_client(there) == Some(message),
{
}

/// Every message of the backend but a raw frame becomes one for the client,
/// and comes back from there as it was.
pub proof fn law_backend_messages_come_back(message: BackendMessage)
    ensures
        for_client(message) is None <==> message is Frame,
        for_client(message) matches Some(there) ==> for_backend(there) == Some(message),
{
}

} // verus!
