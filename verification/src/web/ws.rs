//! The decisions of the ingest progress websocket.
//!
//! The application runs the connection: it waits for whichever comes first
//! (a client frame, an ingest event, the heartbeat), hands it to
//! `socket_step`, performs the returned action, and stops when told to or
//! when a send fails.
use vstd::prelude::*;

verus! {

/// What the connection loop woke up for.
pub enum SocketInput {
    /// A text frame from the client (only logged).
    ClientText,
    /// A ping from the client, with its payload.
    ClientPing(Vec<u8>),
    /// The client closed the connection.
    ClientClose,
    /// Reading from the client failed.
    ReadError,
    /// The client stream ended.
    ClientGone,
    /// Any other client frame.
    ClientOther,
    /// An ingest event to forward.
    Event,
    /// The event subscription fell behind and dropped this many events.
    Lagged(u64),
    /// The event source is closed.
    SourceClosed,
    /// The heartbeat interval elapsed.
    Heartbeat,
}

/// What the connection loop does next.
pub enum SocketAction {
    /// Nothing to send; keep going.
    Continue,
    /// Answer a ping with this payload.
    SendPong(Vec<u8>),
    /// Send the event to the client.
    ForwardEvent,
    /// Tell the client how many events were dropped.
    SendLagged(u64),
    /// Send a heartbeat ping.
    SendPing,
    /// Close the loop.
    Stop,
}

/// The action for one input.
pub open spec fn spec_socket_step(input: SocketInput) -> SocketAction {
    match input {
        SocketInput::ClientText => SocketAction::Continue,
        SocketInput::ClientPing(data) => SocketAction::SendPong(data),
        SocketInput::ClientClose => SocketAction::Stop,
        SocketInput::ReadError => SocketAction::Stop,
        SocketInput::ClientGone => SocketAction::Stop,
        SocketInput::ClientOther => SocketAction::Continue,
        SocketInput::Event => SocketAction::ForwardEvent,
        SocketInput::Lagged(n) => SocketAction::SendLagged(n),
        SocketInput::SourceClosed => SocketAction::Stop,
        SocketInput::Heartbeat => SocketAction::SendPing,
    }
}

/// Decide what to do with one input of the connection loop.
pub fn socket_step(input: SocketInput) -> (a: SocketAction)
    ensures
        a == spec_socket_step(input),
{
    match input {
        SocketInput::ClientText => SocketAction::Continue,
        SocketInput::ClientPing(data) => SocketAction::SendPong(data),
        SocketInput::ClientClose => SocketAction::Stop,
        SocketInput::ReadError => SocketAction::Stop,
        SocketInput::ClientGone => SocketAction::Stop,
        SocketInput::ClientOther => SocketAction::Continue,
        SocketInput::Event => SocketAction::ForwardEvent,
        SocketInput::Lagged(n) => SocketAction::SendLagged(n),
        SocketInput::SourceClosed => SocketAction::Stop,
        SocketInput::Heartbeat => SocketAction::SendPing,
    }
}

/// Every input that ends the client side or the event source stops the
/// loop, and no other input does.
pub proof fn lemma_stops_exactly_on_end(input: SocketInput)
    ensures
        (spec_socket_step(input) is Stop) <==> (input is ClientClose || input is ReadError || input is ClientGone
            || input is SourceClosed),
{
}

} // verus!
