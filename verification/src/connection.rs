//! The cycle of one connection: await a frame, decode it, encode the
//! response, write it, and start over, until the peer leaves or anything
//! fails. The library decides; the caller does the reading and writing and
//! reports how each step ended.

use vstd::prelude::*;

verus! {

/// Where a connection stands in its cycle.
#[derive(Debug, Clone, Copy, PartialEq, Eq, Structural)]
pub enum ConnectionState {
    /// Waiting for the next frame to arrive in full.
    AwaitingFrame,
    /// A frame arrived and is being decoded.
    Decoding,
    /// The request was decoded and its response is being encoded.
    Encoding,
    /// The response is being written.
    Writing,
    /// The connection is over.
    Closed,
}

/// How a step of the cycle ended.
#[derive(Debug, Clone, Copy, PartialEq, Eq, Structural)]
pub enum ConnectionEvent {
    /// A whole frame was read.
    FrameRead,
    /// The frame decoded to a request.
    RequestDecoded,
    /// The response was encoded.
    ResponseEncoded,
    /// The response was written and flushed.
    ResponseWritten,
    /// The step failed: the peer disconnected, a read came up short, the
    /// frame did not decode, the response could not be framed or the write
    /// failed.
    Failed,
}

/// What the caller has to do next.
#[derive(Debug, Clone, Copy, PartialEq, Eq, Structural)]
pub enum ConnectionAction {
    /// Read a length prefix and the message it announces.
    ReadFrame,
    /// Decode the message that was read.
    DecodeRequest,
    /// Build and encode the response to the decoded request.
    EncodeResponse,
    /// Write the encoded response and flush.
    WriteResponse,
    /// Close the socket.
    CloseSocket,
}

impl ConnectionState {
    /// The state after `event`. Each state goes on to the next on the one
    /// event that ends its step well; every other event closes the
    /// connection, and a closed connection stays closed.
    pub open spec fn next(self, event: ConnectionEvent) -> ConnectionState {
        match (self, event) {
            (ConnectionState::AwaitingFrame, ConnectionEvent::FrameRead) => ConnectionState::Decoding,
            (ConnectionState::Decoding, ConnectionEvent::RequestDecoded) => ConnectionState::Encoding,
            (ConnectionState::Encoding, ConnectionEvent::ResponseEncoded) => ConnectionState::Writing,
            (
                ConnectionState::Writing,
                ConnectionEvent::ResponseWritten,
            ) => ConnectionState::AwaitingFrame,
            _ => ConnectionState::Closed,
        }
    }

    /// What is to be done in this state.
    pub open spec fn action(self) -> ConnectionAction {
        match self {
            ConnectionState::AwaitingFrame => ConnectionAction::ReadFrame,
            ConnectionState::Decoding => ConnectionAction::DecodeRequest,
            ConnectionState::Encoding => ConnectionAction::EncodeResponse,
            ConnectionState::Writing => ConnectionAction::WriteResponse,
            ConnectionState::Closed => ConnectionAction::CloseSocket,
        }
    }

    /// The state after each of `events` in turn.
    pub open spec fn run(self, events: Seq<ConnectionEvent>) -> ConnectionState
        decreases events.len(),
    {
        if events.len() == 0 {
            self
        } else {
            self.next(events[0]).run(events.skip(1))
        }
    }

    /// The state of a connection that was just accepted.
    pub fn new() -> (state: Self)
        ensures
            state == ConnectionState::AwaitingFrame,
    {
        ConnectionState::AwaitingFrame
    }

    /// Moves on by one event.
    pub fn on_event(self, event: ConnectionEvent) -> (state: Self)
        ensures
            state == self.next(event),
    {
        match (self, event) {
            (ConnectionState::AwaitingFrame, ConnectionEvent::FrameRead) => ConnectionState::Decoding,
            (ConnectionState::Decoding, ConnectionEvent::RequestDecoded) => ConnectionState::Encoding,
            (ConnectionState::Encoding, ConnectionEvent::ResponseEncoded) => ConnectionState::Writing,
            (
                ConnectionState::Writing,
                ConnectionEvent::ResponseWritten,
            ) => ConnectionState::AwaitingFrame,
            _ => ConnectionState::Closed,
        }
    }

    /// What the caller has to do in this state.
    pub fn pending_action(&self) -> (action: ConnectionAction)
        ensures
            action == self.action(),
    {
        match self {
            ConnectionState::AwaitingFrame => ConnectionAction::ReadFrame,
            ConnectionState::Decoding => ConnectionAction::DecodeRequest,
            ConnectionState::Encoding => ConnectionAction::EncodeResponse,
            ConnectionState::Writing => ConnectionAction::WriteResponse,
            ConnectionState::Closed => ConnectionAction::CloseSocket,
        }
    }

    /// Whether the connection is over.
    pub fn is_closed(&self) -> (closed: bool)
        ensures
            closed == (*self == ConnectionState::Closed),
    {
        match self {
            ConnectionState::Closed => true,
            _ => false,
        }
    }

    /// A closed connection stays closed, whatever happens.
    pub proof fn lemma_closed_is_final(events: Seq<ConnectionEvent>)
        ensures
            ConnectionState::Closed.run(events) == ConnectionState::Closed,
        decreases events.len(),
    {
        if events.len() > 0 {
            Self::lemma_closed_is_final(events.skip(1));
        }
    }

    /// A failure closes the connection from every state, and nothing that
    /// follows reopens it: a malformed frame is never retried.
    pub proof fn lemma_failure_closes(state: ConnectionState, later: Seq<ConnectionEvent>)
        ensures
            state.next(ConnectionEvent::Failed) == ConnectionState::Closed,
            state.next(ConnectionEvent::Failed).run(later) == ConnectionState::Closed,
    {
        Self::lemma_closed_is_final(later);
    }

    /// One request is served in four steps, after which the connection
    /// awaits the next frame.
    pub proof fn lemma_full_cycle()
        ensures
            ConnectionState::AwaitingFrame.run(
                seq![
                    ConnectionEvent::FrameRead,
                    ConnectionEvent::RequestDecoded,
                    ConnectionEvent::ResponseEncoded,
                    ConnectionEvent::ResponseWritten,
                ],
            ) == ConnectionState::AwaitingFrame,
    {
        reveal_with_fuel(ConnectionState::run, 5);
        let events = seq![
            ConnectionEvent::FrameRead,
            ConnectionEvent::RequestDecoded,
            ConnectionEvent::ResponseEncoded,
            ConnectionEvent::ResponseWritten,
        ];
        assert(events.skip(1).skip(1).skip(1).skip(1).len() == 0);
    }

    /// The connection awaits a frame again only after a response was
    /// written, and writes only what was encoded from a decoded request:
    /// responses follow requests one for one and in order.
    pub proof fn lemma_steps_in_order(state: ConnectionState, event: ConnectionEvent)
        ensures
            state.next(event) == ConnectionState::AwaitingFrame ==> state == ConnectionState::Writing
                && event == ConnectionEvent::ResponseWritten,
            state.next(event) == ConnectionState::Writing ==> state == ConnectionState::Encoding
                && event == ConnectionEvent::ResponseEncoded,
            state.next(event) == ConnectionState::Encoding ==> state == ConnectionState::Decoding
                && event == ConnectionEvent::RequestDecoded,
            state.next(event) == ConnectionState::Decoding ==> state
                == ConnectionState::AwaitingFrame && event == ConnectionEvent::FrameRead,
    {
    }
}

} // verus!
