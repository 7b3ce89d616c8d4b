//! What a session does with each frame of the stream. A session starts by
//! waiting for the two snapshots, which may come in either order, and is
//! live once it has both; from then on it forwards updates. The transport
//! and the decoding of payloads are the caller's part: this module decides,
//! the caller acts.

use vstd::prelude::*;

use crate::envelope::{check_message_type, has_tag, payload_bounds, payload_end, payload_start,
    MessageKind, TAG_OFFSET};
use crate::error::DecodeError;

verus! {

/// What the transport delivered.
#[derive(Copy, Clone, PartialEq, Eq, Debug, Structural)]
pub enum FrameKind {
    /// A complete text message.
    Text,
    /// The close signal.
    Close,
    /// Anything else.
    Other,
}

/// Where a session stands.
#[derive(Copy, Clone, PartialEq, Eq, Debug, Structural)]
pub enum SessionState {
    /// Waiting for the snapshots that have not arrived yet.
    Startup { orders_seen: bool, completed_seen: bool },
    /// Both snapshots have arrived; updates are forwarded.
    Live,
    /// The stream was closed.
    Closed,
}

/// What the caller is to do with a frame.
#[derive(Copy, Clone, PartialEq, Eq, Debug, Structural)]
pub enum Action {
    /// Drop the frame.
    Ignore,
    /// Decode the bytes `start..end` of the message as the payload of a
    /// message of kind `kind`, and hand the records on.
    Decode { kind: MessageKind, start: usize, end: usize },
    /// Stop reading.
    Stop,
}

/// A session's answer to a frame.
#[derive(Copy, Clone, PartialEq, Eq, Debug, Structural)]
pub struct Step {
    pub state: SessionState,
    pub action: Action,
}

/// Checking a message for one kind: too short a message is an error, a
/// match ends the search, anything else leaves it to `otherwise`.
pub open spec fn look_for(
    message: Seq<u8>,
    kind: MessageKind,
    otherwise: Result<Option<MessageKind>, DecodeError>,
) -> Result<Option<MessageKind>, DecodeError> {
    if TAG_OFFSET + kind.tag().len() >= message.len() {
        Err(DecodeError::MessageTooShort)
    } else if has_tag(message, kind.tag()) {
        Ok(Some(kind))
    } else {
        otherwise
    }
}

impl SessionState {
    /// A session at the start of a stream.
    pub open spec fn initial() -> SessionState {
        SessionState::Startup { orders_seen: false, completed_seen: false }
    }

    /// The kind of a text message, as far as this state cares: during
    /// startup only the snapshots still missing, afterwards only updates. A
    /// kind the state does not care about, or an unknown one, is `None`.
    pub open spec fn recognized(self, message: Seq<u8>) -> Result<
        Option<MessageKind>,
        DecodeError,
    > {
        match self {
            SessionState::Startup { orders_seen, completed_seen } => {
                let second = if completed_seen {
                    Ok(None)
                } else {
                    look_for(message, MessageKind::CompletedOrders, Ok(None))
                };
                if orders_seen {
                    second
                } else {
                    look_for(message, MessageKind::OrderBook, second)
                }
            },
            SessionState::Live => look_for(
                message,
                MessageKind::OrderBookDelta,
                look_for(message, MessageKind::CompletedOrdersDelta, Ok(None)),
            ),
            SessionState::Closed => Ok(None),
        }
    }

    /// The state after a message of kind `kind` was recognized.
    pub open spec fn after_message(self, kind: MessageKind) -> SessionState {
        match (self, kind) {
            (SessionState::Startup { orders_seen, completed_seen }, MessageKind::OrderBook) => {
                if completed_seen {
                    SessionState::Live
                } else {
                    SessionState::Startup { orders_seen: true, completed_seen }
                }
            },
            (
                SessionState::Startup { orders_seen, completed_seen },
                MessageKind::CompletedOrders,
            ) => {
                if orders_seen {
                    SessionState::Live
                } else {
                    SessionState::Startup { orders_seen, completed_seen: true }
                }
            },
            _ => self,
        }
    }

    /// The answer to a text message.
    pub open spec fn on_text(self, message: Seq<u8>) -> Result<Step, DecodeError> {
        match self.recognized(message) {
            Err(e) => Err(e),
            Ok(None) => Ok(Step { state: self, action: Action::Ignore }),
            Ok(Some(kind)) => {
                let start = payload_start(kind.tag().len() as int);
                let end = payload_end(message.len() as int);
                if start <= end {
                    Ok(
                        Step {
                            state: self.after_message(kind),
                            action: Action::Decode {
                                kind,
                                start: start as usize,
                                end: end as usize,
                            },
                        },
                    )
                } else {
                    Err(DecodeError::PayloadOutOfBounds)
                }
            },
        }
    }

    /// The answer to a frame. A closed session answers every frame with
    /// `Stop`; a close signal closes the session; a frame that is neither
    /// text nor close is ignored.
    pub open spec fn on_frame(self, frame: FrameKind, message: Seq<u8>) -> Result<
        Step,
        DecodeError,
    > {
        if self == SessionState::Closed || frame == FrameKind::Close {
            Ok(Step { state: SessionState::Closed, action: Action::Stop })
        } else if frame == FrameKind::Other {
            Ok(Step { state: self, action: Action::Ignore })
        } else {
            self.on_text(message)
        }
    }

    /// A session at the start of a stream.
    pub fn start() -> (state: SessionState)
        ensures
            state == SessionState::initial(),
    {
        SessionState::Startup { orders_seen: false, completed_seen: false }
    }

    /// Whether both snapshots have arrived and the stream is still open.
    pub fn is_live(&self) -> (live: bool)
        ensures
            live == (*self == SessionState::Live),
    {
        match self {
            SessionState::Live => true,
            _ => false,
        }
    }

    /// Decides what to do with one frame and where the session stands
    /// afterwards. `message` is the frame's payload; it is looked at for
    /// text frames only.
    pub fn handle_frame(self, frame: FrameKind, message: &[u8]) -> (outcome: Result<
        Step,
        DecodeError,
    >)
        ensures
            outcome == self.on_frame(frame, message@),
    {
        match (self, frame) {
            (SessionState::Closed, _) | (_, FrameKind::Close) => {
                return Ok(Step { state: SessionState::Closed, action: Action::Stop });
            },
            (_, FrameKind::Other) => {
                return Ok(Step { state: self, action: Action::Ignore });
            },
            _ => {},
        }
        let found = match recognize(self, message) {
            Ok(found) => found,
            Err(e) => {
                return Err(e);
            },
        };
        match found {
            None => Ok(Step { state: self, action: Action::Ignore }),
            Some(kind) => {
                let tag = kind.tag_bytes();
                match payload_bounds(message.len(), tag.len()) {
                    Ok((start, end)) => Ok(
                        Step {
                            state: advance(self, kind),
                            action: Action::Decode { kind, start, end },
                        },
                    ),
                    Err(e) => Err(e),
                }
            },
        }
    }
}

fn check_kind(message: &[u8], kind: MessageKind) -> (outcome: Result<bool, DecodeError>)
    ensures
        outcome == (if TAG_OFFSET + kind.tag().len() >= message@.len() {
            Err::<bool, DecodeError>(DecodeError::MessageTooShort)
        } else {
            Ok::<bool, DecodeError>(has_tag(message@, kind.tag()))
        }),
{
    check_message_type(message, kind.tag_bytes())
}

fn recognize(state: SessionState, message: &[u8]) -> (outcome: Result<
    Option<MessageKind>,
    DecodeError,
>)
    ensures
        outcome == state.recognized(message@),
{
    let (first, second) = match state {
        SessionState::Startup { orders_seen, completed_seen } => (
            if orders_seen {
                None
            } else {
                Some(MessageKind::OrderBook)
            },
            if completed_seen {
                None
            } else {
                Some(MessageKind::CompletedOrders)
            },
        ),
        SessionState::Live => (
            Some(MessageKind::OrderBookDelta),
            Some(MessageKind::CompletedOrdersDelta),
        ),
        SessionState::Closed => (None, None),
    };
    if let Some(kind) = first {
        match check_kind(message, kind) {
            Err(e) => {
                return Err(e);
            },
            Ok(true) => {
                return Ok(Some(kind));
            },
            Ok(false) => {},
        }
    }
    if let Some(kind) = second {
        match check_kind(message, kind) {
            Err(e) => {
                return Err(e);
            },
            Ok(true) => {
                return Ok(Some(kind));
            },
            Ok(false) => {},
        }
    }
    Ok(None)
}

fn advance(state: SessionState, kind: MessageKind) -> (next: SessionState)
    ensures
        next == state.after_message(kind),
{
    match (state, kind) {
        (SessionState::Startup { orders_seen, completed_seen }, MessageKind::OrderBook) => {
            if completed_seen {
                SessionState::Live
            } else {
                SessionState::Startup { orders_seen: true, completed_seen }
            }
        },
        (SessionState::Startup { orders_seen, completed_seen }, MessageKind::CompletedOrders) => {
            if orders_seen {
                SessionState::Live
            } else {
                SessionState::Startup { orders_seen, completed_seen: true }
            }
        },
        _ => state,
    }
}

/// A session is live exactly when both snapshots have been recognized, in
/// whichever order they came.
pub proof fn lemma_live_after_both_snapshots(first: MessageKind, second: MessageKind)
    requires
        first == MessageKind::OrderBook && second == MessageKind::CompletedOrders || first
            == MessageKind::CompletedOrders && second == MessageKind::OrderBook,
    ensures
        SessionState::initial().after_message(first) != SessionState::Live,
        SessionState::initial().after_message(first).after_message(second) == SessionState::Live,
{
}

/// During startup an update is not acted on: a message long enough for the
/// snapshot tags that carries an update tag is ignored.
pub proof fn lemma_updates_wait_for_snapshots(message: Seq<u8>, kind: MessageKind)
    requires
        kind == MessageKind::OrderBookDelta || kind == MessageKind::CompletedOrdersDelta,
        has_tag(message, kind.tag()),
        message.len() > TAG_OFFSET + MessageKind::CompletedOrders.tag().len(),
    ensures
        SessionState::initial().on_text(message) == Ok::<Step, DecodeError>(
            Step { state: SessionState::initial(), action: Action::Ignore },
        ),
{
    crate::envelope::lemma_tags();
    if has_tag(message, MessageKind::OrderBook.tag()) {
        crate::envelope::lemma_one_kind_at_most(message, kind, MessageKind::OrderBook);
    }
    if has_tag(message, MessageKind::CompletedOrders.tag()) {
        crate::envelope::lemma_one_kind_at_most(message, kind, MessageKind::CompletedOrders);
    }
}

} // verus!
