//! The envelope of a stream message. Every message is a JSON object whose
//! type tag starts at a fixed byte offset and whose payload array starts at
//! a fixed distance behind the tag, so a message is classified and framed by
//! byte positions alone, before anything is parsed.

use vstd::prelude::*;

use crate::decimal::ascii_bytes;
use crate::error::DecodeError;

verus! {

/// Number of bytes that precede the type tag in every message.
pub const TAG_OFFSET: usize = 15;

/// Number of bytes between the end of the type tag and the payload.
pub const PAYLOAD_GAP: usize = 36;

/// Number of bytes that close the envelope behind the payload.
pub const TRAILER_LEN: usize = 2;

/// The byte that must follow the type tag: a double quote.
pub const QUOTE: u8 = 0x22;

/// The message kinds that the stream carries.
#[derive(Copy, Clone, PartialEq, Eq, Debug, Structural)]
pub enum MessageKind {
    /// The snapshot of resting orders, once at the start.
    OrderBook,
    /// The snapshot of completed executions, once at the start.
    CompletedOrders,
    /// An update of resting orders.
    OrderBookDelta,
    /// An update of completed executions.
    CompletedOrdersDelta,
}

/// The bytes of `message` from `TAG_OFFSET` on spell `tag`, and a closing
/// quote follows them. The quote keeps a tag from matching where it is only
/// the beginning of a longer one.
pub open spec fn has_tag(message: Seq<u8>, tag: Seq<u8>) -> bool {
    &&& TAG_OFFSET + tag.len() < message.len()
    &&& message.subrange(TAG_OFFSET as int, TAG_OFFSET + tag.len()) == tag
    &&& message[TAG_OFFSET + tag.len()] == QUOTE
}

/// Where the payload of a message starts, given the length of its tag.
pub open spec fn payload_start(tag_len: int) -> int {
    TAG_OFFSET + tag_len + PAYLOAD_GAP
}

/// Where the payload of a message ends.
pub open spec fn payload_end(message_len: int) -> int {
    message_len - TRAILER_LEN
}

impl MessageKind {
    /// The type tag as text.
    pub open spec fn tag_text(self) -> Seq<char> {
        match self {
            MessageKind::OrderBook => "orderBook"@,
            MessageKind::CompletedOrders => "completedOrders"@,
            MessageKind::OrderBookDelta => "orderBookDelta"@,
            MessageKind::CompletedOrdersDelta => "completedOrdersDelta"@,
        }
    }

    /// The type tag as the bytes found in a message.
    pub open spec fn tag(self) -> Seq<u8> {
        ascii_bytes(self.tag_text())
    }

    /// The type tag of this kind.
    pub fn tag_bytes(&self) -> (tag: &'static [u8])
        ensures
            tag@ == self.tag(),
    {
        let text: &'static str = match self {
            MessageKind::OrderBook => "orderBook",
            MessageKind::CompletedOrders => "completedOrders",
            MessageKind::OrderBookDelta => "orderBookDelta",
            MessageKind::CompletedOrdersDelta => "completedOrdersDelta",
        };
        proof {
            reveal_strlit("orderBook");
            reveal_strlit("completedOrders");
            reveal_strlit("orderBookDelta");
            reveal_strlit("completedOrdersDelta");
            vstd::string::is_ascii_spec_bytes(text);
        }
        let tag = text.as_bytes();
        proof {
            assert(tag@ =~= ascii_bytes(text@));
        }
        tag
    }
}

/// Tells whether `message` carries the type tag `desired_type`. The message
/// must be long enough to hold the tag and the quote behind it.
pub fn is_message_type(message: &[u8], desired_type: &[u8]) -> (matched: bool)
    requires
        TAG_OFFSET + desired_type@.len() < message@.len(),
    ensures
        matched == has_tag(message@, desired_type@),
{
    let n: usize = desired_type.len();
    let m: usize = message.len();
    let mut i: usize = 0;
    while i < n
        invariant
            n == desired_type@.len(),
            m == message@.len(),
            TAG_OFFSET + n < m,
            i <= n,
            forall|j: int| 0 <= j < i ==> message@[TAG_OFFSET + j] == desired_type@[j],
        decreases n - i,
    {
        if message[TAG_OFFSET + i] != desired_type[i] {
            assert(message@.subrange(TAG_OFFSET as int, TAG_OFFSET + n)[i as int]
                != desired_type@[i as int]);
            return false;
        }
        i += 1;
    }
    assert(message@.subrange(TAG_OFFSET as int, TAG_OFFSET + n) =~= desired_type@);
    message[TAG_OFFSET + n] == QUOTE
}

/// Tells whether `message` carries the type tag `desired_type`, and fails
/// where the message ends before the window that would hold the tag and its
/// quote.
pub fn check_message_type(message: &[u8], desired_type: &[u8]) -> (outcome: Result<
    bool,
    DecodeError,
>)
    ensures
        outcome == (if TAG_OFFSET + desired_type@.len() < message@.len() {
            Ok::<bool, DecodeError>(has_tag(message@, desired_type@))
        } else {
            Err::<bool, DecodeError>(DecodeError::MessageTooShort)
        }),
{
    if message.len() <= TAG_OFFSET || message.len() - TAG_OFFSET <= desired_type.len() {
        return Err(DecodeError::MessageTooShort);
    }
    Ok(is_message_type(message, desired_type))
}

/// The byte range of the payload in a message of `message_len` bytes whose
/// tag is `tag_len` bytes long: it starts `PAYLOAD_GAP` bytes behind the tag
/// and stops `TRAILER_LEN` bytes before the end of the message. Fails where
/// the message is too short to hold that range.
pub fn payload_bounds(message_len: usize, tag_len: usize) -> (outcome: Result<
    (usize, usize),
    DecodeError,
>)
    ensures
        outcome == (if payload_start(tag_len as int) <= payload_end(message_len as int) {
            Ok::<(usize, usize), DecodeError>(
                (payload_start(tag_len as int) as usize, payload_end(message_len as int) as usize),
            )
        } else {
            Err::<(usize, usize), DecodeError>(DecodeError::PayloadOutOfBounds)
        }),
{
    if message_len < TAG_OFFSET + PAYLOAD_GAP + TRAILER_LEN || message_len - (TAG_OFFSET
        + PAYLOAD_GAP + TRAILER_LEN) < tag_len {
        return Err(DecodeError::PayloadOutOfBounds);
    }
    Ok((TAG_OFFSET + tag_len + PAYLOAD_GAP, message_len - TRAILER_LEN))
}

/// The payload of a message of the given kind: the bytes between the
/// envelope's opening and its closing.
pub fn payload<'a>(message: &'a [u8], kind: MessageKind) -> (outcome: Result<
    &'a [u8],
    DecodeError,
>)
    ensures
        match outcome {
            Ok(bytes) => payload_start(kind.tag().len() as int) <= payload_end(
                message@.len() as int,
            ) && bytes@ == message@.subrange(
                payload_start(kind.tag().len() as int),
                payload_end(message@.len() as int),
            ),
            Err(e) => e == DecodeError::PayloadOutOfBounds && payload_start(
                kind.tag().len() as int,
            ) > payload_end(message@.len() as int),
        },
{
    let tag = kind.tag_bytes();
    match payload_bounds(message.len(), tag.len()) {
        Ok((start, end)) => Ok(vstd::slice::slice_subrange(message, start, end)),
        Err(e) => Err(e),
    }
}

/// The tags as bytes, for proofs that compare them.
pub proof fn lemma_tags()
    ensures
        MessageKind::OrderBook.tag() == seq![
            0x6fu8, 0x72, 0x64, 0x65, 0x72, 0x42, 0x6f, 0x6f, 0x6b,
        ],
        MessageKind::OrderBook.tag().len() == 9,
        MessageKind::CompletedOrders.tag().len() == 15,
        MessageKind::OrderBookDelta.tag().len() == 14,
        MessageKind::CompletedOrdersDelta.tag().len() == 20,
        MessageKind::OrderBookDelta.tag()[9] == 0x44u8,
        MessageKind::CompletedOrdersDelta.tag()[15] == 0x44u8,
        MessageKind::OrderBook.tag()[0] == 0x6fu8,
        MessageKind::CompletedOrders.tag()[0] == 0x63u8,
        MessageKind::OrderBookDelta.tag()[0] == 0x6fu8,
        MessageKind::CompletedOrdersDelta.tag()[0] == 0x63u8,
{
    reveal_strlit("orderBook");
    reveal_strlit("completedOrders");
    reveal_strlit("orderBookDelta");
    reveal_strlit("completedOrdersDelta");
    assert(MessageKind::OrderBook.tag() =~= seq![
        0x6fu8, 0x72, 0x64, 0x65, 0x72, 0x42, 0x6f, 0x6f, 0x6b,
    ]);
}

/// Where the bytes behind a tag go on with anything but a quote, the
/// message does not carry that tag: a longer tag is never taken for a
/// shorter one that it begins with.
pub proof fn lemma_longer_tag_is_not_its_beginning(message: Seq<u8>, tag: Seq<u8>, rest: Seq<u8>)
    requires
        rest.len() > 0,
        rest[0] != QUOTE,
        TAG_OFFSET + tag.len() + rest.len() <= message.len(),
        message.subrange(TAG_OFFSET as int, TAG_OFFSET + tag.len() + rest.len()) == tag + rest,
    ensures
        !has_tag(message, tag),
{
    let window = message.subrange(TAG_OFFSET as int, TAG_OFFSET + tag.len() + rest.len());
    assert(window[tag.len() as int] == message[TAG_OFFSET + tag.len()]);
    assert((tag + rest)[tag.len() as int] == rest[0]);
}

/// A message carries the tag of one kind at most. In particular an order
/// update, whose tag begins with the tag of the order snapshot, is not
/// taken for a snapshot.
pub proof fn lemma_one_kind_at_most(message: Seq<u8>, one: MessageKind, other: MessageKind)
    requires
        has_tag(message, one.tag()),
        has_tag(message, other.tag()),
    ensures
        one == other,
{
    lemma_tags();
    let window = |tag: Seq<u8>| message.subrange(TAG_OFFSET as int, TAG_OFFSET + tag.len());
    if one != other {
        let a = one.tag();
        let b = other.tag();
        assert(window(a)[0] == message[TAG_OFFSET as int]);
        assert(window(b)[0] == message[TAG_OFFSET as int]);
        if a.len() < b.len() {
            assert(window(b)[a.len() as int] == message[TAG_OFFSET + a.len()]);
        } else {
            assert(window(a)[b.len() as int] == message[TAG_OFFSET + b.len()]);
        }
    }
}

} // verus!
