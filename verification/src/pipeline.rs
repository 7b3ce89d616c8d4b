//! The pipeline between the reader of the stream and the state it feeds.
//! Two bounded channels carry batches, one for order updates and one for
//! completed executions. Each has one consumer, which owns its state, takes
//! batches in the order they were sent and applies a batch's records in
//! list order. This module builds the channels and the consumers' state,
//! and holds what a consumer does with a batch; the threads that run the
//! consumers are the caller's.

use vstd::prelude::*;

use crate::book::{BookError, BookState, OrderBook};
use crate::decode::{decode_executions, decode_orders, decoded_executions, decoded_orders};
use crate::error::DecodeError;
use crate::executions::{count_after, milestone_reached, ExecutionAggregator};
use crate::models::{RawCompletedOrder, RawOrder};
use crate::render::{book_text, render_book};

verus! {

/// How many batches each channel holds before a sender has to wait.
pub const CHANNEL_CAPACITY: usize = 16;

/// The sending end of a `kanal` channel. Nothing of what is inside is
/// visible here: the handle is only carried to whoever sends.
#[verifier::external_type_specification]
#[verifier::external_body]
#[verifier::reject_recursive_types(T)]
pub struct ExSender<T>(kanal::Sender<T>);

/// The receiving end of a `kanal` channel, carried to whoever receives.
#[verifier::external_type_specification]
#[verifier::external_body]
#[verifier::reject_recursive_types(T)]
pub struct ExReceiver<T>(kanal::Receiver<T>);

/// Calls `kanal::bounded`, which makes a channel whose queue holds up to
/// `capacity` items and hands back its two ends. The queue is allocated at
/// once, which fails for a request beyond what memory can hold, so only
/// small capacities are asked for. Nothing is claimed of the ends: what a
/// channel holds changes under the hands of everyone who shares it.
#[verifier::external_body]
fn bounded_channel<T>(capacity: usize) -> (ends: (kanal::Sender<T>, kanal::Receiver<T>))
    requires
        capacity <= 1024,
{
    kanal::bounded(capacity)
}

/// What the reader of the stream and the two consumers start from.
pub struct Pipeline {
    /// The book, live and holding the snapshot: for the order consumer.
    pub book: OrderBook,
    /// The count, having seen the snapshot: for the execution consumer.
    pub aggregator: ExecutionAggregator,
    /// Where the reader sends batches of order updates.
    pub orders_sender: kanal::Sender<Vec<RawOrder>>,
    /// Where the order consumer takes them.
    pub orders_receiver: kanal::Receiver<Vec<RawOrder>>,
    /// Where the reader sends batches of completed executions.
    pub completed_sender: kanal::Sender<Vec<RawCompletedOrder>>,
    /// Where the execution consumer takes them.
    pub completed_receiver: kanal::Receiver<Vec<RawCompletedOrder>>,
}

/// Why a consumer stopped.
#[derive(Copy, Clone, PartialEq, Eq, Debug, Structural)]
pub enum PipelineError {
    /// A record of the batch could not be read.
    Decode(DecodeError),
    /// The book refused the batch.
    Book(BookError),
}

/// The book that a snapshot of wire records leaves, or why it cannot be
/// read.
pub open spec fn primed_book(orders: Seq<RawOrder>) -> Result<BookState, DecodeError> {
    match decoded_orders(orders) {
        Err(e) => Err(e),
        Ok(orders) => Ok(BookState::from_snapshot(orders)),
    }
}

/// The execution count after a list of wire records, or why the list
/// cannot be read.
pub open spec fn recorded(count: nat, executions: Seq<RawCompletedOrder>) -> Result<
    nat,
    DecodeError,
> {
    match decoded_executions(executions) {
        Err(e) => Err(e),
        Ok(_) => Ok(count_after(count, executions.len())),
    }
}

/// The book after a batch of wire records. A book that has seen no
/// snapshot refuses every batch; otherwise a record that cannot be read
/// fails the batch; otherwise the deltas are applied in list order.
pub open spec fn book_after_batch(book: BookState, batch: Seq<RawOrder>) -> Result<
    BookState,
    PipelineError,
> {
    if !book.live {
        Err(PipelineError::Book(BookError::NotInitialized))
    } else {
        match decoded_orders(batch) {
            Err(e) => Err(PipelineError::Decode(e)),
            Ok(deltas) => Ok(book.after_all(deltas)),
        }
    }
}

/// Builds the state of both consumers from the two snapshots: a live book
/// that holds the snapshot's orders, and a count that has seen the
/// snapshot's executions. The orders are read first.
pub fn prime(orders: &Vec<RawOrder>, completed: &Vec<RawCompletedOrder>) -> (outcome: Result<
    (OrderBook, ExecutionAggregator),
    DecodeError,
>)
    ensures
        match outcome {
            Ok((book, aggregator)) => primed_book(orders@) == Ok::<BookState, DecodeError>(book@)
                && recorded(0, completed@) == Ok::<nat, DecodeError>(aggregator@)
                && book@.well_formed(),
            Err(e) => primed_book(orders@) == Err::<BookState, DecodeError>(e) || (primed_book(
                orders@,
            ) is Ok && recorded(0, completed@) == Err::<nat, DecodeError>(e)),
        },
{
    let orders = match decode_orders(orders) {
        Ok(orders) => orders,
        Err(e) => {
            return Err(e);
        },
    };
    let executions = match decode_executions(completed) {
        Ok(executions) => executions,
        Err(e) => {
            return Err(e);
        },
    };
    let mut book = OrderBook::new();
    book.apply_snapshot(&orders);
    let mut aggregator = ExecutionAggregator::new();
    let _ = aggregator.record(&executions);
    proof {
        crate::decode::lemma_decoded_len(
            completed@.map_values(|r: RawCompletedOrder| crate::decode::decoded_execution(r)),
        );
    }
    Ok((book, aggregator))
}

/// Primes the state of both consumers from the two snapshots, as `prime`
/// does, and makes the two channels, each with room for `CHANNEL_CAPACITY`
/// batches. Where a snapshot cannot be read nothing is made.
pub fn start_processing(orders: Vec<RawOrder>, completed_orders: Vec<RawCompletedOrder>) -> (outcome:
    Result<Pipeline, DecodeError>)
    ensures
        match outcome {
            Ok(pipeline) => primed_book(orders@) == Ok::<BookState, DecodeError>(pipeline.book@)
                && recorded(0, completed_orders@) == Ok::<nat, DecodeError>(pipeline.aggregator@)
                && pipeline.book@.well_formed(),
            Err(e) => primed_book(orders@) == Err::<BookState, DecodeError>(e) || (primed_book(
                orders@,
            ) is Ok && recorded(0, completed_orders@) == Err::<nat, DecodeError>(e)),
        },
{
    let (book, aggregator) = match prime(&orders, &completed_orders) {
        Ok(state) => state,
        Err(e) => {
            return Err(e);
        },
    };
    let (orders_sender, orders_receiver) = bounded_channel(CHANNEL_CAPACITY);
    let (completed_sender, completed_receiver) = bounded_channel(CHANNEL_CAPACITY);
    Ok(
        Pipeline {
            book,
            aggregator,
            orders_sender,
            orders_receiver,
            completed_sender,
            completed_receiver,
        },
    )
}

/// What the book's consumer does with one batch: it reads the records,
/// applies them in list order, and hands back the text of the book as it
/// then stands. On an error the book is as it was.
pub fn consume_order_batch(book: &mut OrderBook, batch: &Vec<RawOrder>) -> (outcome: Result<
    Vec<u8>,
    PipelineError,
>)
    ensures
        match outcome {
            Ok(text) => book_after_batch(old(book)@, batch@) == Ok::<BookState, PipelineError>(
                final(book)@,
            ) && text@ == book_text(final(book)@),
            Err(e) => book_after_batch(old(book)@, batch@) == Err::<BookState, PipelineError>(e)
                && final(book)@ == old(book)@,
        },
        final(book)@.well_formed(),
{
    if !book.is_live() {
        return Err(PipelineError::Book(BookError::NotInitialized));
    }
    let deltas = match decode_orders(batch) {
        Ok(deltas) => deltas,
        Err(e) => {
            return Err(PipelineError::Decode(e));
        },
    };
    let _ = book.apply_batch(&deltas);
    Ok(render_book(book))
}

/// What the execution consumer does with one batch: it reads the records
/// and counts them. Returns the milestone that the count reached with this
/// batch, if any. On an error the count is as it was.
pub fn consume_execution_batch(
    aggregator: &mut ExecutionAggregator,
    batch: &Vec<RawCompletedOrder>,
) -> (outcome: Result<Option<u64>, DecodeError>)
    ensures
        match outcome {
            Ok(milestone) => recorded(old(aggregator)@, batch@) == Ok::<nat, DecodeError>(
                final(aggregator)@,
            ) && milestone == milestone_reached(old(aggregator)@, final(aggregator)@),
            Err(e) => recorded(old(aggregator)@, batch@) == Err::<nat, DecodeError>(e)
                && final(aggregator)@ == old(aggregator)@,
        },
{
    let executions = match decode_executions(batch) {
        Ok(executions) => executions,
        Err(e) => {
            return Err(e);
        },
    };
    proof {
        crate::decode::lemma_decoded_len(
            batch@.map_values(|r: RawCompletedOrder| crate::decode::decoded_execution(r)),
        );
    }
    Ok(aggregator.record(&executions))
}

} // verus!
