//! From wire records to typed records: decimal fields are read from their
//! text, and a field that cannot be read fails the whole list.

use vstd::prelude::*;

use crate::book::OrderDelta;
use crate::decimal::{read_text, Decimal};
use crate::error::DecodeError;
use crate::models::{ExecutionType, OrderType, RawCompletedOrder, RawOrder, RawOrderDelta};

verus! {

/// A trade that has happened.
#[derive(Copy, Clone, PartialEq, Eq, Debug, Structural)]
pub struct CompletedExecution {
    pub price: Decimal,
    pub quantity: Decimal,
    pub match_id: u128,
    pub updated_at: u64,
    pub side: OrderType,
    pub role: ExecutionType,
}

/// A price and a quantity read from their text. The price is read first, so
/// that where both are wrong the price's error is the one reported.
pub open spec fn read_amounts(price: Seq<char>, quantity: Seq<char>) -> Result<
    (Decimal, Decimal),
    DecodeError,
> {
    match read_text(price) {
        Err(e) => Err(e),
        Ok(price) => match read_text(quantity) {
            Err(e) => Err(e),
            Ok(quantity) => Ok((price, quantity)),
        },
    }
}

/// What reading one snapshot entry gives.
pub open spec fn decoded_order(raw: RawOrder) -> Result<OrderDelta, DecodeError> {
    match read_amounts(raw.price@, raw.quantity@) {
        Err(e) => Err(e),
        Ok(amounts) => Ok(OrderDelta { price: amounts.0, quantity: amounts.1, side: raw.order_type }),
    }
}

/// What reading one update entry gives.
pub open spec fn decoded_order_delta(raw: RawOrderDelta) -> Result<OrderDelta, DecodeError> {
    match read_amounts(raw.price@, raw.quantity@) {
        Err(e) => Err(e),
        Ok(amounts) => Ok(OrderDelta { price: amounts.0, quantity: amounts.1, side: raw.order_type }),
    }
}

/// What reading one completed execution gives.
pub open spec fn decoded_execution(raw: RawCompletedOrder) -> Result<
    CompletedExecution,
    DecodeError,
> {
    match read_amounts(raw.price@, raw.quantity@) {
        Err(e) => Err(e),
        Ok(amounts) => Ok(
            CompletedExecution {
                price: amounts.0,
                quantity: amounts.1,
                match_id: raw.match_id,
                updated_at: raw.updated_at,
                side: raw.order_type,
                role: raw.execution_type,
            },
        ),
    }
}

/// All the values of `results` in order, or the first error among them.
pub open spec fn all_or_first_error<T>(results: Seq<Result<T, DecodeError>>) -> Result<
    Seq<T>,
    DecodeError,
>
    decreases results.len(),
{
    if results.len() == 0 {
        Ok(Seq::empty())
    } else {
        match all_or_first_error(results.drop_last()) {
            Err(e) => Err(e),
            Ok(values) => match results.last() {
                Err(e) => Err(e),
                Ok(value) => Ok(values.push(value)),
            },
        }
    }
}

/// What reading a list of snapshot entries gives.
pub open spec fn decoded_orders(raw: Seq<RawOrder>) -> Result<Seq<OrderDelta>, DecodeError> {
    all_or_first_error(raw.map_values(|r: RawOrder| decoded_order(r)))
}

/// What reading a list of update entries gives.
pub open spec fn decoded_order_deltas(raw: Seq<RawOrderDelta>) -> Result<
    Seq<OrderDelta>,
    DecodeError,
> {
    all_or_first_error(raw.map_values(|r: RawOrderDelta| decoded_order_delta(r)))
}

/// What reading a list of completed executions gives.
pub open spec fn decoded_executions(raw: Seq<RawCompletedOrder>) -> Result<
    Seq<CompletedExecution>,
    DecodeError,
> {
    all_or_first_error(raw.map_values(|r: RawCompletedOrder| decoded_execution(r)))
}

/// An error among the first `len` results is the error of the whole list.
pub proof fn lemma_first_error_stays<T>(results: Seq<Result<T, DecodeError>>, len: int)
    requires
        0 <= len <= results.len(),
        all_or_first_error(results.take(len)) is Err,
    ensures
        all_or_first_error(results) == all_or_first_error(results.take(len)),
    decreases results.len(),
{
    if len < results.len() {
        assert(results.drop_last().take(len) =~= results.take(len));
        lemma_first_error_stays(results.drop_last(), len);
    } else {
        assert(results.take(len) =~= results);
    }
}

/// One more result after a run without error.
pub proof fn lemma_next_result<T>(results: Seq<Result<T, DecodeError>>, len: int)
    requires
        0 <= len < results.len(),
        all_or_first_error(results.take(len)) is Ok,
    ensures
        all_or_first_error(results.take(len + 1)) == (match results[len] {
            Err(e) => Err::<Seq<T>, DecodeError>(e),
            Ok(value) => Ok::<Seq<T>, DecodeError>(
                all_or_first_error(results.take(len))->Ok_0.push(value),
            ),
        }),
{
    assert(results.take(len + 1).drop_last() =~= results.take(len));
}

/// Where every result is a value, there are as many values as results.
pub proof fn lemma_decoded_len<T>(results: Seq<Result<T, DecodeError>>)
    ensures
        all_or_first_error(results) matches Ok(values) ==> values.len() == results.len(),
    decreases results.len(),
{
    if results.len() > 0 {
        lemma_decoded_len(results.drop_last());
    }
}

fn read_both(price: &str, quantity: &str) -> (outcome: Result<(Decimal, Decimal), DecodeError>)
    ensures
        outcome == read_amounts(price@, quantity@),
{
    let price = match Decimal::from_text(price) {
        Ok(price) => price,
        Err(e) => {
            return Err(e);
        },
    };
    let quantity = match Decimal::from_text(quantity) {
        Ok(quantity) => quantity,
        Err(e) => {
            return Err(e);
        },
    };
    Ok((price, quantity))
}

/// Reads one snapshot entry.
pub fn decode_order(raw: &RawOrder) -> (outcome: Result<OrderDelta, DecodeError>)
    ensures
        outcome == decoded_order(*raw),
{
    match read_both(raw.price.as_str(), raw.quantity.as_str()) {
        Ok((price, quantity)) => Ok(OrderDelta { price, quantity, side: raw.order_type }),
        Err(e) => Err(e),
    }
}

/// Reads one update entry.
pub fn decode_order_delta(raw: &RawOrderDelta) -> (outcome: Result<OrderDelta, DecodeError>)
    ensures
        outcome == decoded_order_delta(*raw),
{
    match read_both(raw.price.as_str(), raw.quantity.as_str()) {
        Ok((price, quantity)) => Ok(OrderDelta { price, quantity, side: raw.order_type }),
        Err(e) => Err(e),
    }
}

/// Reads one completed execution.
pub fn decode_execution(raw: &RawCompletedOrder) -> (outcome: Result<
    CompletedExecution,
    DecodeError,
>)
    ensures
        outcome == decoded_execution(*raw),
{
    match read_both(raw.price.as_str(), raw.quantity.as_str()) {
        Ok((price, quantity)) => Ok(
            CompletedExecution {
                price,
                quantity,
                match_id: raw.match_id,
                updated_at: raw.updated_at,
                side: raw.order_type,
                role: raw.execution_type,
            },
        ),
        Err(e) => Err(e),
    }
}

/// Reads the entries of an order snapshot, in order. The first entry that
/// cannot be read fails the list with its error.
pub fn decode_orders(raw: &Vec<RawOrder>) -> (outcome: Result<Vec<OrderDelta>, DecodeError>)
    ensures
        match outcome {
            Ok(orders) => decoded_orders(raw@) == Ok::<Seq<OrderDelta>, DecodeError>(orders@),
            Err(e) => decoded_orders(raw@) == Err::<Seq<OrderDelta>, DecodeError>(e),
        },
{
    let ghost results = raw@.map_values(|r: RawOrder| decoded_order(r));
    let mut orders: Vec<OrderDelta> = Vec::new();
    let n: usize = raw.len();
    let mut i: usize = 0;
    while i < n
        invariant
            n == raw@.len(),
            i <= n,
            results == raw@.map_values(|r: RawOrder| decoded_order(r)),
            all_or_first_error(results.take(i as int)) == Ok::<Seq<OrderDelta>, DecodeError>(
                orders@,
            ),
        decreases n - i,
    {
        proof {
            lemma_next_result(results, i as int);
        }
        match decode_order(&raw[i]) {
            Ok(order) => {
                orders.push(order);
            },
            Err(e) => {
                proof {
                    lemma_first_error_stays(results, i + 1);
                }
                return Err(e);
            },
        }
        i += 1;
    }
    proof {
        assert(results.take(n as int) =~= results);
    }
    Ok(orders)
}

/// Reads the entries of an order update, in order. The first entry that
/// cannot be read fails the list with its error.
pub fn decode_order_deltas(raw: &Vec<RawOrderDelta>) -> (outcome: Result<
    Vec<OrderDelta>,
    DecodeError,
>)
    ensures
        match outcome {
            Ok(deltas) => decoded_order_deltas(raw@) == Ok::<Seq<OrderDelta>, DecodeError>(
                deltas@,
            ),
            Err(e) => decoded_order_deltas(raw@) == Err::<Seq<OrderDelta>, DecodeError>(e),
        },
{
    let ghost results = raw@.map_values(|r: RawOrderDelta| decoded_order_delta(r));
    let mut deltas: Vec<OrderDelta> = Vec::new();
    let n: usize = raw.len();
    let mut i: usize = 0;
    while i < n
        invariant
            n == raw@.len(),
            i <= n,
            results == raw@.map_values(|r: RawOrderDelta| decoded_order_delta(r)),
            all_or_first_error(results.take(i as int)) == Ok::<Seq<OrderDelta>, DecodeError>(
                deltas@,
            ),
        decreases n - i,
    {
        proof {
            lemma_next_result(results, i as int);
        }
        match decode_order_delta(&raw[i]) {
            Ok(delta) => {
                deltas.push(delta);
            },
            Err(e) => {
                proof {
                    lemma_first_error_stays(results, i + 1);
                }
                return Err(e);
            },
        }
        i += 1;
    }
    proof {
        assert(results.take(n as int) =~= results);
    }
    Ok(deltas)
}

/// Reads a list of completed executions, in order. The first entry that
/// cannot be read fails the list with its error.
pub fn decode_executions(raw: &Vec<RawCompletedOrder>) -> (outcome: Result<
    Vec<CompletedExecution>,
    DecodeError,
>)
    ensures
        match outcome {
            Ok(executions) => decoded_executions(raw@) == Ok::<
                Seq<CompletedExecution>,
                DecodeError,
            >(executions@),
            Err(e) => decoded_executions(raw@) == Err::<Seq<CompletedExecution>, DecodeError>(e),
        },
{
    let ghost results = raw@.map_values(|r: RawCompletedOrder| decoded_execution(r));
    let mut executions: Vec<CompletedExecution> = Vec::new();
    let n: usize = raw.len();
    let mut i: usize = 0;
    while i < n
        invariant
            n == raw@.len(),
            i <= n,
            results == raw@.map_values(|r: RawCompletedOrder| decoded_execution(r)),
            all_or_first_error(results.take(i as int)) == Ok::<
                Seq<CompletedExecution>,
                DecodeError,
            >(executions@),
        decreases n - i,
    {
        proof {
            lemma_next_result(results, i as int);
        }
        match decode_execution(&raw[i]) {
            Ok(execution) => {
                executions.push(execution);
            },
            Err(e) => {
                proof {
                    lemma_first_error_stays(results, i + 1);
                }
                return Err(e);
            },
        }
        i += 1;
    }
    proof {
        assert(results.take(n as int) =~= results);
    }
    Ok(executions)
}

} // verus!
