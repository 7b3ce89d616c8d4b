use orderbook_stream::book::{BookError, OrderBook, OrderDelta, PriceLevel};
use orderbook_stream::decimal::Decimal;
use orderbook_stream::decode::{
    decode_execution, decode_executions, decode_order, decode_order_delta, decode_order_deltas,
    decode_orders, CompletedExecution,
};
use orderbook_stream::error::DecodeError;
use orderbook_stream::executions::{ExecutionAggregator, MILESTONE_INTERVAL};
use orderbook_stream::models::{
    ExecutionType, OrderType, RawCompletedOrder, RawOrder, RawOrderDelta,
};
use orderbook_stream::pipeline::{
    consume_execution_batch, consume_order_batch, prime, start_processing, PipelineError,
};
use orderbook_stream::render::{render_book, render_section};

fn order(price: &str, quantity: &str, order_type: OrderType) -> RawOrder {
    RawOrder { quantity: quantity.to_string(), price: price.to_string(), order_type }
}

fn change(price: &str, quantity: &str, order_type: OrderType) -> RawOrderDelta {
    RawOrderDelta { quantity: quantity.to_string(), price: price.to_string(), order_type }
}

fn done(price: &str, quantity: &str, match_id: u128) -> RawCompletedOrder {
    RawCompletedOrder {
        price: price.to_string(),
        quantity: quantity.to_string(),
        match_id,
        updated_at: 1_700_000_000,
        order_type: OrderType::Sell,
        execution_type: ExecutionType::Taker,
    }
}

fn many(n: usize) -> Vec<RawCompletedOrder> {
    (0..n).map(|i| done("1", "1", i as u128)).collect()
}

fn dec(text: &str) -> Decimal {
    Decimal::from_text(text).unwrap()
}

#[test]
fn records_are_decoded_field_by_field() {
    assert_eq!(
        decode_order(&order("100.5", "2", OrderType::Buy)),
        Ok(OrderDelta { price: dec("100.5"), quantity: dec("2"), side: OrderType::Buy })
    );
    assert_eq!(
        decode_order_delta(&change("101", "0", OrderType::Sell)),
        Ok(OrderDelta { price: dec("101"), quantity: Decimal::zero(), side: OrderType::Sell })
    );
    let raw = RawCompletedOrder {
        price: "3000.25".to_string(),
        quantity: "0.5".to_string(),
        match_id: 0x0123_4567_89ab_cdef_0123_4567_89ab_cdef,
        updated_at: 1_712_345_678,
        order_type: OrderType::Buy,
        execution_type: ExecutionType::Maker,
    };
    assert_eq!(
        decode_execution(&raw),
        Ok(CompletedExecution {
            price: dec("3000.25"),
            quantity: dec("0.5"),
            match_id: 0x0123_4567_89ab_cdef_0123_4567_89ab_cdef,
            updated_at: 1_712_345_678,
            side: OrderType::Buy,
            role: ExecutionType::Maker,
        })
    );
}

#[test]
fn a_bad_field_fails_the_record() {
    assert_eq!(
        decode_order(&order("1o0", "2", OrderType::Buy)),
        Err(DecodeError::MalformedNumber)
    );
    assert_eq!(
        decode_order(&order("100", "", OrderType::Buy)),
        Err(DecodeError::MalformedNumber)
    );
    assert_eq!(
        decode_order_delta(&change("0.000000001", "1", OrderType::Buy)),
        Err(DecodeError::NumberOutOfRange)
    );
    assert_eq!(decode_execution(&done("1", "-1", 0)), Err(DecodeError::MalformedNumber));
    // the price is read first
    assert_eq!(
        decode_order(&order("0.000000001", "x", OrderType::Buy)),
        Err(DecodeError::NumberOutOfRange)
    );
    assert_eq!(
        decode_order(&order("x", "0.000000001", OrderType::Buy)),
        Err(DecodeError::MalformedNumber)
    );
}

#[test]
fn lists_are_decoded_in_order() {
    let raw = vec![order("2", "1", OrderType::Buy), order("1", "3", OrderType::Sell)];
    assert_eq!(
        decode_orders(&raw),
        Ok(vec![
            OrderDelta { price: dec("2"), quantity: dec("1"), side: OrderType::Buy },
            OrderDelta { price: dec("1"), quantity: dec("3"), side: OrderType::Sell },
        ])
    );
    assert_eq!(decode_orders(&Vec::new()), Ok(Vec::new()));
    assert_eq!(decode_order_deltas(&Vec::new()), Ok(Vec::new()));
    assert_eq!(decode_executions(&Vec::new()), Ok(Vec::new()));
    assert_eq!(decode_executions(&many(3)).unwrap().len(), 3);
}

#[test]
fn the_first_bad_record_decides_the_error() {
    let raw = vec![
        change("1", "1", OrderType::Buy),
        change("0.000000001", "1", OrderType::Buy),
        change("x", "1", OrderType::Buy),
    ];
    assert_eq!(decode_order_deltas(&raw), Err(DecodeError::NumberOutOfRange));
    let raw = vec![
        change("1", "1", OrderType::Buy),
        change("x", "1", OrderType::Buy),
        change("0.000000001", "1", OrderType::Buy),
    ];
    assert_eq!(decode_order_deltas(&raw), Err(DecodeError::MalformedNumber));
}

#[test]
fn aggregator_counts_executions() {
    let mut aggregator = ExecutionAggregator::new();
    assert_eq!(aggregator.count(), 0);
    let three = decode_executions(&many(3)).unwrap();
    assert_eq!(aggregator.record(&three), None);
    assert_eq!(aggregator.count(), 3);
    assert_eq!(aggregator.record(&Vec::new()), None);
    assert_eq!(aggregator.count(), 3);
    assert_eq!(aggregator.record(&three), None);
    assert_eq!(aggregator.count(), 6);
}

#[test]
fn aggregator_reports_milestones() {
    assert_eq!(MILESTONE_INTERVAL, 10);
    let mut aggregator = ExecutionAggregator::new();
    let nine = decode_executions(&many(9)).unwrap();
    let one = decode_executions(&many(1)).unwrap();
    let four = decode_executions(&many(4)).unwrap();
    let twenty_five = decode_executions(&many(25)).unwrap();
    assert_eq!(aggregator.record(&nine), None);
    assert_eq!(aggregator.record(&one), Some(10));
    assert_eq!(aggregator.count(), 10);
    assert_eq!(aggregator.record(&nine), None);
    assert_eq!(aggregator.count(), 19);
    // passing a multiple reports the multiple, not the count
    assert_eq!(aggregator.record(&four), Some(20));
    assert_eq!(aggregator.count(), 23);
    // passing several reports the last
    assert_eq!(aggregator.record(&twenty_five), Some(40));
    assert_eq!(aggregator.count(), 48);
}

#[test]
fn priming_builds_a_live_book_and_counts_the_snapshot() {
    let (book, aggregator) = prime(
        &vec![order("100.5", "2", OrderType::Buy), order("101", "3", OrderType::Sell)],
        &many(12),
    )
    .unwrap();
    assert!(book.is_live());
    assert_eq!(
        book.query(OrderType::Buy),
        vec![PriceLevel { price: dec("100.5"), quantity: dec("2") }]
    );
    assert_eq!(
        book.query(OrderType::Sell),
        vec![PriceLevel { price: dec("101"), quantity: dec("3") }]
    );
    assert_eq!(aggregator.count(), 12);
}

#[test]
fn priming_with_empty_snapshots_gives_an_empty_live_book() {
    let (book, aggregator) = prime(&Vec::new(), &Vec::new()).unwrap();
    assert!(book.is_live());
    assert_eq!(book.depth(OrderType::Buy), 0);
    assert_eq!(book.depth(OrderType::Sell), 0);
    assert_eq!(aggregator.count(), 0);
}

#[test]
fn priming_fails_on_a_bad_record() {
    assert_eq!(
        prime(&vec![order("abc", "2", OrderType::Buy)], &Vec::new()).err(),
        Some(DecodeError::MalformedNumber)
    );
    assert_eq!(
        prime(&Vec::new(), &vec![done("1", "0.000000001", 1)]).err(),
        Some(DecodeError::NumberOutOfRange)
    );
    // the orders are read first
    assert_eq!(
        prime(&vec![order("abc", "2", OrderType::Buy)], &vec![done("1", "0.000000001", 1)]).err(),
        Some(DecodeError::MalformedNumber)
    );
}

#[test]
fn removal_after_snapshot_leaves_both_sides_empty() {
    let (mut book, _) = prime(&vec![order("100.5", "2", OrderType::Buy)], &Vec::new()).unwrap();
    let text = consume_order_batch(&mut book, &vec![order("100.5", "0", OrderType::Buy)]).unwrap();
    assert!(book.query(OrderType::Buy).is_empty());
    assert!(book.query(OrderType::Sell).is_empty());
    assert_eq!(
        String::from_utf8(text).unwrap(),
        "===== Bids =====\n===== End Bids =====\n===== Offers =====\n===== End Offers =====\n"
    );
}

#[test]
fn addition_after_snapshot_lists_offers_ascending() {
    let (mut book, _) = prime(&vec![order("101", "3", OrderType::Sell)], &Vec::new()).unwrap();
    let text =
        consume_order_batch(&mut book, &vec![order("101.5", "1", OrderType::Sell)]).unwrap();
    assert_eq!(
        book.query(OrderType::Sell),
        vec![
            PriceLevel { price: dec("101"), quantity: dec("3") },
            PriceLevel { price: dec("101.5"), quantity: dec("1") },
        ]
    );
    assert_eq!(
        String::from_utf8(text).unwrap(),
        "===== Bids =====\n===== End Bids =====\n\
         ===== Offers =====\n101.00: 3\n101.50: 1\n===== End Offers =====\n"
    );
}

#[test]
fn order_consumer_refuses_a_batch_before_the_snapshot() {
    let mut book = OrderBook::new();
    assert_eq!(
        consume_order_batch(&mut book, &vec![order("1", "1", OrderType::Buy)]),
        Err(PipelineError::Book(BookError::NotInitialized))
    );
    // even one that could not be read
    assert_eq!(
        consume_order_batch(&mut book, &vec![order("x", "1", OrderType::Buy)]),
        Err(PipelineError::Book(BookError::NotInitialized))
    );
    assert!(!book.is_live());
}

#[test]
fn order_consumer_leaves_the_book_alone_on_a_bad_batch() {
    let (mut book, _) = prime(&vec![order("5", "5", OrderType::Buy)], &Vec::new()).unwrap();
    let batch = vec![order("6", "6", OrderType::Buy), order("7", "seven", OrderType::Buy)];
    assert_eq!(
        consume_order_batch(&mut book, &batch),
        Err(PipelineError::Decode(DecodeError::MalformedNumber))
    );
    assert_eq!(
        book.query(OrderType::Buy),
        vec![PriceLevel { price: dec("5"), quantity: dec("5") }]
    );
}

#[test]
fn execution_consumer_counts_and_reports() {
    let (_, mut aggregator) = prime(&Vec::new(), &many(7)).unwrap();
    assert_eq!(consume_execution_batch(&mut aggregator, &many(2)), Ok(None));
    assert_eq!(consume_execution_batch(&mut aggregator, &many(1)), Ok(Some(10)));
    assert_eq!(aggregator.count(), 10);
    assert_eq!(
        consume_execution_batch(&mut aggregator, &vec![done("1", "1", 1), done("", "1", 2)]),
        Err(DecodeError::MalformedNumber)
    );
    assert_eq!(aggregator.count(), 10);
}

#[test]
fn a_section_has_one_line_per_level() {
    let levels = vec![
        PriceLevel { price: dec("99.999"), quantity: dec("0.5") },
        PriceLevel { price: dec("100.5"), quantity: dec("2") },
        PriceLevel { price: dec("1234.125"), quantity: dec("10.00000001") },
    ];
    assert_eq!(
        String::from_utf8(render_section(OrderType::Buy, &levels)).unwrap(),
        "===== Bids =====\n100.00: 0.5\n100.50: 2\n1234.12: 10.00000001\n===== End Bids =====\n"
    );
    assert_eq!(
        String::from_utf8(render_section(OrderType::Sell, &Vec::new())).unwrap(),
        "===== Offers =====\n===== End Offers =====\n"
    );
}

#[test]
fn a_book_is_shown_bids_first() {
    let (book, _) = prime(
        &vec![
            order("101", "3", OrderType::Sell),
            order("100.5", "2", OrderType::Buy),
            order("99", "1.25", OrderType::Buy),
        ],
        &Vec::new(),
    )
    .unwrap();
    assert_eq!(
        String::from_utf8(render_book(&book)).unwrap(),
        "===== Bids =====\n99.00: 1.25\n100.50: 2\n===== End Bids =====\n\
         ===== Offers =====\n101.00: 3\n===== End Offers =====\n"
    );
}

#[test]
fn start_processing_primes_both_consumers() {
    let pipeline = start_processing(
        vec![order("100.5", "2", OrderType::Buy), order("100.5", "4", OrderType::Buy)],
        many(3),
    )
    .unwrap();
    assert!(pipeline.book.is_live());
    assert_eq!(
        pipeline.book.query(OrderType::Buy),
        vec![PriceLevel { price: dec("100.5"), quantity: dec("4") }]
    );
    assert_eq!(pipeline.aggregator.count(), 3);
    assert!(pipeline.orders_sender.is_empty());
    assert!(pipeline.completed_receiver.is_empty());
}

#[test]
fn start_processing_fails_on_a_bad_snapshot() {
    assert_eq!(
        start_processing(vec![order("1", "one", OrderType::Sell)], Vec::new()).err(),
        Some(DecodeError::MalformedNumber)
    );
    assert_eq!(
        start_processing(Vec::new(), vec![done("1.123456789", "1", 9)]).err(),
        Some(DecodeError::NumberOutOfRange)
    );
}

#[test]
fn batches_sent_reach_the_consumer_in_order() {
    let mut pipeline = start_processing(Vec::new(), Vec::new()).unwrap();
    pipeline.orders_sender.send(vec![order("7", "5", OrderType::Buy)]).unwrap();
    pipeline.orders_sender.send(vec![order("7", "0", OrderType::Buy)]).unwrap();
    pipeline.orders_sender.send(vec![order("8", "1", OrderType::Buy)]).unwrap();
    pipeline.completed_sender.send(many(10)).unwrap();
    drop(pipeline.orders_sender);
    drop(pipeline.completed_sender);
    let mut texts = Vec::new();
    while let Ok(batch) = pipeline.orders_receiver.recv() {
        let text = consume_order_batch(&mut pipeline.book, &batch).unwrap();
        texts.push(String::from_utf8(text).unwrap());
    }
    assert_eq!(texts.len(), 3);
    assert!(texts[0].contains("7.00: 5\n"));
    assert!(!texts[1].contains("7.00"));
    assert!(texts[2].contains("8.00: 1\n"));
    assert_eq!(
        pipeline.book.query(OrderType::Buy),
        vec![PriceLevel { price: dec("8"), quantity: dec("1") }]
    );
    let mut milestones = Vec::new();
    while let Ok(batch) = pipeline.completed_receiver.recv() {
        milestones.push(consume_execution_batch(&mut pipeline.aggregator, &batch).unwrap());
    }
    assert_eq!(milestones, vec![Some(10)]);
}
