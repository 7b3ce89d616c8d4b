use orderbook_stream::models::{OrderType, RawOrder};
use orderbook_stream::pipeline::{start_processing, CHANNEL_CAPACITY};

fn batch(price: u32) -> Vec<RawOrder> {
    vec![RawOrder { quantity: "1".to_string(), price: price.to_string(), order_type: OrderType::Buy }]
}

#[test]
fn channel_capacity_is_sixteen() {
    assert_eq!(CHANNEL_CAPACITY, 16);
    let pipeline = start_processing(Vec::new(), Vec::new()).unwrap();
    assert_eq!(pipeline.orders_sender.capacity(), 16);
    assert_eq!(pipeline.completed_sender.capacity(), 16);
}

#[test]
fn a_full_channel_takes_one_more_batch_for_each_one_drained() {
    let pipeline = start_processing(Vec::new(), Vec::new()).unwrap();
    let (sender, receiver) = (pipeline.orders_sender, pipeline.orders_receiver);
    for i in 0..CHANNEL_CAPACITY {
        assert!(sender.try_send(batch(i as u32)).unwrap(), "batch {i} fits");
    }
    assert!(sender.is_full());
    // the next send would have to wait
    assert!(!sender.try_send(batch(100)).unwrap());
    // draining one makes room for exactly one
    let first = receiver.try_recv().unwrap().unwrap();
    assert_eq!(first[0].price, "0");
    assert!(sender.try_send(batch(101)).unwrap());
    assert!(!sender.try_send(batch(102)).unwrap());
    assert_eq!(receiver.len(), CHANNEL_CAPACITY);
}

#[test]
fn batches_leave_the_channel_in_the_order_they_entered() {
    let pipeline = start_processing(Vec::new(), Vec::new()).unwrap();
    let (sender, receiver) = (pipeline.orders_sender, pipeline.orders_receiver);
    for i in 0..CHANNEL_CAPACITY {
        sender.send(batch(i as u32)).unwrap();
    }
    drop(sender);
    let mut seen = Vec::new();
    while let Ok(b) = receiver.recv() {
        seen.push(b[0].price.clone());
    }
    let expected: Vec<String> = (0..CHANNEL_CAPACITY).map(|i| i.to_string()).collect();
    assert_eq!(seen, expected);
}
