use my_translator::forward::{AudioForwarder, FLUSH_INTERVAL_MS};

#[test]
fn batches_wait_for_the_interval() {
    let mut fw = AudioForwarder::new();
    fw.push(&[1, 2]);
    assert_eq!(fw.take_batch(FLUSH_INTERVAL_MS - 1), None);
    fw.push(&[3]);
    assert_eq!(fw.take_batch(FLUSH_INTERVAL_MS), Some(vec![1, 2, 3]));
    assert_eq!(fw.take_batch(10_000), None);
}

#[test]
fn stop_flushes_what_is_left() {
    let mut fw = AudioForwarder::new();
    assert_eq!(fw.stop(), None);
    fw.push(&[4, 5]);
    fw.push(&[]);
    assert_eq!(fw.stop(), Some(vec![4, 5]));
    assert_eq!(fw.stop(), None);
}

#[test]
fn forwarded_bytes_are_the_received_bytes() {
    let mut fw = AudioForwarder::new();
    let mut sent = Vec::new();
    let mut received = Vec::new();
    for (i, chunk) in [[1u8, 2], [3, 4], [5, 6], [7, 8]].iter().enumerate() {
        fw.push(chunk);
        received.extend_from_slice(chunk);
        if let Some(batch) = fw.take_batch(if i % 2 == 1 { 250 } else { 50 }) {
            sent.extend(batch);
        }
    }
    fw.push(&[9]);
    received.push(9);
    if let Some(batch) = fw.stop() {
        sent.extend(batch);
    }
    assert_eq!(sent, received);
    assert_eq!(FLUSH_INTERVAL_MS, 200);
}
