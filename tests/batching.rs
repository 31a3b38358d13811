use wallet_pipeline::batch::{encode_batch, Action, Batcher, Event};

fn flushed(a: Action) -> String {
    match a {
        Action::Flush(body) => body,
        _ => panic!("expected a flush"),
    }
}

fn is_wait(a: &Action) -> bool {
    matches!(a, Action::Wait)
}

#[test]
fn timer_flushes_partial_batch() {
    // batch size 3, interval 1000 ms, loop started at t = 0
    let mut b = Batcher::new(3, 1000, 0);
    assert!(is_wait(&b.on_tick(0)));
    assert!(is_wait(&b.on_message(b"{\"a\":1}".to_vec())));
    assert!(is_wait(&b.on_message(b"{\"a\":2}".to_vec())));
    assert!(is_wait(&b.on_tick(100)));
    assert!(is_wait(&b.on_tick(999)));
    assert_eq!(b.pending().len(), 2);
    let body = flushed(b.on_tick(1000));
    assert_eq!(body, "{\"a\":1}\n{\"a\":2}\n");
    assert!(b.pending().is_empty());
    assert_eq!(b.next_tick_ms(), 2000);
}

#[test]
fn size_flush_then_new_batch() {
    let mut b = Batcher::new(2, 500, 0);
    assert!(is_wait(&b.on_message(b"{\"a\":1}".to_vec())));
    let body = flushed(b.on_message(b"{\"a\":2}".to_vec()));
    assert_eq!(body, "{\"a\":1}\n{\"a\":2}\n");
    assert!(is_wait(&b.on_message(b"{\"a\":3}".to_vec())));
    assert_eq!(b.pending(), &vec!["{\"a\":3}".to_string()]);
    let body = flushed(b.on_tick(0));
    assert_eq!(body, "{\"a\":3}\n");
}

#[test]
fn failed_sink_leaves_next_batch_independent() {
    let mut b = Batcher::new(2, 1000, 0);
    assert!(is_wait(&b.handle(Event::Message(b"{\"a\":1}".to_vec()))));
    let first = flushed(b.handle(Event::Message(b"{\"a\":2}".to_vec())));
    assert_eq!(first, "{\"a\":1}\n{\"a\":2}\n");
    // the sink answers 500: the batch is not kept or retried
    assert!(!wallet_pipeline::sink::is_success_status(500));
    assert!(b.pending().is_empty());
    assert!(is_wait(&b.handle(Event::Message(b"{\"b\":1}".to_vec()))));
    let second = flushed(b.handle(Event::Message(b"{\"b\":2}".to_vec())));
    assert_eq!(second, "{\"b\":1}\n{\"b\":2}\n");
}

#[test]
fn invalid_utf8_is_discarded() {
    let mut b = Batcher::new(2, 1000, 0);
    assert!(is_wait(&b.on_message(b"x".to_vec())));
    assert!(matches!(b.on_message(vec![0xff, 0xfe, 0x80]), Action::Discard));
    assert_eq!(b.pending().len(), 1);
    let body = flushed(b.on_message(b"y".to_vec()));
    assert_eq!(body, "x\ny\n");
}

#[test]
fn closed_stream_stops() {
    let mut b = Batcher::new(5, 1000, 0);
    assert!(is_wait(&b.handle(Event::Message(b"x".to_vec()))));
    assert!(matches!(b.handle(Event::Closed), Action::Stop));
    assert_eq!(b.pending().len(), 1);
}

#[test]
fn missed_ticks_are_skipped() {
    let mut b = Batcher::new(10, 100, 0);
    assert!(is_wait(&b.on_tick(0)));
    assert!(is_wait(&b.on_message(b"x".to_vec())));
    // the loop stalled for several intervals: one flush, then the next grid point
    assert_eq!(flushed(b.on_tick(450)), "x\n");
    assert_eq!(b.next_tick_ms(), 500);
    assert!(is_wait(&b.on_message(b"y".to_vec())));
    assert!(is_wait(&b.on_tick(499)));
    assert_eq!(flushed(b.on_tick(500)), "y\n");
    assert_eq!(b.next_tick_ms(), 600);
}

#[test]
fn no_flush_below_batch_size() {
    let mut b = Batcher::new(4, 1000, 0);
    assert!(is_wait(&b.on_tick(0)));
    for i in 0..3 {
        assert!(is_wait(&b.on_message(format!("{{\"n\":{}}}", i).into_bytes())));
    }
    assert_eq!(b.pending().len(), 3);
    assert!(is_wait(&b.on_tick(999)));
    assert_eq!(b.max_batch(), 4);
}

#[test]
fn body_is_newline_joined_with_trailing_newline() {
    let recs = vec!["{\"a\":1}".to_string(), "{\"b\":2}".to_string(), "{\"c\":3}".to_string()];
    assert_eq!(encode_batch(&recs), "{\"a\":1}\n{\"b\":2}\n{\"c\":3}\n");
    assert_eq!(encode_batch(&vec!["one".to_string()]), "one\n");
    assert_eq!(encode_batch(&vec![]), "\n");
}

#[test]
fn batch_size_one_flushes_every_message() {
    let mut b = Batcher::new(1, 1000, 0);
    assert_eq!(flushed(b.on_message(b"a".to_vec())), "a\n");
    assert_eq!(flushed(b.on_message(b"b".to_vec())), "b\n");
}

#[test]
fn body_splits_back_into_records() {
    let recs = vec![
        "{\"ts\":\"2025-11-13 22:15:33\",\"slot\":1}".to_string(),
        "{\"slot\":2}".to_string(),
        "{}".to_string(),
    ];
    let body = encode_batch(&recs);
    let back: Vec<String> = body.lines().map(|l| l.to_string()).collect();
    assert_eq!(back, recs);
    assert!(body.ends_with('\n'));
}
