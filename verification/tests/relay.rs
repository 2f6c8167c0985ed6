use claude_terminal::relay::{reader_step, OutputRelay, ReaderAction};

#[test]
fn per_session_order_is_preserved() {
    let mut relay = OutputRelay::new(16);
    assert!(relay.try_send("a", vec![1]));
    assert!(relay.try_send("b", vec![10]));
    assert!(relay.try_send("a", vec![2]));
    assert!(relay.try_send("a", vec![3]));
    assert!(relay.try_send("b", vec![20]));
    let mut a_bytes: Vec<u8> = Vec::new();
    let mut b_bytes: Vec<u8> = Vec::new();
    while let Some((id, chunk)) = relay.recv() {
        if id == "a" {
            a_bytes.extend(chunk);
        } else {
            b_bytes.extend(chunk);
        }
    }
    assert_eq!(a_bytes, vec![1, 2, 3]);
    assert_eq!(b_bytes, vec![10, 20]);
}

#[test]
fn full_relay_refuses_without_losing_or_reordering() {
    let mut relay = OutputRelay::new(2);
    assert!(relay.try_send("s", vec![1]));
    assert!(relay.try_send("s", vec![2]));
    assert!(!relay.try_send("s", vec![3]));
    assert!(!relay.try_send("s", vec![3]));
    let first = relay.recv().unwrap();
    assert_eq!(first.0, "s");
    assert_eq!(first.1, vec![1]);
    assert!(relay.try_send("s", vec![3]));
    let second = relay.recv().unwrap();
    assert_eq!(second.1, vec![2]);
    let third = relay.recv().unwrap();
    assert_eq!(third.1, vec![3]);
    assert!(relay.recv().is_none());
}

#[test]
fn finished_notification_goes_out_exactly_once() {
    let mut relay = OutputRelay::new(4);
    assert!(relay.mark_finished("one"));
    assert!(!relay.mark_finished("one"));
    assert!(relay.mark_finished("two"));
    assert!(!relay.mark_finished("one"));
    assert!(!relay.mark_finished("two"));
}

#[test]
fn reader_step_decides_forward_stop_or_log() {
    match reader_step(Ok(vec![7, 8])) {
        ReaderAction::Forward(d) => assert_eq!(d, vec![7, 8]),
        _ => panic!("a non-empty read must be forwarded"),
    }
    assert!(matches!(reader_step(Ok(Vec::new())), ReaderAction::Stop));
    match reader_step(Err("boom".to_string())) {
        ReaderAction::StopLogging(m) => assert_eq!(m, "boom"),
        _ => panic!("a read error must stop the task and be logged"),
    }
}
