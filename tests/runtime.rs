use choreography::label_codec::{decode_label, encode_label};
use choreography::framing::{decode_frame, encode_frame};
use choreography::{
    ChoreographyError, Label, Metrics, RecordedEvent, RecordingHandler, Retry, RetryDecision, Role,
    RumpsteakEndpoint, SessionMetadata, SessionState, Trace,
};

fn role(n: &str) -> Role {
    Role::new(n.to_string())
}

#[test]
fn take_then_put_keeps_the_channel_and_counts_the_operation() {
    let mut ep: RumpsteakEndpoint<u32> = RumpsteakEndpoint::new(role("Alice"));
    let bob = role("Bob");
    ep.register_channel(bob.clone(), 7);
    let meta = ep.get_metadata(&bob).unwrap();
    assert_eq!(meta.operation_count, 0);
    assert_eq!(meta.state_description, "Initial");
    assert!(!meta.is_complete);
    let ch = ep.take_channel(&bob).unwrap();
    assert_eq!(ch, 7);
    assert!(!ep.has_channel(&bob));
    assert!(ep.take_channel(&bob).is_none());
    ep.put_channel(bob.clone(), ch);
    assert!(ep.has_channel(&bob));
    ep.mark_operation(&bob, "Send");
    let meta = ep.get_metadata(&bob).unwrap();
    assert_eq!(meta.operation_count, 1);
    assert_eq!(meta.state_description, "Send");
}

#[test]
fn operations_fail_without_a_channel() {
    let mut ep: RumpsteakEndpoint<u32> = RumpsteakEndpoint::new(role("Alice"));
    match ep.begin_operation(&role("Bob")) {
        Err(ChoreographyError::Transport(m)) => assert!(m.contains("No channel registered")),
        _ => panic!("expected a transport error"),
    }
    ep.register_channel(role("Bob"), 1);
    let ch = ep.begin_operation(&role("Bob")).unwrap();
    ep.finish_operation(role("Bob"), ch + 1, "Recv");
    assert_eq!(ep.take_channel(&role("Bob")), Some(2));
    assert_eq!(ep.get_metadata(&role("Bob")).unwrap().state_description, "Recv");
}

#[test]
fn closing_channels() {
    let mut ep: RumpsteakEndpoint<u8> = RumpsteakEndpoint::new(role("A"));
    ep.register_channel(role("B"), 1);
    ep.register_channel(role("C"), 2);
    ep.register_channel(role("B"), 3);
    assert_eq!(ep.active_channel_count(), 2);
    assert_eq!(ep.all_metadata().len(), 2);
    assert!(ep.close_channel(&role("B")));
    assert!(!ep.close_channel(&role("B")));
    assert_eq!(ep.active_channel_count(), 1);
    assert_eq!(ep.close_all_channels(), 1);
    assert!(ep.is_all_closed());
    assert!(!ep.has_channel(&role("C")));
    assert_eq!(ep.local_role(), &role("A"));
}

#[test]
fn session_state_tracks_metadata() {
    let mut s = SessionState::new("chan");
    assert_eq!(s.metadata().operation_count, 0);
    s.mark_operation("Send");
    s.mark_operation("Recv");
    assert_eq!(s.metadata().operation_count, 2);
    assert_eq!(s.metadata().state_description, "Recv");
    s.update_metadata(|mut m: SessionMetadata| {
        m.operation_count = 10;
        m
    });
    assert_eq!(s.metadata().operation_count, 10);
    s.mark_complete();
    assert!(s.metadata().is_complete);
    assert_eq!(s.metadata().state_description, "Complete");
    assert_eq!(s.into_channel(), "chan");
    let d = SessionMetadata::default();
    assert_eq!(d.state_description, "Initial");
}

#[test]
fn recording_handler_logs_every_operation() {
    let mut h = RecordingHandler::new('a');
    assert!(h.send('b', "Ping".to_string()).is_ok());
    match h.recv('b', "Pong".to_string()) {
        Err(ChoreographyError::Transport(m)) => assert_eq!(m, "RecordingHandler cannot produce values"),
        _ => panic!("recv must fail"),
    }
    assert!(h.choose_branch('a', Label("left")).is_ok());
    assert!(h.offer('b').is_err());
    let ev = h.events();
    assert_eq!(ev.len(), 4);
    assert!(matches!(&ev[0], RecordedEvent::Send { from: 'a', to: 'b', msg_type } if msg_type == "Ping"));
    assert!(matches!(&ev[1], RecordedEvent::Recv { from: 'b', to: 'a', msg_type } if msg_type == "Pong"));
    assert!(matches!(&ev[2], RecordedEvent::Choose { at: 'a', label: Label("left") }));
    assert!(matches!(&ev[3], RecordedEvent::Offer { from: 'b', to: 'a' }));
    h.clear();
    assert!(h.events().is_empty());
}

#[test]
fn metrics_count_outcomes() {
    let mut m = Metrics::new(());
    m.record_send(true);
    m.record_send(true);
    m.record_send(false);
    m.record_recv(true);
    m.record_recv(false);
    assert_eq!(m.send_count(), 2);
    assert_eq!(m.recv_count(), 1);
    assert_eq!(m.error_count(), 2);
}

#[test]
fn retry_backs_off_exponentially_then_gives_up() {
    let t = ChoreographyError::Transport("down".to_string());
    let r = Retry::new(());
    assert_eq!(r.after_failure(0, &t), RetryDecision::RetryAfter(100));
    assert_eq!(r.after_failure(1, &t), RetryDecision::RetryAfter(200));
    assert_eq!(r.after_failure(2, &t), RetryDecision::RetryAfter(400));
    assert_eq!(r.after_failure(3, &t), RetryDecision::GiveUp);
    let ser = ChoreographyError::Serialization("bad".to_string());
    assert_eq!(r.after_failure(0, &ser), RetryDecision::GiveUp);
    assert_eq!(r.after_failure(0, &ChoreographyError::Timeout(5)), RetryDecision::GiveUp);
    let big = Retry::with_config((), 100, u64::MAX / 2 + 1);
    assert_eq!(big.after_failure(1, &t), RetryDecision::RetryAfter(u64::MAX));
    let none = Retry::with_config((), 0, 5);
    assert_eq!(none.after_failure(0, &t), RetryDecision::GiveUp);
}

#[test]
fn trace_prefixes() {
    assert_eq!(Trace::new(()).prefix(), "choreo");
    assert_eq!(Trace::with_prefix((), "net".to_string()).prefix(), "net");
}

#[test]
fn frames_carry_a_big_endian_length() {
    let f = encode_frame(&[1, 2, 3]).unwrap();
    assert_eq!(f, vec![0, 0, 0, 3, 1, 2, 3]);
    let long = vec![9u8; 300];
    let g = encode_frame(&long).unwrap();
    assert_eq!(&g[..4], &[0, 0, 1, 44]);
    assert_eq!(g.len(), 304);
    let mut buf = f.clone();
    buf.extend_from_slice(&[7, 7]);
    assert_eq!(decode_frame(&buf), Some((vec![1, 2, 3], 7)));
    assert_eq!(decode_frame(&f[..5]), None);
    assert_eq!(decode_frame(&[0, 0]), None);
    assert_eq!(decode_frame(&encode_frame(&[]).unwrap()), Some((vec![], 4)));
    assert_eq!(decode_frame(&g), Some((long, 304)));
}

#[test]
fn labels_travel_as_length_prefixed_strings() {
    let bytes = encode_label(Label("ab")).unwrap();
    assert_eq!(bytes, vec![2, 0, 0, 0, 0, 0, 0, 0, b'a', b'b']);
    let mut with_tail = bytes.clone();
    with_tail.push(9);
    assert_eq!(decode_label(&with_tail).unwrap(), "ab");
    assert_eq!(decode_label(&encode_label(Label("")).unwrap()).unwrap(), "");
    assert!(matches!(decode_label(&[5, 0, 0]), Err(ChoreographyError::Transport(_))));
    assert!(matches!(decode_label(&[1, 0, 0, 0, 0, 0, 0, 0, 0xff]), Err(ChoreographyError::Transport(_))));
}

#[test]
fn a_channel_lost_to_a_timeout_breaks_its_session() {
    let mut ep: RumpsteakEndpoint<u8> = RumpsteakEndpoint::new(role("Alice"));
    ep.register_channel(role("Bob"), 1);
    ep.register_channel(role("Carol"), 2);
    ep.mark_operation(&role("Bob"), "Send");
    let _lost = ep.begin_operation(&role("Bob")).unwrap();
    ep.mark_lost_sessions();
    let bob = ep.get_metadata(&role("Bob")).unwrap();
    assert_eq!(bob.state_description, "Broken");
    assert_eq!(bob.operation_count, 1);
    assert_eq!(ep.get_metadata(&role("Carol")).unwrap().state_description, "Initial");
    assert!(matches!(ep.begin_operation(&role("Bob")), Err(ChoreographyError::Transport(_))));
}
