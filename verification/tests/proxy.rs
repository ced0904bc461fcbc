use proxy_server::proxy::{
    empty_body_terminator, BodyRelay, Builder, ChunkAction, ChunkEvent, Handler, LogLevel,
    ReadFailure, RequestPlan, CHUNK_SIZE, CONNECT_FAILURE_DELAY_MS, MAX_READ_FAILURES,
};

#[test]
fn builder_holds_the_defaults() {
    let b = Builder::new();
    assert_eq!(b.address, "127.0.0.1:3000");
    assert_eq!(b.target, "127.0.0.1:3001");
    assert_eq!(b.log_level, LogLevel::Info);
    assert_eq!(b.threads, 4);
    assert_eq!(b.chunk_size, CHUNK_SIZE);
}

#[test]
fn builder_setters_replace_one_field_each() {
    let b = Builder::new()
        .with_address("0.0.0.0:8000")
        .with_target("10.0.0.1:9000")
        .with_log_level(LogLevel::Warn)
        .with_threads(2);
    assert_eq!(b.address, "0.0.0.0:8000");
    assert_eq!(b.target, "10.0.0.1:9000");
    assert_eq!(b.log_level, LogLevel::Warn);
    assert_eq!(b.threads, 2);
    assert_eq!(b.chunk_size, CHUNK_SIZE);
}

#[test]
fn request_with_host_is_forwarded_rewritten() {
    let h = Handler::new(Builder::new().with_target("127.0.0.1:9000"));
    let request = "GET / HTTP/1.1\r\nHost: old:1\r\nX-Keep: v\r\n\r\n".as_bytes().to_vec();
    match h.plan_request(&request) {
        RequestPlan::Forward(bytes) => {
            assert_eq!(bytes, "GET / HTTP/1.1\r\nHost: 127.0.0.1:9000\r\nX-Keep: v\r\n\r\n".as_bytes());
        }
        RequestPlan::Reject => panic!("expected a forward"),
    }
}

#[test]
fn request_without_host_is_rejected() {
    let h = Handler::new(Builder::new());
    let request = "GET / HTTP/1.1\r\nX-Other: v\r\n\r\n".as_bytes().to_vec();
    assert!(matches!(h.plan_request(&request), RequestPlan::Reject));
}

#[test]
fn request_that_is_not_text_is_rejected() {
    let h = Handler::new(Builder::new());
    let request = vec![0xffu8, 0x00, 0x81];
    assert!(matches!(h.plan_request(&request), RequestPlan::Reject));
}

#[test]
fn handler_keeps_its_configuration_copy() {
    let b = Builder::new().with_threads(7);
    let h = Handler::new(b);
    assert_eq!(h.config.threads, 7);
}

#[test]
fn terminator_announces_an_empty_body() {
    assert_eq!(empty_body_terminator(), "Content-Length: 0\r\n\r\n");
}

#[test]
fn connect_failure_delay_is_one_tenth_of_a_second() {
    assert_eq!(CONNECT_FAILURE_DELAY_MS, 100);
}

#[test]
fn relay_forwards_data_chunks() {
    let mut r = BodyRelay::new();
    match r.step(ChunkEvent::Data(vec![1, 0, 2])) {
        ChunkAction::Send(bytes) => assert_eq!(bytes, vec![1, 0, 2]),
        _ => panic!("expected a send"),
    }
}

#[test]
fn relay_stops_on_empty_data() {
    let mut r = BodyRelay::new();
    assert!(matches!(r.step(ChunkEvent::Data(Vec::new())), ChunkAction::Stop));
}

#[test]
fn relay_stops_when_the_stream_closes() {
    let mut r = BodyRelay::new();
    assert!(matches!(r.step(ChunkEvent::Closed), ChunkAction::Stop));
}

#[test]
fn peer_reset_is_retried_at_info() {
    let mut r = BodyRelay::new();
    assert!(matches!(
        r.step(ChunkEvent::Failed(ReadFailure::PeerReset)),
        ChunkAction::Retry(LogLevel::Info)
    ));
}

#[test]
fn other_read_failures_are_retried_at_error() {
    let mut r = BodyRelay::new();
    assert!(matches!(
        r.step(ChunkEvent::Failed(ReadFailure::Other)),
        ChunkAction::Retry(LogLevel::Error)
    ));
}

#[test]
fn a_successful_read_resets_the_failure_count() {
    let mut r = BodyRelay::new();
    for _ in 0..MAX_READ_FAILURES - 2 {
        assert!(matches!(
            r.step(ChunkEvent::Failed(ReadFailure::Other)),
            ChunkAction::Retry(_)
        ));
    }
    assert!(matches!(r.step(ChunkEvent::Data(vec![9])), ChunkAction::Send(_)));
    assert!(matches!(
        r.step(ChunkEvent::Failed(ReadFailure::Other)),
        ChunkAction::Retry(_)
    ));
}

#[test]
fn persistent_read_failures_stop_the_relay() {
    let mut r = BodyRelay::new();
    let mut stopped = false;
    for _ in 0..MAX_READ_FAILURES {
        if matches!(r.step(ChunkEvent::Failed(ReadFailure::Other)), ChunkAction::Stop) {
            stopped = true;
            break;
        }
    }
    assert!(stopped);
}
