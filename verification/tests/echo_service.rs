use rust_samples::echo::{BidiAction, EchoError, EchoRequest, EchoServer, RESPONSE_CHANNEL_CAPACITY, STREAM_THROTTLE_MILLIS};
use rust_samples::io_error::{is_broken_pipe, match_for_io_error, ErrorSource, IoErrorKind};
use rust_samples::stream_server::StreamEchoServer;

fn req(text: &str) -> EchoRequest {
    EchoRequest { message: text.to_string() }
}

#[test]
fn unary_echo_returns_the_message() {
    let server = EchoServer::new();
    let resp = server.unary_echo(req("hello")).unwrap();
    assert_eq!(resp.message, "hello");
}

#[test]
fn unary_echo_of_empty_message() {
    let server = EchoServer::new();
    assert_eq!(server.unary_echo(req("")).unwrap().message, "");
}

#[test]
fn server_stream_repeats_the_message() {
    let server = EchoServer::new();
    let r = req("tick");
    for _ in 0..3 {
        assert_eq!(server.server_streaming_echo(&r).message, "tick");
    }
    assert_eq!(STREAM_THROTTLE_MILLIS, 200);
    assert_eq!(RESPONSE_CHANNEL_CAPACITY, 128);
}

#[test]
fn client_streaming_is_unimplemented() {
    let server = EchoServer::new();
    match server.client_streaming_echo() {
        Err(EchoError::Unimplemented(text)) => assert_eq!(text, "not implemented"),
        Ok(_) => panic!("client streaming must be refused"),
    }
}

#[test]
fn bidi_replies_with_each_message() {
    let server = EchoServer::new();
    match server.bidirectional_streaming_echo(Some(Ok(req("ping")))) {
        BidiAction::Reply(resp) => assert_eq!(resp.message, "ping"),
        other => panic!("unexpected {:?}", other),
    }
}

#[test]
fn bidi_stops_on_broken_pipe() {
    let server = EchoServer::new();
    let chain = vec![ErrorSource::Other, ErrorSource::Io(IoErrorKind::BrokenPipe)];
    assert!(matches!(server.bidirectional_streaming_echo(Some(Err(chain))), BidiAction::Disconnected));
}

#[test]
fn bidi_stops_on_broken_pipe_inside_h2_error() {
    let server = EchoServer::new();
    let chain = vec![ErrorSource::Other, ErrorSource::H2(Some(IoErrorKind::BrokenPipe))];
    assert!(matches!(server.bidirectional_streaming_echo(Some(Err(chain))), BidiAction::Disconnected));
}

#[test]
fn bidi_forwards_other_errors() {
    let server = EchoServer::new();
    let chain = vec![ErrorSource::Other, ErrorSource::Io(IoErrorKind::ConnectionReset)];
    assert!(matches!(server.bidirectional_streaming_echo(Some(Err(chain))), BidiAction::ForwardError));
    assert!(matches!(server.bidirectional_streaming_echo(Some(Err(vec![ErrorSource::Other]))), BidiAction::ForwardError));
}

#[test]
fn bidi_finishes_when_the_client_closes() {
    let server = EchoServer::new();
    assert!(matches!(server.bidirectional_streaming_echo(None), BidiAction::Finished));
}

#[test]
fn io_error_search_takes_the_first_io_cause() {
    let chain = vec![
        ErrorSource::Other,
        ErrorSource::H2(None),
        ErrorSource::Io(IoErrorKind::TimedOut),
        ErrorSource::Io(IoErrorKind::BrokenPipe),
    ];
    assert_eq!(match_for_io_error(&chain), Some(IoErrorKind::TimedOut));
    assert!(!is_broken_pipe(&chain));
}

#[test]
fn io_error_search_sees_through_h2() {
    let chain = vec![ErrorSource::H2(Some(IoErrorKind::ConnectionAborted)), ErrorSource::Io(IoErrorKind::BrokenPipe)];
    assert_eq!(match_for_io_error(&chain), Some(IoErrorKind::ConnectionAborted));
}

#[test]
fn io_error_search_finds_nothing_without_io_causes() {
    assert_eq!(match_for_io_error(&vec![]), None);
    assert_eq!(match_for_io_error(&vec![ErrorSource::Other, ErrorSource::H2(None)]), None);
}

#[test]
fn stream_server_records_its_handles() {
    let mut server: StreamEchoServer<u32, &str> = StreamEchoServer::new();
    assert!(!server.has_shutdown_handle());
    assert!(!server.has_serve_state());
    assert!(server.shutdown().is_ok());
    server.record_shutdown_handle(7);
    assert!(server.has_shutdown_handle());
    assert!(!server.has_serve_state());
    server.record_serve_state("serving");
    assert!(server.has_serve_state());
    assert!(server.shutdown().is_ok());
}

#[test]
fn bidi_run_echoes_up_to_the_first_broken_pipe() {
    let server = EchoServer::new();
    let items: Vec<Option<Result<EchoRequest, Vec<ErrorSource>>>> = vec![
        Some(Ok(req("a"))),
        Some(Err(vec![ErrorSource::Io(IoErrorKind::TimedOut)])),
        Some(Ok(req("b"))),
        Some(Err(vec![ErrorSource::Other, ErrorSource::Io(IoErrorKind::BrokenPipe)])),
        Some(Ok(req("c"))),
        None,
    ];
    let mut received: Vec<String> = Vec::new();
    for item in items {
        match server.bidirectional_streaming_echo(item) {
            BidiAction::Reply(resp) => received.push(resp.message),
            BidiAction::ForwardError => received.push("<error>".to_string()),
            BidiAction::Disconnected | BidiAction::Finished => break,
        }
    }
    assert_eq!(received, vec!["a", "<error>", "b"]);
}
