use armstrong::address::{locate, resolve, Target, UrlError, UrlParts, DEFAULT_PORT};
use armstrong::response::{Response, StatusClass};
use armstrong::transaction::{
    conclude, Action, Event, Phase, Step, Transaction, TransportError, LOCAL_STATUS,
};

fn going(step: Step) -> (Transaction, Action) {
    match step {
        Step::Continue(transaction, action) => (transaction, action),
        Step::Finished(response) => panic!("the transaction ended: {:?}", response),
    }
}

fn ended(step: Step) -> Response {
    match step {
        Step::Finished(response) => response,
        Step::Continue(_, action) => panic!("the transaction goes on: {:?}", action),
    }
}

fn target() -> Target {
    Target {
        scheme: "gemini".to_string(),
        host: "example.org".to_string(),
        port: 1965,
        path: "docs/index.gmi".to_string(),
    }
}

fn at(phase: Phase) -> Transaction {
    Transaction { phase, target: target(), received: Vec::new() }
}

#[test]
fn default_port_is_1965() {
    assert_eq!(DEFAULT_PORT, 1965);
}

fn check_failure(r: &Response, message: &str) {
    assert_eq!(r.status, LOCAL_STATUS);
    assert_eq!(r.class(), Some(StatusClass::TempFail));
    assert_eq!(r.meta, message);
    assert_eq!(r.text(), message);
    assert_eq!(r.body, "");
    assert_eq!(r.mimetype, "");
    assert_eq!(r.charset, "");
}

#[test]
fn local_status_is_no_success() {
    assert_eq!(LOCAL_STATUS, 49);
    assert_ne!(LOCAL_STATUS / 10, 2);
}

#[test]
fn address_is_resolved() {
    let t = locate("gemini://example.org/docs/index.gmi", DEFAULT_PORT).unwrap();
    assert_eq!(t.scheme, "gemini");
    assert_eq!(t.host, "example.org");
    assert_eq!(t.port, 1965);
    assert_eq!(t.path, "docs/index.gmi");
}

#[test]
fn address_with_port_keeps_it() {
    let t = locate("gemini://example.org:1966", 1965).unwrap();
    assert_eq!(t.port, 1966);
    assert_eq!(t.path, "");
    let t = locate("gemini://example.org", 300).unwrap();
    assert_eq!(t.port, 300);
}

#[test]
fn address_is_normalized_by_the_parser() {
    let t = locate("GEMINI://Example.ORG/a/../b c?q=1#frag", 1965).unwrap();
    assert_eq!(t.scheme, "gemini");
    assert_eq!(t.host, "Example.ORG");
    assert_eq!(t.path, "b%20c");
}

#[test]
fn address_that_is_no_url_is_malformed() {
    assert_eq!(locate("example.org", 1965).unwrap_err(), UrlError::Malformed);
    assert_eq!(locate("", 1965).unwrap_err(), UrlError::Malformed);
    assert_eq!(locate("gemini://example.org:99999/", 1965).unwrap_err(), UrlError::Malformed);
}

#[test]
fn address_without_host_is_refused() {
    assert_eq!(locate("mailto:someone@example.org", 1965).unwrap_err(), UrlError::MissingHost);
    assert_eq!(locate("gemini:///path", 1965).unwrap_err(), UrlError::MissingHost);
}

#[test]
fn parts_are_resolved() {
    let parts = UrlParts {
        scheme: "gemini".to_string(),
        host: Some("h".to_string()),
        port: None,
        path: "//a/b".to_string(),
    };
    let t = resolve(parts, 7).unwrap();
    assert_eq!(t.scheme, "gemini");
    assert_eq!(t.host, "h");
    assert_eq!(t.port, 7);
    assert_eq!(t.path, "/a/b");

    let parts = UrlParts {
        scheme: "gemini".to_string(),
        host: Some("h".to_string()),
        port: Some(0),
        path: "a".to_string(),
    };
    let t = resolve(parts, 7).unwrap();
    assert_eq!(t.port, 0);
    assert_eq!(t.path, "a");

    let parts = UrlParts { scheme: "x".to_string(), host: None, port: None, path: String::new() };
    assert_eq!(resolve(parts, 7).unwrap_err(), UrlError::MissingHost);
    let parts = UrlParts {
        scheme: "x".to_string(),
        host: Some(String::new()),
        port: Some(1),
        path: String::new(),
    };
    assert_eq!(resolve(parts, 7).unwrap_err(), UrlError::MissingHost);
}

#[test]
fn request_line_is_exact() {
    assert_eq!(target().request_line(), "gemini://example.org:1965/docs/index.gmi\r\n");
    let mut t = target();
    t.path = String::new();
    t.port = 0;
    assert_eq!(t.request_line(), "gemini://example.org:0/\r\n");
    t.port = 65535;
    assert_eq!(t.request_line(), "gemini://example.org:65535/\r\n");
    t.port = 10;
    assert_eq!(t.request_line(), "gemini://example.org:10/\r\n");
    t.port = 7;
    t.scheme = "titan".to_string();
    t.host = "[::1]".to_string();
    t.path = "a/b".to_string();
    assert_eq!(t.request_line(), "titan://[::1]:7/a/b\r\n");
}

#[test]
fn visit_begins_with_a_connection() {
    let (t, action) = going(Transaction::begin("gemini://example.org/docs/index.gmi"));
    assert_eq!(t.phase, Phase::Connecting);
    assert_eq!(t.target.host, "example.org");
    assert_eq!(t.target.port, 1965);
    assert_eq!(t.target.path, "docs/index.gmi");
    assert!(t.received.is_empty());
    match action {
        Action::Connect { host, port } => {
            assert_eq!(host, "example.org");
            assert_eq!(port, 1965);
        }
        other => panic!("not a connection: {:?}", other),
    }
}

#[test]
fn visit_to_an_address_literal_begins_too() {
    let (_, action) = going(Transaction::begin("gemini://127.0.0.1:1970/"));
    match action {
        Action::Connect { host, port } => {
            assert_eq!(host, "127.0.0.1");
            assert_eq!(port, 1970);
        }
        other => panic!("not a connection: {:?}", other),
    }
}

#[test]
fn visit_to_a_malformed_address_ends_at_once() {
    let r = ended(Transaction::begin("not a url"));
    check_failure(&r, "malformed URL");
}

#[test]
fn visit_to_an_address_without_host_ends_at_once() {
    let r = ended(Transaction::begin("data:text/plain,hello"));
    check_failure(&r, "URL without a host");
}

#[test]
fn visit_to_a_host_that_is_no_server_name_ends_at_once() {
    let r = ended(Transaction::begin("gemini://exa!mple.org/"));
    check_failure(&r, "invalid server name");
    let r = ended(Transaction::open(target(), false));
    check_failure(&r, "invalid server name");
}

#[test]
fn whole_transaction() {
    let (t, _) = going(Transaction::open(target(), true));
    let (t, action) = going(t.handle(Event::Connected));
    assert_eq!(t.phase, Phase::Securing);
    match action {
        Action::Handshake { server_name } => assert_eq!(server_name, "example.org"),
        other => panic!("not a handshake: {:?}", other),
    }
    let (t, action) = going(t.handle(Event::Secured));
    assert_eq!(t.phase, Phase::Sending);
    match action {
        Action::Send { request } => {
            assert_eq!(request, "gemini://example.org:1965/docs/index.gmi\r\n")
        }
        other => panic!("not a request: {:?}", other),
    }
    let (t, action) = going(t.handle(Event::Sent));
    assert_eq!(t.phase, Phase::Receiving);
    assert!(matches!(action, Action::Receive));
    let (t, action) = going(t.handle(Event::Received(b"20 text/ge".to_vec())));
    assert!(matches!(action, Action::Receive));
    assert_eq!(t.received, b"20 text/ge");
    let (t, _) = going(t.handle(Event::Received(Vec::new())));
    let (t, _) = going(t.handle(Event::Received(b"mini\r".to_vec())));
    let (t, _) = going(t.handle(Event::Received(b"\n# Hi\n".to_vec())));
    assert_eq!(t.phase, Phase::Receiving);
    assert_eq!(t.received, b"20 text/gemini\r\n# Hi\n");
    let r = ended(t.handle(Event::Closed));
    assert_eq!(r.status, 20);
    assert_eq!(r.mimetype, "text/gemini");
    assert_eq!(r.charset, "utf-8");
    assert_eq!(r.body, "# Hi\n");
    assert_eq!(r.text(), "# Hi\n");
}

#[test]
fn failure_ends_a_transaction_in_every_phase() {
    for phase in [Phase::Connecting, Phase::Securing, Phase::Sending, Phase::Receiving] {
        let error = TransportError::new("connection refused");
        assert_eq!(error.message, "connection refused");
        let r = ended(at(phase).handle(Event::Failed(error)));
        check_failure(&r, "connection refused");
    }
}

#[test]
fn event_out_of_turn_ends_a_transaction() {
    let out_of_turn = [
        (Phase::Connecting, Event::Secured),
        (Phase::Connecting, Event::Sent),
        (Phase::Connecting, Event::Received(vec![1])),
        (Phase::Connecting, Event::Closed),
        (Phase::Securing, Event::Connected),
        (Phase::Securing, Event::Sent),
        (Phase::Securing, Event::Closed),
        (Phase::Sending, Event::Connected),
        (Phase::Sending, Event::Secured),
        (Phase::Sending, Event::Received(vec![1])),
        (Phase::Sending, Event::Closed),
        (Phase::Receiving, Event::Connected),
        (Phase::Receiving, Event::Secured),
        (Phase::Receiving, Event::Sent),
    ];
    for (phase, event) in out_of_turn {
        let r = ended(at(phase).handle(event));
        check_failure(&r, "unexpected event");
    }
}

#[test]
fn malformed_response_ends_in_a_synthetic_one() {
    let mut t = at(Phase::Receiving);
    t.received = b"garbage without a header".to_vec();
    let r = ended(t.handle(Event::Closed));
    check_failure(&r, "Malformed response!");
    let r = ended(at(Phase::Receiving).handle(Event::Closed));
    check_failure(&r, "Malformed response!");
    let r = conclude(b"77 x\r\n");
    check_failure(&r, "Malformed response!");
}

#[test]
fn response_that_is_not_utf8_is_decoded_lossily() {
    let r = conclude(b"20 text/gemini\r\n\xf0\x9f\x9a\x80 \xff");
    assert_eq!(r.status, 20);
    assert_eq!(r.body, "\u{1f680} \u{fffd}");
    let r = conclude(b"51 gone\r\nrest");
    assert_eq!(r.status, 51);
    assert_eq!(r.meta, "gone");
    assert_eq!(r.body, "");
}
