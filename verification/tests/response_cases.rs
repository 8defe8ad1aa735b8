use armstrong::response::{
    classify_status, create_fake_response, Response, ResponseError, ResponseErrorKind, Status,
    StatusClass,
};

#[test]
fn success_with_charset() {
    let r = Response::from_bytes(b"20 text/gemini;charset=utf-8\r\nHello").unwrap();
    assert_eq!(r.status, 20);
    assert_eq!(r.mimetype, "text/gemini");
    assert_eq!(r.charset, "utf-8");
    assert_eq!(r.body, "Hello");
    assert_eq!(r.meta, "text/gemini;charset=utf-8");
    assert_eq!(r.class(), Some(StatusClass::Success));
}

#[test]
fn success_without_charset() {
    let r = Response::from_bytes(b"20 text/gemini\r\nHello").unwrap();
    assert_eq!(r.status, 20);
    assert_eq!(r.mimetype, "text/gemini");
    assert_eq!(r.charset, "utf-8");
    assert_eq!(r.body, "Hello");
}

#[test]
fn missing_terminator_is_an_error() {
    let e = Response::from_bytes(b"no-terminator-here").unwrap_err();
    assert_eq!(e.kind, ResponseErrorKind::MissingTerminator);
    assert_eq!(e.details, "missing terminator");
    assert_eq!(e.message(), "Malformed response!");
    let e = Response::new("20 text/gemini\nHello\r").unwrap_err();
    assert_eq!(e.kind, ResponseErrorKind::MissingTerminator);
    assert_eq!(Response::new("").unwrap_err().kind, ResponseErrorKind::MissingTerminator);
    assert_eq!(Response::new("\r").unwrap_err().kind, ResponseErrorKind::MissingTerminator);
}

#[test]
fn status_51_is_a_permanent_failure() {
    let r = Response::new("51 Not found\r\n").unwrap();
    assert_eq!(r.status, 51);
    assert_eq!(r.class(), Some(StatusClass::PermFail));
    assert_eq!(classify_status(51), Some(StatusClass::PermFail));
    assert_eq!(r.meta, "Not found");
}

#[test]
fn bad_statuses_are_errors() {
    for data in [
        "99 x\r\n", "ab x\r\n", "70 x\r\n", "09 x\r\n", "00 x\r\n", "2 x\r\n", "200 x\r\n",
        " 20 x\r\n", "2a x\r\n", "a2 x\r\n", "+2 x\r\n", "\u{662}\u{660} x\r\n", "20\tx\r\n",
        "\r\n",
    ] {
        let e: ResponseError = Response::new(data).unwrap_err();
        assert_eq!(e.kind, ResponseErrorKind::BadStatus);
        assert_eq!(e.details, "bad status");
    }
}

#[test]
fn every_status_class() {
    let classes = [
        (10, StatusClass::Input),
        (19, StatusClass::Input),
        (20, StatusClass::Success),
        (29, StatusClass::Success),
        (30, StatusClass::Redirect),
        (39, StatusClass::Redirect),
        (40, StatusClass::TempFail),
        (49, StatusClass::TempFail),
        (50, StatusClass::PermFail),
        (59, StatusClass::PermFail),
        (60, StatusClass::CertRequired),
        (69, StatusClass::CertRequired),
    ];
    for (code, class) in classes {
        assert_eq!(classify_status(code), Some(class));
        let r = Response::new(&format!("{} meta\r\n", code)).unwrap();
        assert_eq!(r.status, code);
        assert_eq!(r.class(), Some(class));
    }
    for code in [0, 9, 70, 99, 100, 255] {
        assert_eq!(classify_status(code), None);
    }
}

#[test]
fn success_without_meta_takes_the_defaults() {
    for data in ["20\r\nBody", "20 \r\nBody", "20   \r\nBody", "20 ;\r\nBody", "20  ; ;\r\nBody"] {
        let r = Response::new(data).unwrap();
        assert_eq!(r.status, 20);
        assert_eq!(r.mimetype, "text/gemini");
        assert_eq!(r.charset, "utf-8");
        assert_eq!(r.body, "Body");
    }
}

#[test]
fn media_type_is_trimmed() {
    let r = Response::new("20  text/plain \t; lang=en\r\n").unwrap();
    assert_eq!(r.mimetype, "text/plain");
    assert_eq!(r.charset, "utf-8");
    assert_eq!(r.meta, " text/plain \t; lang=en");
}

#[test]
fn charset_among_other_parameters() {
    let r = Response::new("21 text/plain; lang=en ;  charset=iso-8859-1 ; x=y\r\n").unwrap();
    assert_eq!(r.mimetype, "text/plain");
    assert_eq!(r.charset, "iso-8859-1");
    let r = Response::new("20 ;charset=latin1\r\n").unwrap();
    assert_eq!(r.mimetype, "text/gemini");
    assert_eq!(r.charset, "latin1");
}

#[test]
fn first_charset_wins_and_a_blank_one_does_not_count() {
    let r = Response::new("20 text/plain;charset= ;charset=a;charset=b\r\n").unwrap();
    assert_eq!(r.charset, "a");
    let r = Response::new("20 text/plain;charset=\r\n").unwrap();
    assert_eq!(r.charset, "utf-8");
    let r = Response::new("20 text/plain;Charset=x;xcharset=y\r\n").unwrap();
    assert_eq!(r.charset, "utf-8");
    let r = Response::new("20 charset=x\r\n").unwrap();
    assert_eq!(r.mimetype, "charset=x");
    assert_eq!(r.charset, "utf-8");
}

#[test]
fn body_is_copied_as_it_is() {
    let r = Response::new("20 text/gemini\r\n# A\r\n\r\n=> b\n \t").unwrap();
    assert_eq!(r.body, "# A\r\n\r\n=> b\n \t");
    let r = Response::new("20 text/gemini\r\n").unwrap();
    assert_eq!(r.body, "");
}

#[test]
fn other_classes_keep_meta_and_have_no_body() {
    let r = Response::new("31 gemini://other.org/ next\r\ntrailing bytes").unwrap();
    assert_eq!(r.status, 31);
    assert_eq!(r.class(), Some(StatusClass::Redirect));
    assert_eq!(r.meta, "gemini://other.org/ next");
    assert_eq!(r.mimetype, "");
    assert_eq!(r.charset, "");
    assert_eq!(r.body, "");
    let r = Response::new("10 Your name?\r\n").unwrap();
    assert_eq!(r.meta, "Your name?");
    let r = Response::new("60\r\n").unwrap();
    assert_eq!(r.meta, "");
}

#[test]
fn bytes_that_are_not_utf8_are_replaced() {
    let r = Response::from_bytes(b"20 text/gemini\r\nab\xffcd\xc3").unwrap();
    assert_eq!(r.body, "ab\u{fffd}cd\u{fffd}");
    let r = Response::from_bytes("20 text/gemini\r\nGr\u{fc}\u{df}e".as_bytes()).unwrap();
    assert_eq!(r.body, "Gr\u{fc}\u{df}e");
    let e = Response::from_bytes(b"\xff\xfe").unwrap_err();
    assert_eq!(e.kind, ResponseErrorKind::MissingTerminator);
    let e = Response::from_bytes(b"\xff0 x\r\n").unwrap_err();
    assert_eq!(e.kind, ResponseErrorKind::BadStatus);
}

#[test]
fn header_line_alone() {
    let s = Status::new("20 text/gemini; charset=utf-8").unwrap();
    assert_eq!(s.code, 20);
    assert_eq!(s.meta, "text/gemini; charset=utf-8");
    let s = Status::new("44 slow  down").unwrap();
    assert_eq!(s.code, 44);
    assert_eq!(s.meta, "slow  down");
    let s = Status::new("69").unwrap();
    assert_eq!(s.code, 69);
    assert_eq!(s.meta, "");
    assert_eq!(Status::new("6 9").unwrap_err().kind, ResponseErrorKind::BadStatus);
    assert_eq!(Status::new("").unwrap_err().kind, ResponseErrorKind::BadStatus);
}

#[test]
fn error_kinds_have_their_details() {
    assert_eq!(ResponseError::new(ResponseErrorKind::MissingTerminator).details, "missing terminator");
    assert_eq!(ResponseError::new(ResponseErrorKind::BadStatus).details, "bad status");
    assert_eq!(ResponseError::new(ResponseErrorKind::BadStatus).kind, ResponseErrorKind::BadStatus);
}

#[test]
fn synthetic_response_carries_the_message() {
    for status in [49, 42, 59, 10, 31, 69] {
        let r = create_fake_response(status, "connection refused");
        assert_eq!(r.status, status);
        assert_ne!(r.class(), Some(StatusClass::Success));
        assert_eq!(r.meta, "connection refused");
        assert_eq!(r.text(), "connection refused");
        assert_eq!(r.mimetype, "");
        assert_eq!(r.charset, "");
        assert_eq!(r.body, "");
    }
}

#[test]
fn response_shows_its_body_or_its_meta() {
    let r = Response::new("20 text/gemini\r\n# page").unwrap();
    assert_eq!(r.text(), "# page");
    let r = Response::new("20 text/gemini\r\n").unwrap();
    assert_eq!(r.text(), "");
    let r = Response::new("10 Your name?\r\nrest").unwrap();
    assert_eq!(r.text(), "Your name?");
    let r = Response::new("51 Not found\r\n").unwrap();
    assert_eq!(r.text(), "Not found");
}
