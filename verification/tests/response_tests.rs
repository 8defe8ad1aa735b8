use armstrong::response::Response;

#[test]
fn full_ok_response_builds() {
    let data = "20 text/gemini;charset=utf-8\r\nBody";
    let r = Response::new(data).unwrap();
    assert_eq!(r.status, 20);
    assert_eq!(r.mimetype, "text/gemini");
    assert_eq!(r.charset, "utf-8");
    assert_eq!(r.body, "Body");
}

#[test]
fn partial_ok_response_builds() {
    let data = "20 text/gemini\r\nBody";
    let r = Response::new(data).unwrap();
    assert_eq!(r.status, 20);
    assert_eq!(r.mimetype, "text/gemini");
    assert_eq!(r.charset, "utf-8");
    assert_eq!(r.body, "Body");
}

#[test]
fn nonexistent_meta_response_builds() {
    let data = "\r\nBody";
    assert!(Response::new(data).is_err());
}
