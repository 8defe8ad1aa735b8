use armstrong::gemtext::{parse_gemtext, TokenKind};
use armstrong::response::{classify_status, Response, ResponseErrorKind, StatusClass};
use armstrong::transaction::conclude;

/// A small generator of repeatable noise.
struct Noise(u64);

impl Noise {
    fn next(&mut self) -> u64 {
        self.0 = self.0.wrapping_mul(6364136223846793005).wrapping_add(1442695040888963407);
        self.0 >> 33
    }

    fn bytes(&mut self, alphabet: &[u8], max: u64) -> Vec<u8> {
        let len = self.next() % (max + 1);
        (0..len).map(|_| alphabet[(self.next() % alphabet.len() as u64) as usize]).collect()
    }
}

fn check_response(r: &Response) {
    let class = classify_status(r.status);
    assert!(class.is_some());
    assert!((10..=69).contains(&r.status));
    if class == Some(StatusClass::Success) {
        assert!(!r.mimetype.is_empty());
        assert!(!r.charset.is_empty());
    } else {
        assert!(r.body.is_empty());
        assert!(r.mimetype.is_empty());
        assert!(r.charset.is_empty());
    }
}

#[test]
fn malformed_responses_are_refused_or_parsed() {
    let inputs: [&[u8]; 14] = [
        b"",
        b"\r",
        b"\n",
        b"\r\n",
        b"\r\n\r\n",
        b"20",
        b"20\r",
        b"20\n",
        b"2\r\n0 x\r\n",
        b"\x0020 x\r\n",
        b"20 \xff\xfe\xfd;charset=\xff\r\n\xff",
        b"20 ;;;;;;;;;;;charset=;;;;charset= \t ;\r\n",
        b"69 \r\r\r\n\r\n",
        b"\xef\xbb\xbf20 text/gemini\r\n",
    ];
    for raw in inputs {
        match Response::from_bytes(raw) {
            Ok(r) => check_response(&r),
            Err(e) => {
                let known = e.kind == ResponseErrorKind::MissingTerminator
                    || e.kind == ResponseErrorKind::BadStatus;
                assert!(known);
            }
        }
        check_response(&conclude(raw));
    }
}

#[test]
fn noise_is_refused_or_parsed() {
    let mut noise = Noise(7);
    let alphabet = b"0123456789 ;=\r\n\tabcCharset/-\xff\xc3\xa9";
    let mut parsed = 0;
    for _ in 0..3000 {
        let raw = noise.bytes(alphabet, 40);
        if let Ok(r) = Response::from_bytes(&raw) {
            check_response(&r);
            parsed += 1;
        }
        check_response(&conclude(&raw));
    }
    assert!(parsed > 0);
}

#[test]
fn noise_is_tokenized() {
    let mut noise = Noise(11);
    let alphabet = b"#=>*` \t\r\nab";
    for _ in 0..3000 {
        let raw = noise.bytes(alphabet, 60);
        let text = String::from_utf8(raw).unwrap();
        let tokens = parse_gemtext(&text);
        let lines = text.split('\n').count();
        assert!(tokens.len() <= lines);
        for token in &tokens {
            if token.kind != TokenKind::Link && token.kind != TokenKind::PreFormattedText {
                assert_eq!(token.extra, "");
            }
            if token.kind != TokenKind::PreFormattedText {
                assert!(!token.data.contains('\n'));
            }
            if token.kind == TokenKind::Link {
                assert!(!token.data.contains(' '));
                assert!(!token.data.contains('\t'));
            }
        }
        let again = parse_gemtext(&text);
        assert_eq!(tokens.len(), again.len());
        for (a, b) in tokens.iter().zip(again.iter()) {
            assert_eq!((a.kind, &a.data, &a.extra), (b.kind, &b.data, &b.extra));
        }
    }
}

#[test]
fn text_without_markers_is_one_token_per_line() {
    let text = "one\ntwo words\n\n  indented\n-> not a link\n` ` `\n";
    let tokens = parse_gemtext(text);
    let lines: Vec<&str> = text.lines().collect();
    assert_eq!(tokens.len(), lines.len());
    for (token, line) in tokens.iter().zip(lines) {
        assert_eq!(token.kind, TokenKind::Text);
        assert_eq!(token.data, line);
    }
}

#[test]
fn wire_form_parses_back() {
    for code in 10..=69u8 {
        for meta in ["", "text/gemini", "a b  c", "x\ry", "x\ny", "\r", "text/plain;charset=x"] {
            for body in ["", "body", "\r\n", "a\r\nb"] {
                let wire = format!("{}{} {}\r\n{}", code / 10, code % 10, meta, body);
                let r = Response::new(&wire).unwrap();
                assert_eq!(r.status, code);
                assert_eq!(r.meta, meta);
                if classify_status(code) == Some(StatusClass::Success) {
                    assert_eq!(r.body, body);
                } else {
                    assert_eq!(r.body, "");
                }
                check_response(&r);
            }
        }
    }
}
