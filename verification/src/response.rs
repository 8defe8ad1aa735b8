//! Gemini responses: the header line, the status classes and the parser.
//!
//! On the wire a response is `<STATUS><SP><META>\r\n<BODY>`. The status is
//! two decimal digits between 10 and 69; its first digit is its class. For a
//! success the meta field names the media type of the body and, optionally,
//! its character set. A response of any other class has no body: what
//! follows its header is tolerated and left out.
//!
//! The parser works on text. Bytes off the wire are decoded first, with
//! U+FFFD in the place of whatever is not UTF-8, so that no input is refused
//! for its encoding.

use vstd::prelude::*;
use vstd::slice::slice_subrange;
use vstd::utf8::{decode_utf8, valid_utf8};
use crate::text::{
    chars_of, digit_char, digit_value, find, find_char, is_digit, lemma_digit_char,
    lemma_find_char, starts_with_str, string_of, trim, trimmed,
};

verus! {

/// The six classes of status codes.
#[derive(Copy, Clone, Debug, PartialEq, Eq, Structural)]
pub enum StatusClass {
    Input,
    Success,
    Redirect,
    TempFail,
    PermFail,
    CertRequired,
}

/// The class of a status code; `None` outside 10..=69.
pub open spec fn class_of(code: u8) -> Option<StatusClass> {
    if 10 <= code <= 19 {
        Some(StatusClass::Input)
    } else if 20 <= code <= 29 {
        Some(StatusClass::Success)
    } else if 30 <= code <= 39 {
        Some(StatusClass::Redirect)
    } else if 40 <= code <= 49 {
        Some(StatusClass::TempFail)
    } else if 50 <= code <= 59 {
        Some(StatusClass::PermFail)
    } else if 60 <= code <= 69 {
        Some(StatusClass::CertRequired)
    } else {
        None
    }
}

/// Classifies a status code by its first digit.
pub fn classify_status(code: u8) -> (class: Option<StatusClass>)
    ensures
        class == class_of(code),
{
    if code < 10 {
        None
    } else if code < 20 {
        Some(StatusClass::Input)
    } else if code < 30 {
        Some(StatusClass::Success)
    } else if code < 40 {
        Some(StatusClass::Redirect)
    } else if code < 50 {
        Some(StatusClass::TempFail)
    } else if code < 60 {
        Some(StatusClass::PermFail)
    } else if code < 70 {
        Some(StatusClass::CertRequired)
    } else {
        None
    }
}

/// Why a response could not be parsed.
#[derive(Copy, Clone, Debug, PartialEq, Eq, Structural)]
pub enum ResponseErrorKind {
    /// No `\r\n` ends the header.
    MissingTerminator,
    /// The status is not two digits between 10 and 69.
    BadStatus,
}

/// A malformed response.
#[derive(Clone, Debug)]
pub struct ResponseError {
    pub kind: ResponseErrorKind,
    pub details: String,
}

/// The details that go with each kind of error.
pub open spec fn error_details(kind: ResponseErrorKind) -> Seq<char> {
    match kind {
        ResponseErrorKind::MissingTerminator => "missing terminator"@,
        ResponseErrorKind::BadStatus => "bad status"@,
    }
}

impl ResponseError {
    /// An error of the given kind with its details.
    pub fn new(kind: ResponseErrorKind) -> (e: ResponseError)
        ensures
            e.kind == kind,
            e.details@ == error_details(kind),
    {
        let details = match kind {
            ResponseErrorKind::MissingTerminator => "missing terminator".to_owned(),
            ResponseErrorKind::BadStatus => "bad status".to_owned(),
        };
        ResponseError { kind, details }
    }

    /// The text shown for any malformed response.
    pub fn message(&self) -> (text: String)
        ensures
            text@ == "Malformed response!"@,
    {
        "Malformed response!".to_owned()
    }
}

/// The status code that `token` spells: exactly two digits that make a
/// number from 10 to 69.
pub open spec fn status_code(token: Seq<char>) -> Option<u8> {
    if token.len() == 2 && is_digit(token[0]) && is_digit(token[1]) {
        let value = 10 * digit_value(token[0]) + digit_value(token[1]);
        if 10 <= value <= 69 {
            Some(value as u8)
        } else {
            None
        }
    } else {
        None
    }
}

/// The header line of a response: the status code and the meta field.
#[derive(Clone, Debug)]
pub struct Status {
    pub code: u8,
    pub meta: String,
}

/// The mathematical value of a [`Status`].
pub struct StatusLine {
    pub code: u8,
    pub meta: Seq<char>,
}

impl View for Status {
    type V = StatusLine;

    open spec fn view(&self) -> StatusLine {
        StatusLine { code: self.code, meta: self.meta@ }
    }
}

/// The header that `header` spells, split at its first space: a valid status
/// code, then the meta field, which is empty when there is no space.
pub open spec fn parse_header(header: Seq<char>) -> Option<StatusLine> {
    let space = find_char(header, ' ', 0);
    let meta = if space < header.len() {
        header.skip(space + 1)
    } else {
        Seq::empty()
    };
    match status_code(header.take(space)) {
        Some(code) => Some(StatusLine { code, meta }),
        None => None,
    }
}

/// Reads one digit.
fn digit(c: char) -> (value: Option<u8>)
    ensures
        value.is_some() == is_digit(c),
        value.is_some() ==> value.unwrap() == digit_value(c),
{
    let v: u32 = c as u32;
    if 48 <= v && v <= 57 {
        Some((v - 48) as u8)
    } else {
        None
    }
}

/// Reads a status code.
fn read_status_code(token: &[char]) -> (code: Option<u8>)
    ensures
        code == status_code(token@),
{
    if token.len() != 2 {
        return None;
    }
    match (digit(token[0]), digit(token[1])) {
        (Some(tens), Some(units)) => {
            let value: u8 = tens * 10 + units;
            if 10 <= value && value <= 69 {
                Some(value)
            } else {
                None
            }
        },
        _ => None,
    }
}

impl Status {
    /// Parses a header line (without its terminator).
    pub fn new(header: &str) -> (r: Result<Status, ResponseError>)
        ensures
            match parse_header(header@) {
                Some(line) => r.is_ok() && r.unwrap()@ == line,
                None => r.is_err() && r.unwrap_err().kind == ResponseErrorKind::BadStatus
                    && r.unwrap_err().details@ == error_details(ResponseErrorKind::BadStatus),
            },
    {
        let chars = chars_of(header);
        Status::read(chars.as_slice())
    }

    /// Parses a header line given as characters.
    pub fn read(header: &[char]) -> (r: Result<Status, ResponseError>)
        ensures
            match parse_header(header@) {
                Some(line) => r.is_ok() && r.unwrap()@ == line,
                None => r.is_err() && r.unwrap_err().kind == ResponseErrorKind::BadStatus
                    && r.unwrap_err().details@ == error_details(ResponseErrorKind::BadStatus),
            },
    {
        let space = find(header, ' ', 0);
        let token = slice_subrange(header, 0, space);
        match read_status_code(token) {
            Some(code) => {
                let meta = if space < header.len() {
                    string_of(slice_subrange(header, space + 1, header.len()))
                } else {
                    String::new()
                };
                Ok(Status { code, meta })
            },
            None => Err(ResponseError::new(ResponseErrorKind::BadStatus)),
        }
    }
}

/// The media type of a success whose meta field names none.
pub open spec fn default_mimetype() -> Seq<char> {
    "text/gemini"@
}

/// The character set of a success whose meta field names none.
pub open spec fn default_charset() -> Seq<char> {
    "utf-8"@
}

/// The key of the parameter that names the character set.
pub open spec fn charset_key() -> Seq<char> {
    "charset="@
}

/// The media type that a meta field names: its first `;`-separated segment
/// without the white space around it, or the default when that is empty.
pub open spec fn mimetype_of(meta: Seq<char>) -> Seq<char> {
    let first = trimmed(meta.take(find_char(meta, ';', 0)));
    if first.len() == 0 {
        default_mimetype()
    } else {
        first
    }
}

/// The character set that one parameter names: the parameter begins with
/// `charset=` and what follows is not white space alone.
pub open spec fn charset_value(param: Seq<char>) -> Option<Seq<char>> {
    let value = trimmed(param.skip(charset_key().len() as int));
    if charset_key().is_prefix_of(param) && value.len() > 0 {
        Some(value)
    } else {
        None
    }
}

/// The character set named by the first parameter that names one, among the
/// `;`-separated parameters of `meta` from position `from` on.
pub open spec fn charset_param(meta: Seq<char>, from: int) -> Option<Seq<char>>
    decreases meta.len() + 1 - from,
    via charset_param_terminates
{
    if from < 0 || from > meta.len() {
        None
    } else {
        let end = find_char(meta, ';', from);
        match charset_value(trimmed(meta.subrange(from, end))) {
            Some(value) => Some(value),
            None => charset_param(meta, end + 1),
        }
    }
}

#[via_fn]
proof fn charset_param_terminates(meta: Seq<char>, from: int) {
    if 0 <= from <= meta.len() {
        lemma_find_char(meta, ';', from);
    }
}

/// The character set that a meta field names, or the default.
pub open spec fn charset_of(meta: Seq<char>) -> Seq<char> {
    match charset_param(meta, find_char(meta, ';', 0) + 1) {
        Some(value) => value,
        None => default_charset(),
    }
}

/// The result of one transaction.
#[derive(Clone, Debug)]
pub struct Response {
    /// The status code, from 10 to 69.
    pub status: u8,
    /// The meta field as it came.
    pub meta: String,
    /// The media type of the body; empty unless the status is a success.
    pub mimetype: String,
    /// The character set of the body; empty unless the status is a success.
    pub charset: String,
    /// The body; empty unless the status is a success.
    pub body: String,
}

/// The mathematical value of a [`Response`].
pub struct Reply {
    pub status: u8,
    pub meta: Seq<char>,
    pub mimetype: Seq<char>,
    pub charset: Seq<char>,
    pub body: Seq<char>,
}

impl View for Response {
    type V = Reply;

    open spec fn view(&self) -> Reply {
        Reply {
            status: self.status,
            meta: self.meta@,
            mimetype: self.mimetype@,
            charset: self.charset@,
            body: self.body@,
        }
    }
}

/// What holds of every response: its status has a class, a success names a
/// media type and a character set, and anything else has no body.
pub open spec fn well_formed(reply: Reply) -> bool {
    &&& class_of(reply.status).is_some()
    &&& class_of(reply.status) == Some(StatusClass::Success) ==> reply.mimetype.len() > 0
        && reply.charset.len() > 0
    &&& class_of(reply.status) != Some(StatusClass::Success) ==> reply.body.len() == 0
}

/// The text that a response has to show: the body of a success, the meta
/// field (a prompt, a target, a message) of anything else.
pub open spec fn shown_text(reply: Reply) -> Seq<char> {
    if class_of(reply.status) == Some(StatusClass::Success) {
        reply.body
    } else {
        reply.meta
    }
}

/// The response that a header line and what follows it make.
pub open spec fn reply_of(line: StatusLine, body: Seq<char>) -> Reply {
    if class_of(line.code) == Some(StatusClass::Success) {
        Reply {
            status: line.code,
            meta: line.meta,
            mimetype: mimetype_of(line.meta),
            charset: charset_of(line.meta),
            body,
        }
    } else {
        Reply {
            status: line.code,
            meta: line.meta,
            mimetype: Seq::empty(),
            charset: Seq::empty(),
            body: Seq::empty(),
        }
    }
}

/// The position of the first `\r\n` in `s` at or after `from`, or `s.len()`
/// when there is none.
pub open spec fn find_crlf(s: Seq<char>, from: int) -> int
    decreases s.len() - from,
{
    if from + 1 >= s.len() {
        s.len() as int
    } else if s[from] == '\r' && s[from + 1] == '\n' {
        from
    } else {
        find_crlf(s, from + 1)
    }
}

/// The response that `text` spells, or why it spells none.
pub open spec fn parse(text: Seq<char>) -> Result<Reply, ResponseErrorKind> {
    let at = find_crlf(text, 0);
    if at >= text.len() {
        Err(ResponseErrorKind::MissingTerminator)
    } else {
        match parse_header(text.take(at)) {
            Some(line) => Ok(reply_of(line, text.skip(at + 2))),
            None => Err(ResponseErrorKind::BadStatus),
        }
    }
}

/// Reads the media type out of a meta field.
fn read_mimetype(meta: &[char]) -> (mimetype: String)
    ensures
        mimetype@ == mimetype_of(meta@),
{
    let first = trim(slice_subrange(meta, 0, find(meta, ';', 0)));
    if first.len() == 0 {
        "text/gemini".to_owned()
    } else {
        string_of(first)
    }
}

/// Reads the character set out of one parameter.
fn read_charset_value(param: &[char]) -> (value: Option<String>)
    ensures
        value.is_some() == charset_value(param@).is_some(),
        value.is_some() ==> value.unwrap()@ == charset_value(param@).unwrap(),
{
    proof {
        reveal_strlit("charset=");
    }
    if !starts_with_str(param, "charset=") {
        return None;
    }
    let value = trim(slice_subrange(param, 8, param.len()));
    if value.len() == 0 {
        None
    } else {
        Some(string_of(value))
    }
}

/// Reads the character set out of a meta field.
fn read_charset(meta: &[char]) -> (charset: String)
    ensures
        charset@ == charset_of(meta@),
{
    let mut end = find(meta, ';', 0);
    while end < meta.len()
        invariant
            end <= meta@.len(),
            charset_param(meta@, end + 1) == charset_param(meta@, find_char(meta@, ';', 0) + 1),
        decreases meta@.len() - end,
    {
        let stop = find(meta, ';', end + 1);
        let param = trim(slice_subrange(meta, end + 1, stop));
        match read_charset_value(param) {
            Some(value) => {
                return value;
            },
            None => {},
        }
        end = stop;
    }
    "utf-8".to_owned()
}

/// Finds the first `\r\n`.
fn find_terminator(text: &[char]) -> (at: usize)
    ensures
        at == find_crlf(text@, 0),
        at <= text@.len(),
        at < text@.len() ==> at + 2 <= text@.len(),
{
    let mut i: usize = 0;
    while i < text.len() && i + 1 < text.len()
        invariant
            i <= text@.len(),
            find_crlf(text@, i as int) == find_crlf(text@, 0),
        decreases text@.len() - i,
    {
        if text[i] == '\r' && text[i + 1] == '\n' {
            return i;
        }
        i += 1;
    }
    text.len()
}

impl Response {
    /// Parses a response: the header line up to the first `\r\n`, then the
    /// body.
    pub fn new(data: &str) -> (r: Result<Response, ResponseError>)
        ensures
            match parse(data@) {
                Ok(reply) => r.is_ok() && r.unwrap()@ == reply,
                Err(kind) => r.is_err() && r.unwrap_err().kind == kind && r.unwrap_err().details@
                    == error_details(kind),
            },
            r.is_ok() ==> well_formed(r.unwrap()@),
    {
        proof {
            lemma_parse_well_formed(data@);
        }
        let text = chars_of(data);
        let at = find_terminator(text.as_slice());
        if at >= text.len() {
            return Err(ResponseError::new(ResponseErrorKind::MissingTerminator));
        }
        let header = slice_subrange(text.as_slice(), 0, at);
        let body = slice_subrange(text.as_slice(), at + 2, text.len());
        match Status::read(header) {
            Ok(status) => Ok(Response::assemble(status, body)),
            Err(e) => Err(e),
        }
    }

    /// Parses a response as it came off the wire. This is where bytes become
    /// text: what is not UTF-8 is replaced, never refused, so the text that
    /// is parsed is `lossy_text(raw)`, which for UTF-8 is the text that the
    /// bytes encode.
    pub fn from_bytes(raw: &[u8]) -> (r: Result<Response, ResponseError>)
        ensures
            match parse(lossy_text(raw@)) {
                Ok(reply) => r.is_ok() && r.unwrap()@ == reply,
                Err(kind) => r.is_err() && r.unwrap_err().kind == kind && r.unwrap_err().details@
                    == error_details(kind),
            },
            r.is_ok() ==> well_formed(r.unwrap()@),
            valid_utf8(raw@) ==> lossy_text(raw@) == decode_utf8(raw@),
    {
        let text = decode_lossy(raw);
        Response::new(text.as_str())
    }

    /// Puts a response together from its header line and what follows it.
    pub fn assemble(status: Status, body: &[char]) -> (response: Response)
        ensures
            response@ == reply_of(status@, body@),
    {
        match classify_status(status.code) {
            Some(StatusClass::Success) => {
                let meta = chars_of(status.meta.as_str());
                Response {
                    status: status.code,
                    mimetype: read_mimetype(meta.as_slice()),
                    charset: read_charset(meta.as_slice()),
                    meta: status.meta,
                    body: string_of(body),
                }
            },
            _ => Response {
                status: status.code,
                meta: status.meta,
                mimetype: String::new(),
                charset: String::new(),
                body: String::new(),
            },
        }
    }

    /// The text that a response has to show: the body of a success, the meta
    /// field of anything else.
    pub fn text(&self) -> (text: &str)
        ensures
            text@ == shown_text(self@),
    {
        match classify_status(self.status) {
            Some(StatusClass::Success) => self.body.as_str(),
            _ => self.meta.as_str(),
        }
    }

    /// The class of the status.
    pub fn class(&self) -> (class: Option<StatusClass>)
        ensures
            class == class_of(self.status),
    {
        classify_status(self.status)
    }
}

/// The text that `String::from_utf8_lossy` makes of `bytes`.
pub uninterp spec fn lossy_text(bytes: Seq<u8>) -> Seq<char>;

/// Calls `String::from_utf8_lossy`, which decodes UTF-8 and puts U+FFFD in
/// the place of what is not. The contract names the result, and claims that
/// on valid UTF-8 it is the text that the bytes encode.
#[verifier::external_body]
fn decode_lossy(bytes: &[u8]) -> (text: String)
    ensures
        text@ == lossy_text(bytes@),
        valid_utf8(bytes@) ==> text@ == decode_utf8(bytes@),
{
    String::from_utf8_lossy(bytes).into_owned()
}

/// The response that stands for a failure on this side of the connection:
/// the message is its meta field, and it has no body.
pub open spec fn synthetic_reply(status: u8, message: Seq<char>) -> Reply {
    Reply {
        status,
        meta: message,
        mimetype: Seq::empty(),
        charset: Seq::empty(),
        body: Seq::empty(),
    }
}

/// Makes the response that reports `message` under `status`, which is the
/// status of a failure or of another class that is no success: a response
/// that is made here never passes for a success.
pub fn create_fake_response(status: u8, message: &str) -> (response: Response)
    requires
        class_of(status).is_some(),
        class_of(status) != Some(StatusClass::Success),
    ensures
        response@ == synthetic_reply(status, message@),
        well_formed(response@),
{
    Response {
        status,
        meta: message.to_owned(),
        mimetype: String::new(),
        charset: String::new(),
        body: String::new(),
    }
}

/// The default media type and character set are not empty.
pub proof fn lemma_defaults_not_empty()
    ensures
        default_mimetype().len() > 0,
        default_charset().len() > 0,
{
    reveal_strlit("text/gemini");
    reveal_strlit("utf-8");
}

/// A character set that a parameter names is not empty.
pub proof fn lemma_charset_param_not_empty(meta: Seq<char>, from: int)
    ensures
        charset_param(meta, from).is_some() ==> charset_param(meta, from).unwrap().len() > 0,
    decreases meta.len() + 1 - from,
{
    if 0 <= from <= meta.len() {
        let end = find_char(meta, ';', from);
        lemma_find_char(meta, ';', from);
        if charset_value(trimmed(meta.subrange(from, end))).is_none() {
            lemma_charset_param_not_empty(meta, end + 1);
        }
    }
}

/// Every response that parses is well formed: its status is from 10 to 69
/// and so has exactly one class, a success names a media type and a
/// character set, and anything else has no body.
pub proof fn lemma_parse_well_formed(text: Seq<char>)
    ensures
        parse(text).is_ok() ==> well_formed(parse(text).unwrap()),
{
    lemma_defaults_not_empty();
    if parse(text).is_ok() {
        let line = parse_header(text.take(find_crlf(text, 0))).unwrap();
        lemma_charset_param_not_empty(line.meta, find_char(line.meta, ';', 0) + 1);
    }
}

/// The wire form of a response: the two digits of the status, a space, the
/// meta field, `\r\n`, and the body.
pub open spec fn wire_text(line: StatusLine, body: Seq<char>) -> Seq<char> {
    seq![digit_char((line.code / 10) as nat), digit_char((line.code % 10) as nat), ' '] + line.meta
        + seq!['\r', '\n'] + body
}

/// Whether `s` holds a `\r\n`.
pub open spec fn has_crlf(s: Seq<char>) -> bool {
    exists|i: int| 0 <= i && i + 1 < s.len() && s[i] == '\r' && #[trigger] s[i + 1] == '\n'
}

/// `find_crlf` finds the terminator at `at` when no other begins before it.
proof fn lemma_find_crlf_at(s: Seq<char>, from: int, at: int)
    requires
        0 <= from <= at,
        at + 1 < s.len(),
        s[at] == '\r',
        s[at + 1] == '\n',
        forall|i: int| from <= i < at ==> !(s[i] == '\r' && #[trigger] s[i + 1] == '\n'),
    ensures
        find_crlf(s, from) == at,
    decreases at - from,
{
    if from < at {
        assert(!(s[from] == '\r' && s[from + 1] == '\n'));
        lemma_find_crlf_at(s, from + 1, at);
    }
}

/// Parsing undoes the wire form: a status from 10 to 69, a meta field
/// without `\r\n` and any body, written out and parsed, give the response
/// of that status, meta field and body.
pub proof fn lemma_parse_wire_text(line: StatusLine, body: Seq<char>)
    requires
        class_of(line.code).is_some(),
        !has_crlf(line.meta),
    ensures
        parse(wire_text(line, body)) == Ok::<Reply, ResponseErrorKind>(reply_of(line, body)),
{
    let tens = digit_char((line.code / 10) as nat);
    let units = digit_char((line.code % 10) as nat);
    let header = seq![tens, units, ' '] + line.meta;
    let text = wire_text(line, body);
    let at = header.len() as int;
    lemma_digit_char((line.code / 10) as nat);
    lemma_digit_char((line.code % 10) as nat);
    assert forall|i: int| 0 <= i < at implies !(text[i] == '\r' && #[trigger] text[i + 1]
        == '\n') by {
        if 3 <= i && i + 1 < at {
            assert(text[i] == line.meta[i - 3]);
            assert(text[i + 1] == line.meta[(i - 3) + 1]);
        }
    }
    lemma_find_crlf_at(text, 0, at);
    assert(text.take(at) == header);
    assert(text.skip(at + 2) == body);
    reveal_with_fuel(find_char, 3);
    assert(find_char(header, ' ', 0) == 2);
    assert(header.take(2) == seq![tens, units]);
    assert(header.skip(3) == line.meta);
    assert(status_code(header.take(2)) == Some(line.code));
}

} // verus!
