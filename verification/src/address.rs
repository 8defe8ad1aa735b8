//! Addresses: from the text of a URL to the host, port and path of a
//! request, and to the request line that goes on the wire.

use vstd::prelude::*;
use vstd::slice::slice_subrange;
use vstd::string::StringExecFns;
use crate::text::{chars_of, decimal, push_decimal, string_of};

verus! {

/// The port of a Gemini server when the address names none.
pub const DEFAULT_PORT: u16 = 1965;

/// The components of a parsed URL that a request is made from.
#[derive(Clone, Debug)]
pub struct UrlParts {
    pub scheme: String,
    pub host: Option<String>,
    pub port: Option<u16>,
    pub path: String,
}

/// The mathematical value of [`UrlParts`].
pub struct UrlPartsView {
    pub scheme: Seq<char>,
    pub host: Option<Seq<char>>,
    pub port: Option<u16>,
    pub path: Seq<char>,
}

impl View for UrlParts {
    type V = UrlPartsView;

    open spec fn view(&self) -> UrlPartsView {
        UrlPartsView {
            scheme: self.scheme@,
            host: match self.host {
                Some(host) => Some(host@),
                None => None,
            },
            port: self.port,
            path: self.path@,
        }
    }
}

/// The error of `url::Url::parse`, as it is: nothing is read off it.
#[verifier::external_type_specification]
#[verifier::external_body]
pub struct ExParseError(url::ParseError);

/// The components that `url::Url::parse` finds in `text`: its scheme, host,
/// port and path; `None` where it refuses the text.
pub uninterp spec fn url_parts(text: Seq<char>) -> Option<UrlPartsView>;

/// Calls `url::Url::parse` and reads the scheme, host, port and path off the
/// result with `scheme`, `host_str`, `port` and `path`. The contract names
/// what comes back and says nothing more of it.
#[verifier::external_body]
fn parse_url(text: &str) -> (parsed: Result<UrlParts, url::ParseError>)
    ensures
        match parsed {
            Ok(parts) => url_parts(text@) == Some(parts@),
            Err(_) => url_parts(text@).is_none(),
        },
{
    let url = url::Url::parse(text)?;
    Ok(
        UrlParts {
            scheme: url.scheme().to_owned(),
            host: url.host_str().map(str::to_owned),
            port: url.port(),
            path: url.path().to_owned(),
        },
    )
}

/// Why an address cannot be visited.
#[derive(Copy, Clone, Debug, PartialEq, Eq, Structural)]
pub enum UrlError {
    /// The text is not a URL.
    Malformed,
    /// The URL names no host.
    MissingHost,
}

/// Where a request goes and what it asks for.
#[derive(Clone, Debug)]
pub struct Target {
    pub scheme: String,
    pub host: String,
    pub port: u16,
    /// The path without its leading `/`.
    pub path: String,
}

/// The mathematical value of a [`Target`].
pub struct TargetView {
    pub scheme: Seq<char>,
    pub host: Seq<char>,
    pub port: u16,
    pub path: Seq<char>,
}

impl View for Target {
    type V = TargetView;

    open spec fn view(&self) -> TargetView {
        TargetView { scheme: self.scheme@, host: self.host@, port: self.port, path: self.path@ }
    }
}

/// `path` without one leading `/`, if it has one.
pub open spec fn relative_path(path: Seq<char>) -> Seq<char> {
    if path.len() > 0 && path[0] == '/' {
        path.drop_first()
    } else {
        path
    }
}

/// The target that the components of a URL name: the host must be there and
/// not empty, and the port is `default_port` where the URL has none.
pub open spec fn resolved(parts: UrlPartsView, default_port: u16) -> Result<TargetView, UrlError> {
    match parts.host {
        Some(host) => if host.len() > 0 {
            Ok(
                TargetView {
                    scheme: parts.scheme,
                    host,
                    port: match parts.port {
                        Some(port) => port,
                        None => default_port,
                    },
                    path: relative_path(parts.path),
                },
            )
        } else {
            Err(UrlError::MissingHost)
        },
        None => Err(UrlError::MissingHost),
    }
}

/// The target that the text of a URL names, given what a URL parser finds in
/// it.
pub open spec fn located(parts: Option<UrlPartsView>, default_port: u16) -> Result<
    TargetView,
    UrlError,
> {
    match parts {
        Some(parts) => resolved(parts, default_port),
        None => Err(UrlError::Malformed),
    }
}

/// The value of a result of [`resolve`].
pub open spec fn target_view(r: Result<Target, UrlError>) -> Result<TargetView, UrlError> {
    match r {
        Ok(target) => Ok(target@),
        Err(e) => Err(e),
    }
}

/// Turns the components of a URL into the target of a request.
pub fn resolve(parts: UrlParts, default_port: u16) -> (r: Result<Target, UrlError>)
    ensures
        target_view(r) == resolved(parts@, default_port),
{
    let host = match parts.host {
        Some(host) => host,
        None => {
            return Err(UrlError::MissingHost);
        },
    };
    if host.as_str().is_empty() {
        return Err(UrlError::MissingHost);
    }
    let port = match parts.port {
        Some(port) => port,
        None => default_port,
    };
    let path_chars = chars_of(parts.path.as_str());
    let path = if path_chars.len() > 0 && path_chars[0] == '/' {
        string_of(slice_subrange(path_chars.as_slice(), 1, path_chars.len()))
    } else {
        parts.path
    };
    Ok(Target { scheme: parts.scheme, host, port, path })
}

/// Parses the text of a URL and turns it into the target of a request.
pub fn locate(url: &str, default_port: u16) -> (r: Result<Target, UrlError>)
    ensures
        target_view(r) == located(url_parts(url@), default_port),
{
    match parse_url(url) {
        Ok(parts) => resolve(parts, default_port),
        Err(_) => Err(UrlError::Malformed),
    }
}

/// The request line of a target:
/// `<scheme>://<host>:<port>/<path>` and the terminator `\r\n`.
pub open spec fn request_text(target: TargetView) -> Seq<char> {
    target.scheme + seq![':', '/', '/'] + target.host + seq![':'] + decimal(target.port as nat)
        + seq!['/'] + target.path + seq!['\r', '\n']
}

impl Target {
    /// The request line that asks for this target.
    pub fn request_line(&self) -> (line: String)
        ensures
            line@ == request_text(self@),
    {
        let mut line = String::new();
        line.append(self.scheme.as_str());
        line.push(':');
        line.push('/');
        line.push('/');
        line.append(self.host.as_str());
        line.push(':');
        push_decimal(&mut line, self.port);
        line.push('/');
        line.append(self.path.as_str());
        line.push('\r');
        line.push('\n');
        assert(line@ == request_text(self@));
        line
    }
}

/// A request line ends with `\r\n`, and with nothing after it.
pub proof fn lemma_request_is_terminated(target: TargetView)
    ensures
        request_text(target).len() >= 2,
        request_text(target)[request_text(target).len() - 2] == '\r',
        request_text(target).last() == '\n',
{
}

} // verus!
