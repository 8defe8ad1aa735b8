//! One Gemini transaction as a state machine.
//!
//! A transaction resolves an address, connects, secures the connection,
//! sends one request line and reads until the peer closes. The machine
//! decides; its driver acts. Each [`Action`] tells the driver what to do
//! next, and the driver reports what happened as an [`Event`]. Whatever
//! happens, the transaction ends in a [`Response`]: a failure on this side
//! of the connection ends it in a synthetic one, which carries the message
//! as its meta field under [`LOCAL_STATUS`].

use vstd::prelude::*;
use crate::address::{
    locate, located, request_text, url_parts, Target, TargetView, UrlError, DEFAULT_PORT,
};
use crate::response::{
    class_of, create_fake_response, lemma_defaults_not_empty, lemma_parse_well_formed, lossy_text,
    parse, shown_text, synthetic_reply, well_formed, Reply, Response, ResponseErrorKind, StatusClass,
};

verus! {

/// The status set aside for what fails on this side of the connection: a
/// temporary failure, so that no response made here passes for a success.
pub const LOCAL_STATUS: u8 = 49;

/// Whether `rustls::ServerName` can be made from `host`.
pub uninterp spec fn server_name_accepted(host: Seq<char>) -> bool;

/// Calls `rustls::ServerName::try_from` on `host` and says whether it
/// succeeded: it does for a DNS name and for the text of an IP address. The
/// contract names the answer and claims nothing more of it.
#[verifier::external_body]
fn accepts_server_name(host: &str) -> (accepted: bool)
    ensures
        accepted == server_name_accepted(host@),
{
    rustls::ServerName::try_from(host).is_ok()
}

/// How far a transaction has come.
#[derive(Copy, Clone, Debug, PartialEq, Eq, Structural)]
pub enum Phase {
    Connecting,
    Securing,
    Sending,
    Receiving,
}

/// A transaction under way.
#[derive(Debug)]
pub struct Transaction {
    pub phase: Phase,
    pub target: Target,
    /// The bytes of the response read so far.
    pub received: Vec<u8>,
}

/// The mathematical value of a [`Transaction`].
pub struct TransactionView {
    pub phase: Phase,
    pub target: TargetView,
    pub received: Seq<u8>,
}

impl View for Transaction {
    type V = TransactionView;

    open spec fn view(&self) -> TransactionView {
        TransactionView { phase: self.phase, target: self.target@, received: self.received@ }
    }
}

/// What the driver does next.
#[derive(Debug)]
pub enum Action {
    /// Open a connection to the host and port.
    Connect { host: String, port: u16 },
    /// Perform the TLS handshake against the server name.
    Handshake { server_name: String },
    /// Write the request line.
    Send { request: String },
    /// Read the next bytes.
    Receive,
}

/// The mathematical value of an [`Action`].
pub enum ActionView {
    Connect { host: Seq<char>, port: u16 },
    Handshake { server_name: Seq<char> },
    Send { request: Seq<char> },
    Receive,
}

impl View for Action {
    type V = ActionView;

    open spec fn view(&self) -> ActionView {
        match self {
            Action::Connect { host, port } => ActionView::Connect { host: host@, port: *port },
            Action::Handshake { server_name } => ActionView::Handshake {
                server_name: server_name@,
            },
            Action::Send { request } => ActionView::Send { request: request@ },
            Action::Receive => ActionView::Receive,
        }
    }
}

/// A failure of the transport: resolving the name, connecting, the
/// handshake, writing or reading.
#[derive(Clone, Debug)]
pub struct TransportError {
    pub message: String,
}

impl TransportError {
    /// A transport failure with its message.
    pub fn new(message: &str) -> (error: TransportError)
        ensures
            error.message@ == message@,
    {
        TransportError { message: message.to_owned() }
    }
}

/// What the driver reports.
#[derive(Debug)]
pub enum Event {
    /// The connection is open.
    Connected,
    /// The handshake is done.
    Secured,
    /// The request line is written.
    Sent,
    /// These bytes were read.
    Received(Vec<u8>),
    /// The peer closed the connection.
    Closed,
    /// The action failed.
    Failed(TransportError),
}

/// The mathematical value of an [`Event`].
pub enum EventView {
    Connected,
    Secured,
    Sent,
    Received(Seq<u8>),
    Closed,
    Failed(Seq<char>),
}

impl View for Event {
    type V = EventView;

    open spec fn view(&self) -> EventView {
        match self {
            Event::Connected => EventView::Connected,
            Event::Secured => EventView::Secured,
            Event::Sent => EventView::Sent,
            Event::Received(bytes) => EventView::Received(bytes@),
            Event::Closed => EventView::Closed,
            Event::Failed(error) => EventView::Failed(error.message@),
        }
    }
}

/// Where a transaction stands after a decision.
#[derive(Debug)]
pub enum Step {
    /// The transaction goes on: the driver performs the action.
    Continue(Transaction, Action),
    /// The transaction is over.
    Finished(Response),
}

/// The mathematical value of a [`Step`].
pub enum StepView {
    Continue(TransactionView, ActionView),
    Finished(Reply),
}

impl View for Step {
    type V = StepView;

    open spec fn view(&self) -> StepView {
        match self {
            Step::Continue(transaction, action) => StepView::Continue(transaction@, action@),
            Step::Finished(response) => StepView::Finished(response@),
        }
    }
}

/// The message for an address that cannot be visited.
pub open spec fn url_error_text(e: UrlError) -> Seq<char> {
    match e {
        UrlError::Malformed => "malformed URL"@,
        UrlError::MissingHost => "URL without a host"@,
    }
}

/// The message for a host that is no server name.
pub open spec fn bad_server_name_text() -> Seq<char> {
    "invalid server name"@
}

/// The message for an event that does not answer the last action.
pub open spec fn unexpected_event_text() -> Seq<char> {
    "unexpected event"@
}

/// The message for a response that does not parse.
pub open spec fn malformed_response_text() -> Seq<char> {
    "Malformed response!"@
}

/// The synthetic response that carries `message`.
pub open spec fn failure(message: Seq<char>) -> StepView {
    StepView::Finished(synthetic_reply(LOCAL_STATUS, message))
}

/// The first step towards a target: connect, unless the host is no server
/// name.
pub open spec fn opened(target: TargetView, name_accepted: bool) -> StepView {
    if name_accepted {
        StepView::Continue(
            TransactionView { phase: Phase::Connecting, target, received: Seq::empty() },
            ActionView::Connect { host: target.host, port: target.port },
        )
    } else {
        failure(bad_server_name_text())
    }
}

/// The first step of a visit, given the target that the address names and
/// whether its host is a server name.
pub open spec fn begun(target: Result<TargetView, UrlError>, name_accepted: bool) -> StepView {
    match target {
        Ok(target) => opened(target, name_accepted),
        Err(e) => failure(url_error_text(e)),
    }
}

/// The response that the bytes read make: what they parse to after lossy
/// decoding, or the synthetic response for a malformed one.
pub open spec fn concluded(received: Seq<u8>) -> Reply {
    match parse(lossy_text(received)) {
        Ok(reply) => reply,
        Err(_) => synthetic_reply(LOCAL_STATUS, malformed_response_text()),
    }
}

/// The transition of a transaction on an event.
pub open spec fn next(t: TransactionView, e: EventView) -> StepView {
    match e {
        EventView::Failed(message) => failure(message),
        EventView::Connected => if t.phase == Phase::Connecting {
            StepView::Continue(
                TransactionView { phase: Phase::Securing, ..t },
                ActionView::Handshake { server_name: t.target.host },
            )
        } else {
            failure(unexpected_event_text())
        },
        EventView::Secured => if t.phase == Phase::Securing {
            StepView::Continue(
                TransactionView { phase: Phase::Sending, ..t },
                ActionView::Send { request: request_text(t.target) },
            )
        } else {
            failure(unexpected_event_text())
        },
        EventView::Sent => if t.phase == Phase::Sending {
            StepView::Continue(
                TransactionView { phase: Phase::Receiving, ..t },
                ActionView::Receive,
            )
        } else {
            failure(unexpected_event_text())
        },
        EventView::Received(bytes) => if t.phase == Phase::Receiving {
            StepView::Continue(
                TransactionView { received: t.received + bytes, ..t },
                ActionView::Receive,
            )
        } else {
            failure(unexpected_event_text())
        },
        EventView::Closed => if t.phase == Phase::Receiving {
            StepView::Finished(concluded(t.received))
        } else {
            failure(unexpected_event_text())
        },
    }
}

/// Ends a transaction with the synthetic response that carries `message`.
fn fail(message: &str) -> (step: Step)
    ensures
        step@ == failure(message@),
{
    Step::Finished(create_fake_response(LOCAL_STATUS, message))
}

/// Makes the response out of the bytes read.
pub fn conclude(received: &[u8]) -> (response: Response)
    ensures
        response@ == concluded(received@),
        well_formed(response@),
{
    proof {
        lemma_defaults_not_empty();
    }
    match Response::from_bytes(received) {
        Ok(response) => response,
        Err(e) => create_fake_response(LOCAL_STATUS, e.message().as_str()),
    }
}

impl Transaction {
    /// Takes the first step towards `target`, given whether its host is a
    /// server name.
    pub fn open(target: Target, name_accepted: bool) -> (step: Step)
        ensures
            step@ == opened(target@, name_accepted),
    {
        if !name_accepted {
            return fail("invalid server name");
        }
        let action = Action::Connect { host: target.host.clone(), port: target.port };
        Step::Continue(
            Transaction { phase: Phase::Connecting, target, received: Vec::new() },
            action,
        )
    }

    /// Takes the first step of a visit to `url`: resolves the address with
    /// the default port, checks the host and asks for a connection. An
    /// address that cannot be visited ends the transaction at once.
    pub fn begin(url: &str) -> (step: Step)
        ensures
            match located(url_parts(url@), DEFAULT_PORT) {
                Ok(target) => step@ == begun(Ok(target), server_name_accepted(target.host)),
                Err(e) => step@ == begun(Err(e), false),
            },
    {
        match locate(url, DEFAULT_PORT) {
            Ok(target) => {
                let accepted = accepts_server_name(target.host.as_str());
                Transaction::open(target, accepted)
            },
            Err(UrlError::Malformed) => fail("malformed URL"),
            Err(UrlError::MissingHost) => fail("URL without a host"),
        }
    }

    /// Decides what follows `event`.
    pub fn handle(self, event: Event) -> (step: Step)
        ensures
            step@ == next(self@, event@),
    {
        let Transaction { phase, target, received } = self;
        match event {
            Event::Failed(error) => fail(error.message.as_str()),
            Event::Connected => match phase {
                Phase::Connecting => {
                    let action = Action::Handshake { server_name: target.host.clone() };
                    Step::Continue(Transaction { phase: Phase::Securing, target, received }, action)
                },
                _ => fail("unexpected event"),
            },
            Event::Secured => match phase {
                Phase::Securing => {
                    let action = Action::Send { request: target.request_line() };
                    Step::Continue(Transaction { phase: Phase::Sending, target, received }, action)
                },
                _ => fail("unexpected event"),
            },
            Event::Sent => match phase {
                Phase::Sending => Step::Continue(
                    Transaction { phase: Phase::Receiving, target, received },
                    Action::Receive,
                ),
                _ => fail("unexpected event"),
            },
            Event::Received(bytes) => match phase {
                Phase::Receiving => {
                    let mut received = received;
                    let mut bytes = bytes;
                    received.append(&mut bytes);
                    Step::Continue(
                        Transaction { phase: Phase::Receiving, target, received },
                        Action::Receive,
                    )
                },
                _ => fail("unexpected event"),
            },
            Event::Closed => match phase {
                Phase::Receiving => Step::Finished(conclude(received.as_slice())),
                _ => fail("unexpected event"),
            },
        }
    }
}

/// However a transaction ends, it ends in a well-formed response.
pub proof fn lemma_finished_well_formed(t: TransactionView, e: EventView)
    ensures
        match next(t, e) {
            StepView::Finished(reply) => well_formed(reply),
            StepView::Continue(_, _) => true,
        },
{
    lemma_defaults_not_empty();
    lemma_parse_well_formed(lossy_text(t.received));
}

/// A visit that ends before it connects ends in a well-formed response.
pub proof fn lemma_begun_well_formed(target: Result<TargetView, UrlError>, name_accepted: bool)
    ensures
        match begun(target, name_accepted) {
            StepView::Finished(reply) => well_formed(reply),
            StepView::Continue(_, _) => true,
        },
{
    lemma_defaults_not_empty();
}

/// A failure ends a transaction at once, whatever its phase, in a response
/// under the local status: a temporary failure that carries the message as
/// its meta field and has no body.
pub proof fn lemma_failure_ends(t: TransactionView, message: Seq<char>)
    ensures
        next(t, EventView::Failed(message)) matches StepView::Finished(reply) && reply.status
            == LOCAL_STATUS && class_of(reply.status) == Some(StatusClass::TempFail) && reply.meta
            == message && reply.body.len() == 0 && shown_text(reply) == message,
{
}

/// A success comes from the server alone: a transaction ends in a success
/// only when the peer has closed and what was read parses to that success.
pub proof fn lemma_success_comes_from_the_server(t: TransactionView, e: EventView)
    ensures
        match next(t, e) {
            StepView::Finished(reply) => class_of(reply.status) == Some(StatusClass::Success)
                ==> e is Closed && t.phase == Phase::Receiving && parse(lossy_text(t.received))
                == Ok::<Reply, ResponseErrorKind>(reply),
            StepView::Continue(_, _) => true,
        },
{
}

/// A visit that ends before it connects does not end in a success.
pub proof fn lemma_begun_is_no_success(target: Result<TargetView, UrlError>, name_accepted: bool)
    ensures
        match begun(target, name_accepted) {
            StepView::Finished(reply) => reply.status == LOCAL_STATUS && class_of(reply.status)
                == Some(StatusClass::TempFail),
            StepView::Continue(_, _) => true,
        },
{
}

/// Delivery in chunks does not matter: two chunks read one after the other
/// leave the transaction where their concatenation read at once leaves it.
pub proof fn lemma_chunks_concatenate(t: TransactionView, first: Seq<u8>, second: Seq<u8>)
    requires
        t.phase == Phase::Receiving,
    ensures
        next(t, EventView::Received(first)) matches StepView::Continue(after, _) && next(
            after,
            EventView::Received(second),
        ) == next(t, EventView::Received(first + second)),
{
    assert((t.received + first) + second == t.received + (first + second));
}

} // verus!
