//! The connection-test harness: building a validated client from a
//! target, classifying the outcome of the first-event-or-timeout race,
//! and the exact sequence of status messages a run emits.
//!
//! The asynchronous parts of a run — opening the stream, racing the
//! first event against the timer, and sending on the sink — are driven
//! by the embedding program; every decision and every message comes
//! from the functions here.

use vstd::prelude::*;
use vstd::string::*;

use crate::headers::{
    is_last_occurrence_at, last_occurrence, parse_header_map, parse_spec, pairs_view,
};
use crate::messages::{
    dec_str, dec_string, progress_received, terminal_success, text_constructed, text_received,
    text_success, TestStatusMessage,
};

verus! {

/// The race in a run waits this many seconds for a first event before
/// giving up, unless the caller configures another bound.
pub const DEFAULT_TIMEOUT_SECS: u64 = 30;

/// The immutable input of one test run.
pub struct TestTarget {
    /// URL of the stream.
    pub endpoint: String,
    /// Raw encoded header pairs, if any were configured.
    pub headers: Option<String>,
}

/// Why a run failed.
pub enum TestError {
    /// The endpoint does not parse as a URL.
    InvalidEndpoint,
    /// The header string does not follow the comma/colon grammar.
    InvalidHeaders,
    /// A parsed header pair was rejected by the transport.
    InvalidHeaderPair(String, String),
    /// The stream yielded an error, with its rendered detail.
    ServerError(String),
    /// The stream ended before any event arrived.
    ServerClosed,
    /// No event arrived within this many seconds.
    Timeout(u64),
}

/// What ended the race of first event against the timer.
pub enum StreamEvent {
    /// The stream yielded a message.
    Message,
    /// The stream yielded an error, with its rendered detail.
    StreamError(String),
    /// The stream ended with no value.
    Closed,
    /// The timer of this many seconds elapsed first.
    TimedOut(u64),
}

#[verifier::external_type_specification]
#[verifier::external_body]
pub struct ExClientBuilder(eventsource_client::ClientBuilder);

#[verifier::external_type_specification]
#[verifier::external_body]
pub struct ExEventsourceError(eventsource_client::Error);

/// How many header pairs one run may attach to its client.  The
/// transport's header map panics once it holds 32768 entries, two of
/// which the builder fills at construction; this bound keeps every
/// attach well inside that limit.
pub const MAX_ATTACHED_HEADERS: usize = 32000;

/// Whether `eventsource_client::ClientBuilder::for_url` accepts the
/// URL: its outcome is a function of the string alone.
pub uninterp spec fn url_accepted(url: Seq<char>) -> bool;

/// Whether `eventsource_client::ClientBuilder::header` accepts the
/// name/value pair: its outcome is a function of the two strings alone.
pub uninterp spec fn header_pair_accepted(name: Seq<char>, value: Seq<char>) -> bool;

/// A client builder together with a count of the header pairs attached
/// through it.  The count exists so that attaching can promise not to
/// overrun the transport's header map; only the two trusted functions
/// below produce values of this type, so the count is honest.
pub struct SseClientBuilder {
    inner: eventsource_client::ClientBuilder,
    attached: usize,
}

impl SseClientBuilder {
    /// How many header pairs were attached to this builder.
    pub closed spec fn attached_count(self) -> int {
        self.attached as int
    }

    /// The underlying builder, for opening the connection.
    pub fn into_inner(self) -> eventsource_client::ClientBuilder {
        self.inner
    }
}

/// Relies on `eventsource_client::ClientBuilder::for_url`: it returns
/// `Ok` exactly when the URL string parses as a URI, which depends on
/// the string alone; it touches no more than the two entries the
/// builder's fresh header map is born with.
#[verifier::external_body]
fn builder_for_url(url: &str) -> (r: Result<SseClientBuilder, eventsource_client::Error>)
    ensures
        r is Ok <==> url_accepted(url@),
        r matches Ok(b) ==> b.attached_count() == 0,
{
    match eventsource_client::ClientBuilder::for_url(url) {
        Ok(inner) => Ok(SseClientBuilder { inner, attached: 0 }),
        Err(e) => Err(e),
    }
}

/// Relies on `eventsource_client::ClientBuilder::header`: it returns
/// `Ok` exactly when the name and the value each parse as an HTTP
/// header part, which depends on the two strings alone.  Its insert
/// into the header map panics only when the map already holds its
/// maximum of 32768 entries; the bound on the attached count keeps the
/// call away from that state.
#[verifier::external_body]
fn builder_attach(b: SseClientBuilder, count_after: usize, name: &str, value: &str) -> (r:
    Result<SseClientBuilder, eventsource_client::Error>)
    requires
        b.attached_count() < MAX_ATTACHED_HEADERS,
        count_after == b.attached_count() + 1,
    ensures
        r is Ok <==> header_pair_accepted(name@, value@),
        r matches Ok(b2) ==> b2.attached_count() == count_after,
{
    match b.inner.header(name, value) {
        Ok(inner) => Ok(SseClientBuilder { inner, attached: count_after }),
        Err(e) => Err(e),
    }
}

/// The raw header string of a target: absent headers are read as the
/// empty encoding.
pub open spec fn raw_headers(t: TestTarget) -> Seq<char> {
    match t.headers {
        Some(h) => h@,
        None => Seq::empty(),
    }
}

/// The header string of the target follows the grammar.
pub open spec fn headers_ok(t: TestTarget) -> bool {
    parse_spec(raw_headers(t)) is Some
}

/// The parsed header pairs of the target.
pub open spec fn header_pairs(t: TestTarget) -> Seq<(Seq<char>, Seq<char>)> {
    parse_spec(raw_headers(t)).unwrap()
}

/// Every pair of the resolved mapping — the last occurrence of each
/// key — is acceptable to the transport.  Earlier occurrences of a
/// duplicated key are shadowed and never attached.
pub open spec fn all_pairs_accepted(t: TestTarget) -> bool {
    forall|i: int| #[trigger] last_occurrence(header_pairs(t), i) ==> header_pair_accepted(
        header_pairs(t)[i].0,
        header_pairs(t)[i].1,
    )
}

/// A target on which client construction succeeds.
pub open spec fn target_ok(t: TestTarget) -> bool {
    url_accepted(t.endpoint@) && headers_ok(t) && all_pairs_accepted(t)
}

/// Build a client for the target: validate the endpoint URL, parse the
/// header string, resolve duplicate keys to their last occurrence, and
/// attach each resolved pair.  Returns the first failure, classified;
/// succeeds exactly on the targets [`target_ok`] admits.  The bound on
/// the pair count is a machine limit: the transport's header map
/// cannot hold more.
pub fn prepare_client(target: &TestTarget) -> (r: Result<SseClientBuilder, TestError>)
    requires
        headers_ok(*target) ==> header_pairs(*target).len() <= MAX_ATTACHED_HEADERS,
    ensures
        r is Ok <==> target_ok(*target),
        r matches Err(e) ==> match e {
            TestError::InvalidEndpoint => !url_accepted(target.endpoint@),
            TestError::InvalidHeaders => url_accepted(target.endpoint@) && !headers_ok(*target),
            TestError::InvalidHeaderPair(k, v) => url_accepted(target.endpoint@) && headers_ok(
                *target,
            ) && !header_pair_accepted(k@, v@) && (exists|i: int|
                #[trigger] last_occurrence(header_pairs(*target), i) && header_pairs(*target)[i]
                    == (k@, v@)),
            _ => false,
        },
{
    let mut builder = match builder_for_url(target.endpoint.as_str()) {
        Ok(b) => b,
        Err(_) => {
            return Err(TestError::InvalidEndpoint);
        },
    };
    let raw: &str = match &target.headers {
        Some(h) => h.as_str(),
        None => "",
    };
    proof {
        reveal_strlit("");
        assert(""@ =~= Seq::<char>::empty());
        assert(raw@ == raw_headers(*target));
    }
    let pairs = match parse_header_map(raw) {
        Some(p) => p,
        None => {
            return Err(TestError::InvalidHeaders);
        },
    };
    let ghost pv = pairs_view(pairs@);
    proof {
        assert(pv == header_pairs(*target));
    }
    let mut i: usize = 0;
    let mut attached: usize = 0;
    while i < pairs.len()
        invariant
            i <= pairs.len(),
            pv == pairs_view(pairs@),
            pv == header_pairs(*target),
            pv.len() <= MAX_ATTACHED_HEADERS,
            url_accepted(target.endpoint@),
            headers_ok(*target),
            attached <= i,
            attached == builder.attached_count(),
            forall|j: int| 0 <= j < i && #[trigger] last_occurrence(pv, j)
                ==> header_pair_accepted(pv[j].0, pv[j].1),
        decreases pairs.len() - i,
    {
        if is_last_occurrence_at(&pairs, i) {
            let k = pairs[i].0.clone();
            let v = pairs[i].1.clone();
            proof {
                assert(pv[i as int] == (pairs@[i as int].0@, pairs@[i as int].1@));
            }
            builder = match builder_attach(builder, attached + 1, k.as_str(), v.as_str()) {
                Ok(b) => b,
                Err(_) => {
                    proof {
                        assert(header_pairs(*target)[i as int] == (k@, v@));
                        assert(last_occurrence(header_pairs(*target), i as int));
                        assert(!header_pair_accepted(
                            header_pairs(*target)[i as int].0,
                            header_pairs(*target)[i as int].1,
                        ));
                    }
                    return Err(TestError::InvalidHeaderPair(k, v));
                },
            };
            attached = attached + 1;
        }
        i = i + 1;
    }
    Ok(builder)
}

/// The classification of a race outcome: `None` is success, `Some` the
/// failure it maps to.
pub open spec fn classify_spec(ev: StreamEvent) -> Option<TestError> {
    match ev {
        StreamEvent::Message => None,
        StreamEvent::StreamError(d) => Some(TestError::ServerError(d)),
        StreamEvent::Closed => Some(TestError::ServerClosed),
        StreamEvent::TimedOut(secs) => Some(TestError::Timeout(secs)),
    }
}

/// The exact text of the terminal failure message for `e`.
pub open spec fn render_error(e: TestError) -> Seq<char> {
    match e {
        TestError::InvalidEndpoint => "Endpoint URL is invalid"@,
        TestError::InvalidHeaders => "Headers are invalid; should be comma-separated pairs"@,
        TestError::InvalidHeaderPair(k, v) => "Invalid header '"@ + k@ + ": "@ + v@ + "'"@,
        TestError::ServerError(d) => "Received error from server: "@ + d@,
        TestError::ServerClosed => "Server closed connection"@,
        TestError::Timeout(secs) => "Did not receive any messages after "@ + dec_str(secs as nat)
            + " seconds"@,
    }
}

/// Render a failure as its human-readable text.
pub fn render_error_message(e: &TestError) -> (r: String)
    ensures
        r@ == render_error(*e),
{
    match e {
        TestError::InvalidEndpoint => String::from_str("Endpoint URL is invalid"),
        TestError::InvalidHeaders => String::from_str(
            "Headers are invalid; should be comma-separated pairs",
        ),
        TestError::InvalidHeaderPair(k, v) => {
            let mut s = String::from_str("Invalid header '");
            s.append(k.as_str());
            s.append(": ");
            s.append(v.as_str());
            s.append("'");
            s
        },
        TestError::ServerError(d) => {
            let mut s = String::from_str("Received error from server: ");
            s.append(d.as_str());
            s
        },
        TestError::ServerClosed => String::from_str("Server closed connection"),
        TestError::Timeout(secs) => {
            let mut s = String::from_str("Did not receive any messages after ");
            let digits = dec_string(*secs);
            s.append(digits.as_str());
            s.append(" seconds");
            s
        },
    }
}

/// The terminal message of a failed run.
pub fn failure_message(e: &TestError) -> (m: TestStatusMessage)
    ensures
        is_terminal_failure(m, *e),
{
    TestStatusMessage { error: true, done: true, message: render_error_message(e) }
}

pub open spec fn is_progress_constructed(m: TestStatusMessage) -> bool {
    !m.error && !m.done && m.message@ == text_constructed()
}

pub open spec fn is_progress_received(m: TestStatusMessage) -> bool {
    !m.error && !m.done && m.message@ == text_received()
}

pub open spec fn is_terminal_success(m: TestStatusMessage) -> bool {
    !m.error && m.done && m.message@ == text_success()
}

pub open spec fn is_terminal_failure(m: TestStatusMessage, e: TestError) -> bool {
    m.error && m.done && m.message@ == render_error(e)
}

/// The messages a run emits after the race, given what ended it.
pub open spec fn is_event_trace(v: Seq<TestStatusMessage>, ev: StreamEvent) -> bool {
    match classify_spec(ev) {
        None => v.len() == 2 && is_progress_received(v[0]) && is_terminal_success(v[1]),
        Some(e) => v.len() == 1 && is_terminal_failure(v[0], e),
    }
}

/// The whole message sequence of a run: either client construction
/// fails with a single terminal message, or one progress message is
/// followed by the trace of the race.
pub open spec fn is_run_trace(
    v: Seq<TestStatusMessage>,
    prep: Option<TestError>,
    ev: StreamEvent,
) -> bool {
    match prep {
        Some(e) => v.len() == 1 && is_terminal_failure(v[0], e),
        None => v.len() >= 1 && is_progress_constructed(v[0]) && is_event_trace(
            v.drop_first(),
            ev,
        ),
    }
}

/// The messages that follow the race, in emission order.
pub fn event_messages(ev: &StreamEvent) -> (v: Vec<TestStatusMessage>)
    ensures
        is_event_trace(v@, *ev),
{
    match ev {
        StreamEvent::Message => {
            let mut v: Vec<TestStatusMessage> = Vec::new();
            v.push(progress_received());
            v.push(terminal_success());
            v
        },
        StreamEvent::StreamError(d) => {
            let mut v: Vec<TestStatusMessage> = Vec::new();
            v.push(failure_message(&TestError::ServerError(d.clone())));
            v
        },
        StreamEvent::Closed => {
            let mut v: Vec<TestStatusMessage> = Vec::new();
            v.push(failure_message(&TestError::ServerClosed));
            v
        },
        StreamEvent::TimedOut(secs) => {
            let mut v: Vec<TestStatusMessage> = Vec::new();
            v.push(failure_message(&TestError::Timeout(*secs)));
            v
        },
    }
}

/// Law: whatever the outcome of a run — success, a construction
/// failure, or any race outcome — its message sequence is zero or more
/// non-terminal, non-error progress messages followed by exactly one
/// terminal message.
pub proof fn lemma_run_always_terminal(
    v: Seq<TestStatusMessage>,
    prep: Option<TestError>,
    ev: StreamEvent,
)
    requires
        is_run_trace(v, prep, ev),
    ensures
        v.len() >= 1,
        v.last().done,
        forall|i: int| 0 <= i < v.len() - 1 ==> !v[i].done,
        forall|i: int| 0 <= i < v.len() - 1 ==> !v[i].error,
{
    match prep {
        Some(e) => {},
        None => {
            let rest = v.drop_first();
            match classify_spec(ev) {
                None => {
                    assert(v.len() == 3);
                    assert(v[1] == rest[0] && v[2] == rest[1]);
                },
                Some(e) => {
                    assert(v.len() == 2);
                    assert(v[1] == rest[0]);
                },
            }
        },
    }
}

} // verus!
