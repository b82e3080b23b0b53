//! Status messages of a connection-test run, and the exact text each
//! one carries.

use vstd::prelude::*;
use vstd::string::*;

verus! {

/// One unit of observability emitted by a run.  `done` marks the
/// terminal message; `error` marks a failure outcome.
#[derive(Debug, Clone)]
pub struct TestStatusMessage {
    pub error: bool,
    pub done: bool,
    pub message: String,
}

/// The decimal digit character of `d`, for `0 <= d <= 9`.
pub open spec fn digit_seq(d: nat) -> Seq<char> {
    if d == 0 {
        "0"@
    } else if d == 1 {
        "1"@
    } else if d == 2 {
        "2"@
    } else if d == 3 {
        "3"@
    } else if d == 4 {
        "4"@
    } else if d == 5 {
        "5"@
    } else if d == 6 {
        "6"@
    } else if d == 7 {
        "7"@
    } else if d == 8 {
        "8"@
    } else {
        "9"@
    }
}

/// The decimal rendering of `n`, most significant digit first.
pub open spec fn dec_str(n: nat) -> Seq<char>
    decreases n,
{
    if n < 10 {
        digit_seq(n)
    } else {
        dec_str(n / 10) + digit_seq(n % 10)
    }
}

fn digit_str(d: u64) -> (r: &'static str)
    requires
        d < 10,
    ensures
        r@ == digit_seq(d as nat),
{
    if d == 0 {
        "0"
    } else if d == 1 {
        "1"
    } else if d == 2 {
        "2"
    } else if d == 3 {
        "3"
    } else if d == 4 {
        "4"
    } else if d == 5 {
        "5"
    } else if d == 6 {
        "6"
    } else if d == 7 {
        "7"
    } else if d == 8 {
        "8"
    } else {
        "9"
    }
}

/// Render `n` in decimal.
pub fn dec_string(n: u64) -> (r: String)
    ensures
        r@ == dec_str(n as nat),
    decreases n,
{
    if n < 10 {
        String::from_str(digit_str(n))
    } else {
        let mut s = dec_string(n / 10);
        s.append(digit_str(n % 10));
        s
    }
}

pub open spec fn text_constructed() -> Seq<char> {
    "Constructed SSE client"@
}

pub open spec fn text_received() -> Seq<char> {
    "Received message from SSE server"@
}

pub open spec fn text_success() -> Seq<char> {
    "Successfully validated SSE connection"@
}

/// The progress message sent once the client is built and the headers
/// are attached.
pub fn progress_constructed() -> (m: TestStatusMessage)
    ensures
        !m.error && !m.done && m.message@ == text_constructed(),
{
    TestStatusMessage {
        error: false,
        done: false,
        message: String::from_str("Constructed SSE client"),
    }
}

/// The progress message sent when the stream yields its first event.
pub fn progress_received() -> (m: TestStatusMessage)
    ensures
        !m.error && !m.done && m.message@ == text_received(),
{
    TestStatusMessage {
        error: false,
        done: false,
        message: String::from_str("Received message from SSE server"),
    }
}

/// The terminal message of a successful run.
pub fn terminal_success() -> (m: TestStatusMessage)
    ensures
        !m.error && m.done && m.message@ == text_success(),
{
    TestStatusMessage {
        error: false,
        done: true,
        message: String::from_str("Successfully validated SSE connection"),
    }
}

} // verus!
