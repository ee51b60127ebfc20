//! Shutdown coordinator: the state machine behind a window-close request.
//!
//! The first close request sets the one-shot latch, snapshots the registry
//! and runs cleanup: one graceful-shutdown request over HTTP when both port
//! and token are known, a forceful kill whenever that request is not made
//! or does not come back with a success status.  The cleanup then re-issues
//! the close, which passes straight through because the latch is already
//! set.  The host shell performs the request and the kill; which of them
//! happens is decided — and proved — here.

use vstd::prelude::*;
use vstd::string::StrSliceExecFns;
use vstd::string::StringExecFns;

use crate::extractor::digit_val;
use crate::extractor::digits_value;
use crate::extractor::find_pattern;
use crate::extractor::is_ascii_digit_char;
use crate::extractor::lemma_digit_run_len_exact;
use crate::extractor::lemma_spec_find_first;
use crate::extractor::lemma_spec_find_some;
use crate::extractor::matches_at;
use crate::extractor::port_marker;
use crate::extractor::spec_find;
use crate::extractor::spec_port_of_line;
use crate::extractor::spec_u16_run_at;
use crate::extractor::u16_run_at;
use crate::registry::EngineState;

verus! {

/// What the close-request handler is to do, decided by [`begin_close`].
pub enum CloseDirective<H> {
    /// The latch was already set: this is the re-issued close at the end of
    /// cleanup (or a concurrent duplicate).  Let the window close.
    ProceedWithClose,
    /// First close request: suppress the default close and run cleanup with
    /// this snapshot of the registry.
    RunCleanup { child: Option<H>, port: Option<u16>, token: Option<String> },
}

/// One call of [`begin_close`], as a relation between the registry before
/// and after the call and the directive returned.
pub open spec fn close_transition<H>(
    pre: EngineState<H>,
    post: EngineState<H>,
    d: CloseDirective<H>,
) -> bool {
    &&& post.spec_close_allowed()
    &&& post.spec_port() == pre.spec_port()
    &&& post.spec_token() == pre.spec_token()
    &&& if pre.spec_close_allowed() {
        &&& d is ProceedWithClose
        &&& post.spec_child() == pre.spec_child()
    } else {
        match d {
            CloseDirective::ProceedWithClose => false,
            CloseDirective::RunCleanup { child, port, token } => {
                &&& child == pre.spec_child()
                &&& port == pre.spec_port()
                &&& token.deep_view() == pre.spec_token()
                &&& post.spec_child() is None
            },
        }
    }
}

/// Entry point of the close-request handler.
///
/// Atomically sets the latch; when this call is the one that flipped it,
/// takes the child and snapshots the discovered parameters for cleanup.
/// When the latch was already set, the registry keeps its state and the
/// close is waved through.
pub fn begin_close<H>(state: &mut EngineState<H>) -> (d: CloseDirective<H>)
    ensures
        close_transition(*old(state), *final(state), d),
{
    let first = state.try_allow_close();
    if !first {
        CloseDirective::ProceedWithClose
    } else {
        let child = state.take_child();
        let (port, token) = state.read_info_snapshot();
        CloseDirective::RunCleanup { child, port, token }
    }
}

/// Law: two successive close requests run cleanup exactly once.  Starting
/// with the latch unset, the first request yields the cleanup directive and
/// the second passes through with the registry untouched — the re-issued
/// close cannot loop.
pub proof fn lemma_cleanup_runs_exactly_once<H>(
    s0: EngineState<H>,
    s1: EngineState<H>,
    s2: EngineState<H>,
    d1: CloseDirective<H>,
    d2: CloseDirective<H>,
)
    requires
        !s0.spec_close_allowed(),
        close_transition(s0, s1, d1),
        close_transition(s1, s2, d2),
    ensures
        d1 is RunCleanup,
        d2 is ProceedWithClose,
        s2.spec_child() == s1.spec_child(),
        s2.spec_port() == s1.spec_port(),
        s2.spec_token() == s1.spec_token(),
{
}

/// What came back from one attempted shutdown request: an HTTP status, or
/// a transport-level failure (connection error or timeout).  `None` at the
/// use sites below stands for a request that was never attempted.
pub enum RpcOutcome {
    Response { status: u16 },
    TransportFailure,
}

/// The graceful-shutdown attempt succeeded: a request was made and came
/// back with a success status, `200 <= status < 300`.
pub open spec fn spec_is_graceful(outcome: Option<RpcOutcome>) -> bool {
    match outcome {
        Some(RpcOutcome::Response { status }) => 200 <= status < 300,
        _ => false,
    }
}

/// An HTTP status in `[200, 300)` counts as success.
pub fn is_success_status(status: u16) -> (r: bool)
    ensures
        r == (200 <= status < 300),
{
    200 <= status && status < 300
}

/// The pair to address the shutdown request with — present exactly when
/// both the port and the token have been discovered.
pub fn plan_rpc(port: Option<u16>, token: Option<String>) -> (r: Option<(u16, String)>)
    ensures
        match r {
            Some(pt) => port == Some(pt.0) && token == Some(pt.1),
            None => port is None || token is None,
        },
{
    match (port, token) {
        (Some(p), Some(t)) => Some((p, t)),
        _ => None,
    }
}

/// Whether the child must be forcefully terminated: always, except after a
/// graceful shutdown confirmed by a success status.
pub fn must_force_kill(outcome: &Option<RpcOutcome>) -> (r: bool)
    ensures
        r == !spec_is_graceful(*outcome),
{
    match outcome {
        Some(RpcOutcome::Response { status }) => !(200 <= *status && *status < 300),
        Some(RpcOutcome::TransportFailure) => true,
        None => true,
    }
}

/// Law: when port and token are known and the shutdown endpoint answers
/// with a success status, the attempt is graceful and the child is spared
/// the forceful kill.
pub proof fn lemma_successful_rpc_spares_child(
    port: Option<u16>,
    token: Option<Seq<char>>,
    status: u16,
)
    requires
        port is Some,
        token is Some,
        200 <= status < 300,
    ensures
        spec_is_graceful(Some(RpcOutcome::Response { status })),
{
}

/// Law: with no discovered port or no discovered token, no shutdown
/// request is attempted, and the child must be forcefully terminated.
pub proof fn lemma_missing_info_forces_kill(port: Option<u16>, token: Option<Seq<char>>)
    requires
        port is None || token is None,
    ensures
        !spec_is_graceful(None),
{
}

/// Law: a response outside `[200, 300)`, or a transport failure (a request
/// that errors out or times out), forces the kill.
pub proof fn lemma_failed_rpc_forces_kill(outcome: RpcOutcome)
    requires
        match outcome {
            RpcOutcome::Response { status } => !(200 <= status < 300),
            RpcOutcome::TransportFailure => true,
        },
    ensures
        !spec_is_graceful(Some(outcome)),
{
}

/// The ASCII digit with value `d`.
pub open spec fn digit_char(d: int) -> char {
    if d == 0 {
        '0'
    } else if d == 1 {
        '1'
    } else if d == 2 {
        '2'
    } else if d == 3 {
        '3'
    } else if d == 4 {
        '4'
    } else if d == 5 {
        '5'
    } else if d == 6 {
        '6'
    } else if d == 7 {
        '7'
    } else if d == 8 {
        '8'
    } else {
        '9'
    }
}

/// The decimal rendering of `n`, most significant digit first, without
/// leading zeros.
pub open spec fn spec_u16_dec(n: int) -> Seq<char>
    decreases n when n >= 0
{
    if n <= 9 {
        seq![digit_char(n)]
    } else {
        spec_u16_dec(n / 10).push(digit_char(n % 10))
    }
}

/// The digit characters carry their digit values.
proof fn lemma_digit_char_val(d: int)
    requires
        0 <= d <= 9,
    ensures
        is_ascii_digit_char(digit_char(d)),
        digit_val(digit_char(d)) == d,
{
    assert('0' as u32 == 48 && '1' as u32 == 49 && '2' as u32 == 50 && '3' as u32 == 51 && '4'
        as u32 == 52 && '5' as u32 == 53 && '6' as u32 == 54 && '7' as u32 == 55 && '8' as u32
        == 56 && '9' as u32 == 57);
}

/// Every character of a decimal rendering is an ASCII digit.
proof fn lemma_u16_dec_digits(n: int)
    requires
        n >= 0,
    ensures
        forall|k: int| 0 <= k < spec_u16_dec(n).len() ==> is_ascii_digit_char(spec_u16_dec(n)[k]),
    decreases n,
{
    if n <= 9 {
        lemma_digit_char_val(n);
        assert(spec_u16_dec(n)[0] == digit_char(n));
    } else {
        lemma_u16_dec_digits(n / 10);
        lemma_digit_char_val(n % 10);
        let s = spec_u16_dec(n / 10);
        assert forall|k: int| 0 <= k < spec_u16_dec(n).len() implies is_ascii_digit_char(
            spec_u16_dec(n)[k],
        ) by {
            if k < s.len() {
                assert(spec_u16_dec(n)[k] == s[k]);
            } else {
                assert(spec_u16_dec(n)[k] == digit_char(n % 10));
            }
        }
    }
}

/// Reading a decimal rendering back as a number returns the value it was
/// rendered from.
proof fn lemma_u16_dec_value(n: int)
    requires
        n >= 0,
    ensures
        digits_value(spec_u16_dec(n)) == n,
    decreases n,
{
    if n <= 9 {
        lemma_digit_char_val(n);
        let s = spec_u16_dec(n);
        assert(s.drop_last() =~= Seq::<char>::empty());
        assert(s.last() == digit_char(n));
        assert(digits_value(s) == 10 * digits_value(s.drop_last()) + digit_val(s.last()));
    } else {
        lemma_u16_dec_value(n / 10);
        lemma_digit_char_val(n % 10);
        let s = spec_u16_dec(n);
        assert(s.drop_last() =~= spec_u16_dec(n / 10));
        assert(s.last() == digit_char(n % 10));
        assert(digits_value(s) == 10 * digits_value(s.drop_last()) + digit_val(s.last()));
    }
}

/// One ASCII digit as a string slice.
fn digit_str(d: u16) -> (r: &'static str)
    requires
        d <= 9,
    ensures
        r@ =~= seq![digit_char(d as int)],
{
    proof {
        reveal_strlit("0");
        reveal_strlit("1");
        reveal_strlit("2");
        reveal_strlit("3");
        reveal_strlit("4");
        reveal_strlit("5");
        reveal_strlit("6");
        reveal_strlit("7");
        reveal_strlit("8");
        reveal_strlit("9");
    }
    match d {
        0 => "0",
        1 => "1",
        2 => "2",
        3 => "3",
        4 => "4",
        5 => "5",
        6 => "6",
        7 => "7",
        8 => "8",
        _ => "9",
    }
}

/// Appends the decimal rendering of `n` to `out`.
fn push_u16_dec(n: u16, out: &mut String)
    ensures
        final(out)@ == old(out)@ + spec_u16_dec(n as int),
    decreases n,
{
    if n <= 9 {
        out.append(digit_str(n));
    } else {
        push_u16_dec(n / 10, out);
        out.append(digit_str(n % 10));
        proof {
            assert(out@ =~= old(out)@ + spec_u16_dec(n as int));
        }
    }
}

/// The address of the engine's shutdown endpoint for a discovered port:
/// `http://127.0.0.1:<port>/shutdown`.
pub open spec fn spec_shutdown_url(port: int) -> Seq<char> {
    port_marker() + spec_u16_dec(port) + "/shutdown"@
}

/// Renders the URL the graceful-shutdown request is posted to.
pub fn shutdown_url(port: u16) -> (r: String)
    ensures
        r@ == spec_shutdown_url(port as int),
{
    let mut url = String::new();
    url.append("http://127.0.0.1:");
    push_u16_dec(port, &mut url);
    url.append("/shutdown");
    proof {
        assert(url@ =~= spec_shutdown_url(port as int));
    }
    url
}

/// Law: the rendered shutdown URL publishes, through the extractor itself,
/// exactly the port it was built from — had the engine logged this URL,
/// the supervisor would have discovered that very port.
pub proof fn lemma_shutdown_url_publishes_port(port: u16)
    ensures
        spec_port_of_line(spec_shutdown_url(port as int)) == Some(port),
{
    let url = spec_shutdown_url(port as int);
    let m = port_marker();
    let dec = spec_u16_dec(port as int);
    let start = m.len() as int;
    let end = start + dec.len();
    reveal_strlit("/shutdown");
    assert(url.subrange(0, start) =~= m);
    assert(matches_at(url, m, 0));
    lemma_spec_find_first(url, m, 0, 0);
    lemma_u16_dec_digits(port as int);
    assert(url.subrange(start, end) =~= dec);
    assert forall|k: int| start <= k < end implies is_ascii_digit_char(url[k]) by {
        assert(url[k] == dec[k - start]);
    }
    assert(url[end] == '/');
    assert('/' as u32 == 47);
    lemma_digit_run_len_exact(url, start, end);
    lemma_u16_dec_value(port as int);
}

/// The status code of an HTTP status line such as `HTTP/1.1 200 OK`: the
/// digit run after the first space, when present and within `u16::MAX`.
pub open spec fn spec_status_of_line(line: Seq<char>) -> Option<u16> {
    match spec_find(line, " "@, 0) {
        None => None,
        Some(i) => spec_u16_run_at(line, i + 1),
    }
}

/// Pulls the status code out of the first line of an HTTP response, for
/// the host shell that reads the shutdown endpoint's answer off the wire.
pub fn parse_http_status_line(line: &str) -> (r: Option<u16>)
    ensures
        r == spec_status_of_line(line@),
{
    let sp: &str = " ";
    proof {
        reveal_strlit(" ");
    }
    match find_pattern(line, sp) {
        None => None,
        Some(i) => {
            proof {
                lemma_spec_find_some(line@, sp@, 0, i as int);
            }
            let line_len = line.unicode_len();
            u16_run_at(line, i + 1, line_len)
        },
    }
}

} // verus!
