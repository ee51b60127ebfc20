//! Runtime registry: the record shared between the task that drains the
//! engine's log output and the close-request handler.
//!
//! It holds the parameters discovered so far (last write wins), the child
//! process handle until exactly one actor takes it, and the one-shot latch
//! that lets the window close pass through exactly once.  The host shell
//! wraps a value of this type in its own lock; every mutation here is a
//! single short step, so no lock is ever held across a network call.

use vstd::prelude::*;

use crate::extractor::matches_at;
use crate::extractor::parse_port_from_line;
use crate::extractor::parse_shutdown_token_from_line;
use crate::extractor::port_marker;
use crate::extractor::spec_port_of_line;
use crate::extractor::spec_token_of_line;
use crate::extractor::lemma_line_without_marker_yields_no_port;

verus! {

/// Discovered engine parameters: the port and shutdown token most recently
/// seen in the log, each absent until first published.
pub struct EngineInfo {
    pub port: Option<u16>,
    pub shutdown_token: Option<String>,
}

impl EngineInfo {
    /// The token as a sequence of characters, when one has been discovered.
    pub open spec fn token_view(&self) -> Option<Seq<char>> {
        self.shutdown_token.deep_view()
    }
}

impl Default for EngineInfo {
    /// Both parameters start out undiscovered.
    fn default() -> (r: Self)
        ensures
            r.port is None,
            r.token_view() is None,
    {
        EngineInfo { port: None, shutdown_token: None }
    }
}

/// The port after absorbing one line: a newly published value overwrites
/// the old one, a line without a port leaves it untouched.
pub open spec fn spec_port_after_line(old_port: Option<u16>, line: Seq<char>) -> Option<u16> {
    match spec_port_of_line(line) {
        Some(p) => Some(p),
        None => old_port,
    }
}

/// The token after absorbing one line, with the same overwrite semantics.
pub open spec fn spec_token_after_line(old_token: Option<Seq<char>>, line: Seq<char>) -> Option<
    Seq<char>,
> {
    match spec_token_of_line(line) {
        Some(t) => Some(t),
        None => old_token,
    }
}

/// The registry itself, generic over the handle type `H` of the supervised
/// child process.
pub struct EngineState<H> {
    child: Option<H>,
    info: EngineInfo,
    close_allowed: bool,
}

impl<H> EngineState<H> {
    /// The child handle, until some actor has taken it.
    pub closed spec fn spec_child(&self) -> Option<H> {
        self.child
    }

    /// The discovered port.
    pub closed spec fn spec_port(&self) -> Option<u16> {
        self.info.port
    }

    /// The discovered shutdown token, as a sequence of characters.
    pub closed spec fn spec_token(&self) -> Option<Seq<char>> {
        self.info.token_view()
    }

    /// Whether the one-shot close latch has been set.
    pub closed spec fn spec_close_allowed(&self) -> bool {
        self.close_allowed
    }

    /// A fresh registry: no child, nothing discovered, latch unset.
    pub fn new() -> (r: Self)
        ensures
            r.spec_child() is None,
            r.spec_port() is None,
            r.spec_token() is None,
            !r.spec_close_allowed(),
    {
        EngineState { child: None, info: EngineInfo { port: None, shutdown_token: None }, close_allowed: false }
    }

    /// Hands the freshly spawned child to the registry.
    pub fn set_child(&mut self, child: H)
        ensures
            final(self).spec_child() == Some(child),
            final(self).spec_port() == old(self).spec_port(),
            final(self).spec_token() == old(self).spec_token(),
            final(self).spec_close_allowed() == old(self).spec_close_allowed(),
    {
        self.child = Some(child);
    }

    /// Destructive read of the child handle: the first call returns it,
    /// every later call observes absence.
    pub fn take_child(&mut self) -> (r: Option<H>)
        ensures
            take_child_transition(*old(self), *final(self), r),
    {
        self.child.take()
    }

    /// Merges newly discovered parameters in; an absent argument leaves the
    /// stored value untouched, a present one overwrites it.
    pub fn update_info(&mut self, port: Option<u16>, token: Option<String>)
        ensures
            final(self).spec_port() == (match port {
                Some(p) => Some(p),
                None => old(self).spec_port(),
            }),
            final(self).spec_token() == (match token {
                Some(t) => Some(t@),
                None => old(self).spec_token(),
            }),
            final(self).spec_child() == old(self).spec_child(),
            final(self).spec_close_allowed() == old(self).spec_close_allowed(),
    {
        match port {
            Some(p) => {
                self.info.port = Some(p);
            },
            None => {},
        }
        match token {
            Some(t) => {
                self.info.shutdown_token = Some(t);
            },
            None => {},
        }
    }

    /// Feeds one decoded log line through the extractor and merges what it
    /// published.  Both output channels of the child go through this same
    /// path.
    pub fn apply_line(&mut self, line: &str)
        ensures
            final(self).spec_port() == spec_port_after_line(old(self).spec_port(), line@),
            final(self).spec_token() == spec_token_after_line(old(self).spec_token(), line@),
            final(self).spec_child() == old(self).spec_child(),
            final(self).spec_close_allowed() == old(self).spec_close_allowed(),
    {
        let port = parse_port_from_line(line);
        let token = parse_shutdown_token_from_line(line);
        self.update_info(port, token);
    }

    /// A consistent point-in-time copy of the discovered parameters.
    pub fn read_info_snapshot(&self) -> (r: (Option<u16>, Option<String>))
        ensures
            r.0 == self.spec_port(),
            r.1.deep_view() == self.spec_token(),
    {
        let port = self.info.port;
        let token = match &self.info.shutdown_token {
            Some(t) => Some(t.clone()),
            None => None,
        };
        (port, token)
    }

    /// Sets the one-shot close latch and reports whether this very call was
    /// the one that flipped it.
    pub fn try_allow_close(&mut self) -> (r: bool)
        ensures
            final(self).spec_close_allowed(),
            r == !old(self).spec_close_allowed(),
            final(self).spec_child() == old(self).spec_child(),
            final(self).spec_port() == old(self).spec_port(),
            final(self).spec_token() == old(self).spec_token(),
    {
        let was = self.close_allowed;
        self.close_allowed = true;
        !was
    }
}

/// One call of [`EngineState::take_child`], as a relation between the
/// registry before and after the call and the value returned.
pub open spec fn take_child_transition<H>(
    pre: EngineState<H>,
    post: EngineState<H>,
    r: Option<H>,
) -> bool {
    &&& r == pre.spec_child()
    &&& post.spec_child() is None
    &&& post.spec_port() == pre.spec_port()
    &&& post.spec_token() == pre.spec_token()
    &&& post.spec_close_allowed() == pre.spec_close_allowed()
}

/// Law: the child handle is surrendered at most once.  Of two successive
/// takes, the first returns whatever the registry held and the second
/// observes absence.
pub proof fn lemma_take_child_at_most_once<H>(
    s0: EngineState<H>,
    s1: EngineState<H>,
    s2: EngineState<H>,
    r1: Option<H>,
    r2: Option<H>,
)
    requires
        take_child_transition(s0, s1, r1),
        take_child_transition(s1, s2, r2),
    ensures
        r1 == s0.spec_child(),
        r2 is None,
{
}

/// Law: absorbing the same line twice is idempotent — the port and token
/// after the second application are those after the first.
pub proof fn lemma_apply_line_idempotent(
    port: Option<u16>,
    token: Option<Seq<char>>,
    line: Seq<char>,
)
    ensures
        spec_port_after_line(spec_port_after_line(port, line), line) == spec_port_after_line(
            port,
            line,
        ),
        spec_token_after_line(spec_token_after_line(token, line), line) == spec_token_after_line(
            token,
            line,
        ),
{
}

/// Law: a line in which the port marker occurs nowhere leaves the
/// registry's port exactly as it was.
pub proof fn lemma_unmarked_line_keeps_port(port: Option<u16>, line: Seq<char>)
    requires
        forall|i: int| !matches_at(line, port_marker(), i),
    ensures
        spec_port_after_line(port, line) == port,
{
    lemma_line_without_marker_yields_no_port(line);
}

} // verus!
