//! Supervisor logic for a sidecar "engine" process.
//!
//! The engine announces its HTTP port and a shutdown token through its own
//! log output.  This crate holds the verified core of the supervisor that
//! watches for those announcements and coordinates an orderly shutdown:
//!
//! * [`extractor`] — pulls the port and the shutdown token out of one line
//!   of log text;
//! * [`registry`] — the shared runtime record: discovered parameters, the
//!   child-process handle until it is taken, and the one-shot close latch;
//! * [`coordinator`] — the close-request state machine: exactly one cleanup
//!   per run, graceful shutdown over HTTP when possible, force-kill
//!   otherwise.
//!
//! Process spawning, output draining and the HTTP transport are left to the
//! host shell; every decision they act on is computed and proved here.

pub mod coordinator;
pub mod extractor;
pub mod registry;
