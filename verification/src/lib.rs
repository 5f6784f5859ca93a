//! Clean program termination with a caller-chosen exit status.
//!
//! A program that wants to stop with a specific exit status from deep inside
//! its call graph cannot simply ask the host runtime to terminate on the
//! spot: that would skip every scoped cleanup action registered between the
//! call site and the entry point.  This library instead carries the requested
//! status outward on the host's unwinding channel, so cleanup runs frame by
//! frame, and only the entry point's own catching boundary turns the signal
//! into an actual termination.
//!
//! The library has three verified parts:
//!
//! - [`tokens`]: a structural model of the host compiler's token streams,
//!   over which source rewriting is stated and proved;
//! - [`rewrite`]: the signature rewriter, which adapts an entry-point
//!   declaration so that its body runs under a dispatcher boundary, and
//!   rejects misuse with a located diagnostic;
//! - [`outcome`]: the dispatcher's decision logic, which classifies what a
//!   catching boundary observed into a normal result, a terminal exit code,
//!   or an unrelated fault that must keep propagating unchanged.
//!
//! The host-facing pieces that Verus cannot hold (the panic payload, the
//! `catch_unwind` boundary, the process-termination call, and the conversion
//! between real token streams and the model) live in a thin unverified
//! adapter crate around this one.

pub mod outcome;
pub mod rewrite;
pub mod tokens;
