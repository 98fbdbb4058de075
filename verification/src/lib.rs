//! A development mail catcher's core: a verified SMTP session state machine
//! and a verified MIME decomposition pipeline.
//!
//! The session machine consumes one protocol line at a time and yields the
//! reply lines to write back, together with an action for the surrounding
//! connection loop.  The MIME pipeline turns a raw message byte buffer into
//! structured headers, text and HTML bodies, and attachment candidates.

pub mod auth;
pub mod bytes;
pub mod escape;
pub mod laws;
pub mod message;
pub mod mime;
pub mod params;
pub mod session;
pub mod store;
