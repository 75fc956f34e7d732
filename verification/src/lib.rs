//! Notebook interchange model and remote kernel-session client.
//!
//! The library is split in two parts. The document model (`json`, `digits`,
//! `notebook`) represents a versioned notebook document as typed entities
//! over a JSON value tree, decodes and encodes it losslessly, and
//! canonicalizes multi-line text. The session client (`remote`) builds the
//! REST requests and interprets the responses of a kernel-management API,
//! and derives the transport endpoint of a session; the surrounding
//! application performs the actual I/O.

use vstd::prelude::*;

pub mod digits;
pub mod json;
pub mod notebook;
pub mod remote;
pub mod text;

verus! {

/// The failure taxonomy of the library.
#[derive(Debug)]
pub enum Error {
    /// Malformed or tag-unrecognized document content; holds the offending
    /// field or tag.
    Format(String),
    /// Unparseable server URL or malformed authorization material.
    Config(String),
    /// Non-success HTTP status from the server, with the status and body.
    Remote(u16, String),
    /// Failure to establish the transport channel.
    Connect(String),
}

} // verus!
