//! Error taxonomy of the capture engine.
//!
//! Entry-playlist failures abort the whole capture; a poller failure is fatal
//! to its stream (and, under fail-fast, to the capture); segment fetch and
//! write failures are absorbed, leaving a gap in that stream.

use vstd::prelude::*;

verus! {

/// Failure resolving the entry playlist: fatal, before any poller starts.
#[derive(Clone, Debug)]
pub enum PlaylistError {
    /// The entry playlist could not be fetched.
    Fetch,
    /// The body parsed as neither playlist kind.
    Parse,
    /// A variant index declared no variants to choose from.
    NoVariants,
    /// A URI could not be resolved against the entry URL.
    InvalidUri { uri: String },
}

/// Failure of one stream's poller: its playlist became unfetchable,
/// unparseable, or declared a malformed URI.
#[derive(Clone, Debug)]
pub enum PollError {
    /// The media playlist could not be fetched.
    Fetch,
    /// The body did not parse as a media playlist.
    Parse,
    /// A segment or initialization URI could not be resolved.
    InvalidUri { uri: String },
}

/// Failure fetching or decrypting one segment: non-fatal, the segment is
/// dropped.
#[derive(Clone, Debug)]
pub enum FetchError {
    /// Retries were exhausted or the response status was not a success.
    Http,
    /// The body could not be decrypted.
    Decrypt,
}

/// Failure persisting one segment: non-fatal, the segment is dropped.
#[derive(Clone, Debug)]
pub enum WriteError {
    /// The filesystem refused the write.
    Io,
}

} // verus!
