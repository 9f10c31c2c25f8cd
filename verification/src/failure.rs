//! The conditions that end the handling of a response.

use vstd::prelude::*;

verus! {

/// Why a response was not routed to its destination.
#[derive(Clone, Copy, Debug, PartialEq, Eq, Structural)]
pub enum Failure {
    /// The response does not begin with a header block: a line does not
    /// follow the grammar, no header precedes the blank line, or the blank
    /// line is missing.
    MalformedHeaders,
    /// The `Status` header does not begin with a number from 0 to 65535.
    InvalidStatusValue,
    /// The server answered with this status, which is above 400.
    UpstreamError(u16),
    /// The name of the output file was to be taken from the URL, and the
    /// path of the URL has no segment that could name a file.
    EmptyRemoteName,
}

} // verus!
