//! Which bytes of a response go where.

use crate::cli::Cli;
use crate::failure::Failure;
use crate::headers::{block_headers, header_block, parse_headers};
use crate::status::{status_code, status_of};
use vstd::prelude::*;
use vstd::slice::slice_subrange;

verus! {

/// The status above which a response counts as an error. A status of 400
/// itself does not.
pub const FAILURE_THRESHOLD: u16 = 400;

/// What is written for one response.
#[derive(Clone, Copy, Debug)]
pub struct Routing<'a> {
    /// The header block, where it is written to a file of its own. It is
    /// written first.
    pub header_dump: Option<&'a [u8]>,
    /// What goes to the output: the whole response, or its body.
    pub output: &'a [u8],
}

/// What is written for one response, as sequences of bytes.
pub struct RoutingView {
    /// The bytes for the header file, where one is written.
    pub header_dump: Option<Seq<u8>>,
    /// The bytes for the output.
    pub output: Seq<u8>,
}

impl<'a> View for Routing<'a> {
    type V = RoutingView;

    open spec fn view(&self) -> RoutingView {
        RoutingView {
            header_dump: match self.header_dump {
                Some(block) => Some(block@),
                None => None,
            },
            output: self.output@,
        }
    }
}

/// What is written for a response under the given options.
///
/// Where the headers need not be parsed, the response is written as it is.
/// Else it must begin with a header block. Where failing on the status is
/// asked for, the status must be a number and not above 400. Then the header
/// block is what goes to the header file, where one is named, and the output
/// is the whole response where the headers are to be kept, else the body.
pub open spec fn routed(cli: Cli, data: Seq<u8>) -> Result<RoutingView, Failure> {
    if !cli.needs_headers() {
        Ok(RoutingView { header_dump: None, output: data })
    } else {
        match header_block(data) {
            None => Err(Failure::MalformedHeaders),
            Some(block) => {
                let status = status_of(block_headers(data, block));
                if cli.response_status_fail_on_gte_400 && status is Err {
                    Err(Failure::InvalidStatusValue)
                } else if cli.response_status_fail_on_gte_400 && status->Ok_0 > FAILURE_THRESHOLD {
                    Err(Failure::UpstreamError(status->Ok_0))
                } else {
                    Ok(
                        RoutingView {
                            header_dump: if cli.response_headers_dump_file is Some {
                                Some(data.take(block.body_start))
                            } else {
                                None
                            },
                            output: if cli.response_headers_include {
                                data
                            } else {
                                data.skip(block.body_start)
                            },
                        },
                    )
                }
            },
        }
    }
}

/// Decides what is written for a response, or why nothing is.
pub fn route_response<'a>(cli: &Cli, data: &'a [u8]) -> (result: Result<Routing<'a>, Failure>)
    ensures
        match (result, routed(*cli, data@)) {
            (Ok(routing), Ok(expected)) => routing@ == expected,
            (Err(failure), Err(expected)) => failure == expected,
            _ => false,
        },
        result matches Ok(routing) ==> {
            &&& routing.output@.is_suffix_of(data@)
            &&& routing.header_dump matches Some(block) ==> block@.is_prefix_of(data@)
            &&& !cli.response_headers_include ==> (routing.header_dump matches Some(block)
                ==> block@ + routing.output@ == data@)
        },
{
    if !cli.need_parse_header() {
        return Ok(Routing { header_dump: None, output: data });
    }
    let (body, headers) = match parse_headers(data) {
        Ok(parsed) => parsed,
        Err(failure) => { return Err(failure); },
    };
    if cli.response_status_fail_on_gte_400 {
        let status: u16 = match status_code(&headers) {
            Ok(code) => code,
            Err(failure) => { return Err(failure); },
        };
        if status > FAILURE_THRESHOLD {
            return Err(Failure::UpstreamError(status));
        }
    }
    let header_len: usize = data.len() - body.len();
    let header_dump: Option<&'a [u8]> = if cli.response_headers_dump_file.is_some() {
        Some(slice_subrange(data, 0, header_len))
    } else {
        None
    };
    let output: &'a [u8] = if cli.response_headers_include {
        data
    } else {
        body
    };
    Ok(Routing { header_dump, output })
}

} // verus!
