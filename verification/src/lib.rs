//! Core logic of a command-line FastCGI client: splitting a CGI response into
//! its header block and body, reading the `Status` pseudo-header, deriving the
//! request parameters from a URL and a few overrides, and deciding which bytes
//! of a response go to which destination.

pub mod cli;
pub mod failure;
pub mod grammar;
pub mod header_laws;
pub mod header_map;
pub mod headers;
pub mod params;
pub mod response;
pub mod status;
pub mod text;
