//! Framing layer for HTTP/1.1 chunked transfer-coding.
//!
//! The crate has two independent parts: a streaming encoder that turns byte
//! buffers into length-prefixed chunks (`stream`), and a detector that decides
//! whether a `Transfer-Encoding` header value designates chunked coding
//! (`utils`).

use vstd::prelude::*;

pub mod headers;
pub mod stream;
pub mod utils;

verus! {

/// The `Transfer-Encoding` token that designates chunked coding.
pub const TRANSFER_ENCODING_CHUNKED_VALUE: &'static str = "chunked";

} // verus!
