//! A small synchronous HTTP/1.x client core: request framing, response
//! head parsing, chunked transfer coding, redirect decisions and the
//! dual-stack connect order, each with a proved contract.

use vstd::prelude::*;

pub mod body_writer;
pub mod bytes;
pub mod chunked;
pub mod deadline;
pub mod error;
pub mod happy_eyeballs;
pub mod headers;
pub mod hex;
pub mod layers;
pub mod names;
pub mod parse;
pub mod request;
pub mod response;
pub mod sink;
pub mod source;
pub mod tokens;
pub mod uri;

pub use body_writer::{BodyKind, BodyWriter, ChunkedBody, CompressedBody, EmptyBody, MemBody};
pub use chunked::{ChunkedReader, ChunkedWriter};
pub use error::{Error, IoKind};
pub use headers::HeaderMap;
pub use parse::parse;
pub use request::{Request, Version};
pub use response::{BodyReader, Response};
pub use sink::Sink;
pub use source::BufSource;
pub use uri::Uri;

verus! {

} // verus!
