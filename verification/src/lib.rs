//! A client for HTTP sessions: it keeps the cookies that servers issue,
//! sends them with every request, and follows redirects hop by hop so that
//! the cookies of each hop are taken in before the next request leaves.

pub mod address;
pub mod boundary;
pub mod encoding;
pub mod exchange;
pub mod header;
pub mod http;
pub mod jar;

pub use crate::encoding::encode_uri_component;
pub use crate::exchange::{Error, Exchange, Method, Request, ResponseDigest, Step};
pub use crate::header::HeaderField;
pub use crate::http::{Client, Transport};
pub use crate::jar::Cookie;
