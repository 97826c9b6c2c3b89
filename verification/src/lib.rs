//! A minimal HTTP/1.1 server core: request framing and parsing, an ordered
//! multi-value header/query map, a buffered response writer with a guaranteed
//! single finalization, first-match handler routing, and the small utilities
//! around them.

pub mod bin;
pub mod error;
pub mod filehandler;
pub mod fs;
pub mod handler;
pub mod headers;
pub mod img;
pub mod logger;
pub mod request;
pub mod response;
pub mod server;
pub mod text;
pub mod util;
pub mod valuesmap;

pub use util::lookup_status_str;
