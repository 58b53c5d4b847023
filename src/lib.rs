//! A small HTTP/1.1 engine: request decoding, route matching and response encoding.

pub mod decode;
pub mod path;
pub mod request;
pub mod response;
pub mod server;
pub mod text;

pub use decode::ParseError;
pub use path::get_parameters;
pub use request::{MatchedRequest, Request};
pub use response::Response;
pub use server::{Route, Server};
pub use text::{format_int, format_nat, has_substring, split_fields, str_eq_ignore_case, split_words, trim_whitespace};
