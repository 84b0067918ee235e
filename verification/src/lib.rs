//! Parsing of HTTP/1.1 request lines.
//!
//! A raw byte buffer holding a request line such as
//! `GET /search?name=abc&sort=1 HTTP/1.1\r\n` is turned into a structured
//! [`Request`] whose string fields borrow from the buffer, or into a typed
//! [`ParseError`] naming the first failure met during the scan.

pub mod method;
pub mod request;
pub mod text;

pub use method::Method;
pub use method::MethodError;
pub use request::ParseError;
pub use request::Request;
pub use request::get_next_word;
pub use text::str_eq;
