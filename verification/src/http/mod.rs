//! The HTTP/1.1 message types: what a request holds, how its text is read,
//! and how a response is written out.

pub mod method;
pub mod query_string;
pub mod request;
pub mod response;
pub mod status_code;
pub mod wire;

pub use self::method::Method;
pub use self::method::MethodError;
pub use self::query_string::QueryString;
pub use self::query_string::Value;
pub use self::request::ParseError;
pub use self::request::Request;
pub use self::response::Response;
pub use self::status_code::StatusCode;
