//! Construction of JSON-RPC 2.0 requests from command-line tokens: the `id`
//! expression mini-language, the params builder with its priority-ordered
//! token shapes, and the request envelope with its exact serialized text.
pub mod error;
pub mod expr;
pub mod jsonio;
pub mod num;
pub mod params;
pub mod request;
pub mod text;
pub mod value;
