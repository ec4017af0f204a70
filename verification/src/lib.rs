//! A small HTTP/1.1 request model: raw request text is parsed into method,
//! path, query parameters, headers and body, and a structured request can be
//! serialized back into raw text.
//!
//! `request::Request` is the aggregate; `method`, `header` and `query` hold
//! the leaf types; `parse`, `serialize` and `render` state what parsing,
//! building and the diagnostic rendering mean over the model in `model`;
//! `laws` proves the parse/build round trip; `text` holds the character and
//! string utilities everything is built on.
#![verifier::loop_isolation(false)]

pub mod header;
pub mod laws;
pub mod method;
pub mod model;
pub mod parse;
pub mod query;
pub mod render;
pub mod request;
pub mod serialize;
pub mod text;
