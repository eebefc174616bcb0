//! A request-template manager: discovers saved request definitions and named
//! environments under a root directory, resolves `{{key}}` placeholders in a
//! request definition against a chosen environment's key/value data, and
//! produces a fully resolved request string or a well-defined error.

pub mod env;
pub mod json;
pub mod request;
pub mod reqq;
pub mod text;
