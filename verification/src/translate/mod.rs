//! Translation of requests and responses.
pub mod elements;
pub mod messages;
pub mod pipeline;
pub mod prompt;
pub mod response;
pub mod schema;
pub mod stream;
pub mod tokens;
pub mod tools;
