//! What the library promises, operation by operation, in terms of what goes in and what comes out.
pub mod addresses;
pub mod counts;
pub mod failures;
pub mod frames;
pub mod logs;
pub mod messages;
pub mod prompts;
pub mod requests;
pub mod responses;
pub mod schemas;
pub mod sequences;
pub mod settings;
pub mod streams;
pub mod texts;
pub mod upstreams;
pub mod views;
