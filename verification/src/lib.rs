//! Translation between the Anthropic Messages API and OpenAI Chat Completions.
//!
//! An Anthropic request becomes an OpenAI one, an OpenAI response (whole or streamed) becomes an
//! Anthropic one, and the decisions of the proxy between the two (retries, context-overflow
//! recovery, compatibility fallbacks) are functions from plain values to plain values.
pub mod config;
pub mod endpoints;
pub mod entries;
pub mod error;
pub mod json;
pub mod laws;
pub mod models;
pub mod proxy;
pub mod text;
pub mod translate;
