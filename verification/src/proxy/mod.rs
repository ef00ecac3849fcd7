//! What the proxy decides between its client and the upstream.
pub mod compat;
pub mod line_ends;
pub mod relay;
pub mod requests;
pub mod retry;
pub mod routing;
pub mod sse;
pub mod upstream;
