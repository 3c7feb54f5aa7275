//! Verified core of a man-in-the-middle proxy that watches the traffic of a
//! command-line coding assistant.

pub mod text;
pub mod json;
pub mod sse;
pub mod state;
pub mod mcp;
pub mod proxy;
pub mod tui;
pub mod subprocess;
pub mod tls;
