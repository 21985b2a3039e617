//! The DevTools inspector endpoint: HTTP request heads and responses, and
//! WebSocket framing.
pub mod http;
pub mod frames;
pub mod endpoint;
