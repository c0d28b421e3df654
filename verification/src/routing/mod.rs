//! The proxy's routing decisions: which daemon and port a host reaches, how
//! its TLS is handled, and the text the proxy answers with.
pub mod certs;
pub mod flow;
pub mod handshake;
pub mod listen;
pub mod pac;
pub mod pages;
pub mod ports;
pub mod request;
pub mod resolve;
pub mod slugs;
pub mod table;
pub mod text;
