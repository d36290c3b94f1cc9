//! An HTTP file server behind TLS, and the secure-storage steps of a
//! trusted application, with their parsing and decisions verified.
pub mod text;
pub mod decimal;
pub mod http;
pub mod storage;
pub mod command;
pub mod tls;
pub mod http_laws;
