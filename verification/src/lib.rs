//! A high-level HTTP request library that leaves transport to the host platform.
//!
//! The library builds and seals requests, bridges the completion callback of the
//! platform's transport to the one consumer that awaits it, and sorts responses
//! by their status code. Starting the transport, waiting and touching the file
//! system are left to the caller.

pub mod client;
pub mod continuation;
pub mod error;
pub mod filename;
pub mod headers;
pub mod request;
pub mod response;

pub use client::with_client;
pub use client::ActiveClient;
pub use client::WithClientAsyncClosure;
pub use error::Error;
pub use error::NativeError;
pub use request::Request;
pub use response::Data;
pub use response::Downloaded;
pub use response::Response;
