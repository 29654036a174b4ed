//! Streaming AES-128-CFB8 contexts behind integer handles.
//!
//! `engine` holds the OpenSSL crypter and all that is taken on trust about it;
//! `stream` is the mathematical model of what a stream gives; `context` is one
//! cipher context and `table` the contexts that are live, each under its
//! handle; `boundary` holds the rules on the plain values that a host passes
//! in, and `error` the failures that it is told of.

pub mod boundary;
pub mod context;
pub mod engine;
pub mod error;
pub mod stream;
pub mod table;
