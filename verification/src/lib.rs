//! A bridge library around an Ethereum-style execution engine.
//!
//! The crate exposes a stateful instance type through a flat, boundary-safe
//! surface: callers create an instance, stage a transaction through a
//! text codec, dispatch it speculatively or with commitment, and receive a
//! flattened execution outcome whose buffers they own.

pub mod codec;
pub mod outcome;
pub mod engine;
pub mod instance;
