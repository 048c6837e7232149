//! What the library promises, said of inputs and results.
//!
//! Texts are taken apart and put together here as sequences of characters, and numbers and
//! names stand as they are meant, so that a promise can be read without the definitions by
//! which it is kept.
pub mod caching;
pub mod crawling;
pub mod interests;
pub mod ordering;
pub mod queueing;
pub mod reading;
pub mod searching;
pub mod serving;
pub mod text;
pub mod tracking;
