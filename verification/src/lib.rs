//! A private, demand-driven web index.
pub mod cache;
pub mod clock;
pub mod crawler;
pub mod interest;
pub mod laws;
pub mod metadata;
pub mod order;
pub mod page;
pub mod query;
pub mod queue;
pub mod ranges;
pub mod robots;
pub mod search;
pub mod service;
pub mod store;
pub mod text;
pub mod tracker_strip;
pub mod web;
