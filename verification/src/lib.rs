//! Core of an autonomous coding-agent loop.
//!
//! The library recovers structured tool calls from free-form model text,
//! gates requests against a sliding-window token budget, and computes
//! exact-match file patches.  Everything here is pure: the surrounding
//! application performs the clock reads, filesystem access and process
//! spawning that the core only decides about.


pub mod executor;
pub mod limiter;
pub mod llm;
pub mod parser;
pub mod patcher;
pub mod session;
pub mod text;
pub mod tools;
