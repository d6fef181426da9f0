//! Verified core of a set of memory-pressure tools: a deterministic
//! fill/verify pattern engine for detecting memory corruption, the worker
//! and coordinator logic around it, system statistics parsing, and the
//! dashboard renderer.

pub mod boost_conf;
pub mod coordinator;
pub mod filler;
pub mod kmalloc_conf;
pub mod mallocator;
pub mod pattern;
pub mod render;
pub mod sizing;
pub mod stats;
pub mod text;
pub mod worker;
