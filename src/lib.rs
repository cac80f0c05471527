//! Search files for the first occurrence of an exact byte pattern, reading
//! each file through a fixed-size buffer that carries the tail of one chunk
//! over to the next so that matches across chunk boundaries are still seen.
pub mod collect;
pub mod pattern;
pub mod scanner;
pub mod walk;
