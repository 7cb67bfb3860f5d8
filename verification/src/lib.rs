//! Batch rewriting of the spindle-speed command in G-code files.
//!
//! The library holds the rules of the updater: how a file's text is split
//! into lines and rewritten, which directory entries are indexed, how a batch
//! advances from file to file, and the small shared primitives (progress
//! counter, cancellation signal, error slot) that a batch is observed through.
//! Reading and writing files, threads and the user interface are left to the
//! program that embeds the library.

pub mod batch;
pub mod cancel;
pub mod channel;
pub mod error;
pub mod inventory;
pub mod progress;
pub mod run;
pub mod speed;
pub mod text;
pub mod transform;
