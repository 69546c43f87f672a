//! Decision logic of a two-way directory mirror: which tree is authoritative,
//! what to copy, what to remove, and when each loop stops.
//!
//! The library never touches the file system. It is told what was found
//! there, as plain values, and says what is to be done.

pub mod action;
pub mod assoc;
pub mod copy;
pub mod error;
pub mod fingerprint;
pub mod hasher;
pub mod initializer;
pub mod mirroring;
pub mod path;
pub mod reconciler;
pub mod shutdown;
pub mod supervisor;
pub mod truth;
pub mod watcher;
