//! A vector that persists its items to a backing file when it is closed.
//!
//! The vector holds its items in memory, together with the capacity it keeps
//! room for, the name of its backing file (picked when it first needs room),
//! what becomes of that file when the vector is closed (kept with the items,
//! deleted, or replaced by the serialized items), and whether a serialization
//! has been set up. Closing hands back the file's name, the items and the
//! close behavior; reading a file's items in, and writing, deleting or
//! serializing the file on close, is left to the caller.
pub mod capacity;
pub mod extraction;
pub mod iter;
pub mod laws;
pub mod path;
pub mod range;
pub mod seqs;
pub mod vec;

pub use vec::FileVec;
