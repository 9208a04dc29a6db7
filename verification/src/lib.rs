//! A snapshot catalog and differencing engine for backups.
//!
//! A catalog records point-in-time inventories of a file tree and classifies
//! what was created, deleted or changed between any two of them, matching
//! entries by their content identifier rather than by their path.
//!
//! The catalog works on plain values: it takes what its files hold when it is
//! opened, and hands it back for writing. Beside it stand the parts that a
//! backup shares with it: paths as bytes, names cropped to a length, bytes
//! shown as text, the bookkeeping of a reader with overflow, and the keys of
//! numbered records.

mod clock;
pub mod error;
pub mod name;
pub mod ident;
pub mod path;
pub mod text;
pub mod store;
pub mod image;
pub mod catalog;
pub mod snapshot;
pub mod fill;
pub mod classify;
pub mod diff;
pub mod laws;
pub mod crop;
pub mod escape;
pub mod smart_read;
pub mod keyed;
