//! Rename and copy detection between two tree snapshots, with the object
//! identifiers and reference helpers it works on.
pub mod hash;
pub mod log;
pub mod reference;
pub mod rev_spec;
pub mod rewrites;
pub mod tracker;

pub use hash::ObjectId;
pub use rewrites::{
    Action, Change, ChangeKind, Copies, CopySource, DiffLineStats, EntryKind, Error, Outcome, Rewrites, Similarity,
    SourceKind,
};
pub use tracker::{Calls, Delegate, Destination, Source, Tracker};
