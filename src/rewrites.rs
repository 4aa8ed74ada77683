use vstd::prelude::*;

use crate::hash::ObjectId;

verus! {

/// What happened to one path between two tree snapshots.
#[derive(Clone, Copy, Debug, PartialEq, Eq, Structural)]
pub enum ChangeKind {
    Deletion,
    Modification,
    Addition,
}

/// The kind of a tree entry.
#[derive(Clone, Copy, Debug, PartialEq, Eq, Structural)]
pub enum EntryKind {
    Tree,
    Blob,
    BlobExecutable,
    Link,
    Commit,
}

/// One path's change: its kind, the content it now has (or had, for a
/// deletion) and the mode of its entry.
#[derive(Clone, Copy, Debug, PartialEq, Eq, Structural)]
pub struct Change {
    pub kind: ChangeKind,
    pub id: ObjectId,
    pub entry_mode: EntryKind,
}

impl Change {
    pub fn new(kind: ChangeKind, id: ObjectId, entry_mode: EntryKind) -> (r: Change)
        ensures
            r.kind == kind,
            r.id == id,
            r.entry_mode == entry_mode,
    {
        Change { kind, id, entry_mode }
    }
}

/// Where copy sources are looked for.
#[derive(Clone, Copy, Debug, PartialEq, Eq, Structural)]
pub enum CopySource {
    /// Only among the modified files of the change set.
    FromSetOfModifiedFiles,
    /// Among the modified files first, then among all sources that the caller
    /// supplies on demand.
    FromSetOfModifiedFilesAndAllSources,
}

/// Copy detection settings.
#[derive(Clone, Copy, Debug, PartialEq, Eq, Structural)]
pub struct Copies {
    pub source: CopySource,
    /// The least similarity, in percent, for a copy found by content
    /// similarity; `None` finds copies by identical content only.
    pub percentage: Option<u32>,
}

/// Rename and copy detection settings.
#[derive(Clone, Copy, Debug, PartialEq, Eq, Structural)]
pub struct Rewrites {
    /// `None` turns copy detection off.
    pub copies: Option<Copies>,
    /// The least similarity, in percent, for a rename found by content
    /// similarity; `None` finds renames by identical content only.
    pub percentage: Option<u32>,
    /// The most similarity checks one matching pass may need before it is
    /// skipped as a whole; 0 means no bound.
    pub limit: usize,
}

impl Default for Rewrites {
    fn default() -> (r: Rewrites)
        ensures
            r.copies.is_none(),
            r.percentage == Some(50u32),
            r.limit == 1000,
    {
        Rewrites { copies: None, percentage: Some(50), limit: 1000 }
    }
}

/// A similarity ratio `matching / total`; a `total` of zero stands for two
/// empty buffers, which are equal.
#[derive(Clone, Copy, Debug, PartialEq, Eq, Structural)]
pub struct Similarity {
    pub matching: u64,
    pub total: u64,
}

/// Line statistics of the difference between two blobs, as the similarity
/// scorer reports them.
#[derive(Clone, Copy, Debug, PartialEq, Eq, Structural)]
pub struct DiffLineStats {
    /// Lines removed from the previous content.
    pub removals: u32,
    /// Lines inserted into the new content.
    pub insertions: u32,
    /// Lines of the previous content.
    pub before: u32,
    /// Lines of the new content.
    pub after: u32,
    pub similarity: Similarity,
}

/// Whether a ratio reaches a threshold given in percent.
pub open spec fn meets_percentage(s: Similarity, percentage: u32) -> bool {
    (s.matching as int) * 100 >= (percentage as int) * (s.total as int)
}

impl Similarity {
    /// Whether this ratio is at least `percentage` percent.
    pub fn meets(&self, percentage: u32) -> (r: bool)
        ensures
            r == meets_percentage(*self, percentage),
    {
        let p = percentage as u128;
        let t = self.total as u128;
        assert(p * t <= 0xffff_ffffu128 * 0xffff_ffff_ffff_ffffu128) by (nonlinear_arith)
            requires
                p <= 0xffff_ffffu128,
                t <= 0xffff_ffff_ffff_ffffu128,
        ;
        (self.matching as u128) * 100 >= p * t
    }
}

/// How a destination relates to its source.
#[derive(Clone, Copy, Debug, PartialEq, Eq, Structural)]
pub enum SourceKind {
    /// The source was deleted: it serves one destination at most.
    Rename,
    /// The source still exists: it may serve any number of destinations.
    Copy,
}

/// What the visitor of the emitted changes asks for next.
#[derive(Clone, Copy, Debug, PartialEq, Eq, Structural)]
pub enum Action {
    Continue,
    Cancel,
}

/// What one emission did.
#[derive(Clone, Copy, Debug, PartialEq, Eq, Structural)]
pub struct Outcome {
    /// The settings that were used.
    pub options: Rewrites,
    /// Similarity checks that were performed.
    pub num_similarity_checks: usize,
    /// Similarity checks of rename detection skipped because of the limit.
    pub num_similarity_checks_skipped_for_rename_tracking_due_to_limit: usize,
    /// Similarity checks of copy detection skipped because of the limit.
    pub num_similarity_checks_skipped_for_copy_tracking_due_to_limit: usize,
}

impl Default for Outcome {
    fn default() -> (r: Outcome)
        ensures
            r.options.copies.is_none(),
            r.options.percentage == Some(50u32),
            r.options.limit == 1000,
            r.num_similarity_checks == 0,
            r.num_similarity_checks_skipped_for_rename_tracking_due_to_limit == 0,
            r.num_similarity_checks_skipped_for_copy_tracking_due_to_limit == 0,
    {
        Outcome {
            options: Rewrites::default(),
            num_similarity_checks: 0,
            num_similarity_checks_skipped_for_rename_tracking_due_to_limit: 0,
            num_similarity_checks_skipped_for_copy_tracking_due_to_limit: 0,
        }
    }
}

/// Why an emission failed.
#[derive(Clone, Copy, Debug, PartialEq, Eq, Structural)]
pub enum Error {
    /// The content of an object could not be found.
    ObjectNotFound { id: ObjectId },
    /// The sources beyond the change set could not be listed.
    SourcesUnavailable,
}

} // verus!
