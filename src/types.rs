//! The records that describe how each path changed, and the revision data
//! that goes with them.
use vstd::prelude::*;

verus! {

/// How one path changed between the old and the new snapshot.
#[derive(Debug, Clone, PartialEq, Eq)]
pub enum FileStatus {
    /// A new path, with its number of lines.
    Added(String, u32),
    /// A path that is gone, with its number of lines.
    Deleted(String, u32),
    /// A path whose content changed: lines added, lines removed.
    Modified(String, u32, u32),
    /// A deleted path whose content moved to a new path.
    Renamed { old: String, new: String, added: u32, removed: u32 },
    /// A new path whose content was copied from an old path.
    Copied { src: String, dest: String, added: u32, removed: u32 },
}

impl FileStatus {
    /// A copy of the record.
    pub fn clone_status(&self) -> (r: FileStatus)
        ensures
            r@ == self@,
    {
        match self {
            FileStatus::Added(p, n) => FileStatus::Added(p.clone(), *n),
            FileStatus::Deleted(p, n) => FileStatus::Deleted(p.clone(), *n),
            FileStatus::Modified(p, a, r) => FileStatus::Modified(p.clone(), *a, *r),
            FileStatus::Renamed { old, new, added, removed } => FileStatus::Renamed {
                old: old.clone(),
                new: new.clone(),
                added: *added,
                removed: *removed,
            },
            FileStatus::Copied { src, dest, added, removed } => FileStatus::Copied {
                src: src.clone(),
                dest: dest.clone(),
                added: *added,
                removed: *removed,
            },
        }
    }
}

/// The mathematical content of a [`FileStatus`].
pub enum StatusView {
    Added(Seq<char>, u32),
    Deleted(Seq<char>, u32),
    Modified(Seq<char>, u32, u32),
    Renamed { old: Seq<char>, new: Seq<char>, added: u32, removed: u32 },
    Copied { src: Seq<char>, dest: Seq<char>, added: u32, removed: u32 },
}

impl View for FileStatus {
    type V = StatusView;

    open spec fn view(&self) -> StatusView {
        match self {
            FileStatus::Added(p, n) => StatusView::Added(p@, *n),
            FileStatus::Deleted(p, n) => StatusView::Deleted(p@, *n),
            FileStatus::Modified(p, a, r) => StatusView::Modified(p@, *a, *r),
            FileStatus::Renamed { old, new, added, removed } => StatusView::Renamed {
                old: old@,
                new: new@,
                added: *added,
                removed: *removed,
            },
            FileStatus::Copied { src, dest, added, removed } => StatusView::Copied {
                src: src@,
                dest: dest@,
                added: *added,
                removed: *removed,
            },
        }
    }
}

/// The views of a sequence of records.
pub open spec fn statuses_view(s: Seq<FileStatus>) -> Seq<StatusView> {
    s.map_values(|x: FileStatus| x@)
}

/// The path a record is filed under: the new path for an addition, a
/// modification or a rename, the destination of a copy, the path of a deletion.
pub open spec fn target(s: StatusView) -> Seq<char> {
    match s {
        StatusView::Added(p, _) => p,
        StatusView::Deleted(p, _) => p,
        StatusView::Modified(p, _, _) => p,
        StatusView::Renamed { new, .. } => new,
        StatusView::Copied { dest, .. } => dest,
    }
}

/// One revision: its description and the identities of its change and commit.
#[derive(Debug, Clone)]
pub struct CommitInfo {
    pub description: String,
    /// Shortest unambiguous prefix of the change id.
    pub change_id_prefix: String,
    /// Short form of the change id.
    pub change_id_short: String,
    /// Full change id.
    pub change_id_full: String,
    /// Shortest unambiguous prefix of the commit id.
    pub commit_id_prefix: String,
    /// Short form of the commit id.
    pub commit_id_short: String,
    /// Full commit id.
    pub commit_id_full: String,
}

/// How the result is presented.
#[derive(Clone, Copy, Debug, PartialEq, Eq)]
pub enum OutputFormat {
    Text,
    Json,
}

} // verus!
