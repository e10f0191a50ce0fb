//! What presentation needs from a record: its symbol, its path line, its
//! counts, and the fields of its structured form.
use vstd::prelude::*;
use vstd::string::{StrSliceExecFns, StringExecFns};
use crate::types::{CommitInfo, FileStatus, StatusView};

verus! {

/// Lines added and removed that a record stands for.
pub open spec fn stats_of(s: StatusView) -> (u32, u32) {
    match s {
        StatusView::Added(_, a) => (a, 0),
        StatusView::Deleted(_, r) => (0, r),
        StatusView::Modified(_, a, r) => (a, r),
        StatusView::Renamed { added, removed, .. } => (added, removed),
        StatusView::Copied { added, removed, .. } => (added, removed),
    }
}

/// Lines added and removed that a record stands for.
pub fn extract_stats(status: &FileStatus) -> (r: (u32, u32))
    ensures
        r == stats_of(status@),
{
    match status {
        FileStatus::Added(_, a) => (*a, 0),
        FileStatus::Deleted(_, r) => (0, *r),
        FileStatus::Modified(_, a, r) => (*a, *r),
        FileStatus::Renamed { added, removed, .. } => (*added, *removed),
        FileStatus::Copied { added, removed, .. } => (*added, *removed),
    }
}

/// The one-letter code of a record's kind.
pub open spec fn symbol_of(s: StatusView) -> Seq<char> {
    match s {
        StatusView::Added(..) => seq!['A'],
        StatusView::Deleted(..) => seq!['D'],
        StatusView::Modified(..) => seq!['M'],
        StatusView::Renamed { .. } => seq!['R'],
        StatusView::Copied { .. } => seq!['C'],
    }
}

/// The one-letter code of a record's kind.
pub fn get_status_symbol(status: &FileStatus) -> (r: &'static str)
    ensures
        r@ == symbol_of(status@),
{
    match status {
        FileStatus::Added(..) => {
            proof {
                reveal_strlit("A");
            }
            "A"
        },
        FileStatus::Deleted(..) => {
            proof {
                reveal_strlit("D");
            }
            "D"
        },
        FileStatus::Modified(..) => {
            proof {
                reveal_strlit("M");
            }
            "M"
        },
        FileStatus::Renamed { .. } => {
            proof {
                reveal_strlit("R");
            }
            "R"
        },
        FileStatus::Copied { .. } => {
            proof {
                reveal_strlit("C");
            }
            "C"
        },
    }
}

/// `{from => to}`, the way a moved path is shown.
pub open spec fn move_display(from: Seq<char>, to: Seq<char>) -> Seq<char> {
    seq!['{'] + from + seq![' ', '=', '>', ' '] + to + seq!['}']
}

/// The path of a record as it is shown: the path itself, or `{from => to}`
/// for a rename or a copy.
pub open spec fn path_display(s: StatusView) -> Seq<char> {
    match s {
        StatusView::Added(p, _) => p,
        StatusView::Deleted(p, _) => p,
        StatusView::Modified(p, _, _) => p,
        StatusView::Renamed { old, new, .. } => move_display(old, new),
        StatusView::Copied { src, dest, .. } => move_display(src, dest),
    }
}

fn show_move(from: &String, to: &String) -> (r: String)
    ensures
        r@ == move_display(from@, to@),
{
    proof {
        reveal_strlit("{");
        reveal_strlit(" => ");
        reveal_strlit("}");
    }
    let mut r = "{".to_owned();
    r.append(from.as_str());
    r.append(" => ");
    r.append(to.as_str());
    r.append("}");
    r
}

/// The path of a record as it is shown.
pub fn get_path_display(status: &FileStatus) -> (r: String)
    ensures
        r@ == path_display(status@),
{
    match status {
        FileStatus::Added(p, _) | FileStatus::Deleted(p, _) | FileStatus::Modified(p, _, _) => p.clone(),
        FileStatus::Renamed { old, new, .. } => show_move(old, new),
        FileStatus::Copied { src, dest, .. } => show_move(src, dest),
    }
}

/// The structured form of a record: its code, its path or its two paths, and
/// its counts.
pub struct FileEntry {
    pub status: String,
    pub path: Option<String>,
    pub from: Option<String>,
    pub to: Option<String>,
    pub added: u32,
    pub removed: u32,
}

/// The view of an optional path.
pub open spec fn opt_view(o: Option<String>) -> Option<Seq<char>> {
    match o {
        Some(s) => Some(s@),
        None => None,
    }
}

/// The path of a record that names one path; `None` for a rename or a copy.
pub open spec fn single_path(s: StatusView) -> Option<Seq<char>> {
    match s {
        StatusView::Added(p, _) => Some(p),
        StatusView::Deleted(p, _) => Some(p),
        StatusView::Modified(p, _, _) => Some(p),
        _ => None,
    }
}

/// The two paths of a rename or a copy; `None` for other records.
pub open spec fn move_paths(s: StatusView) -> Option<(Seq<char>, Seq<char>)> {
    match s {
        StatusView::Renamed { old, new, .. } => Some((old, new)),
        StatusView::Copied { src, dest, .. } => Some((src, dest)),
        _ => None,
    }
}

/// The structured form of a record.
pub fn file_entry(status: &FileStatus) -> (r: FileEntry)
    ensures
        r.status@ == symbol_of(status@),
        opt_view(r.path) == single_path(status@),
        opt_view(r.from) == match move_paths(status@) {
            Some(m) => Some(m.0),
            None => None::<Seq<char>>,
        },
        opt_view(r.to) == match move_paths(status@) {
            Some(m) => Some(m.1),
            None => None::<Seq<char>>,
        },
        (r.added, r.removed) == stats_of(status@),
{
    let code = get_status_symbol(status).to_owned();
    let (added, removed) = extract_stats(status);
    match status {
        FileStatus::Added(p, _) | FileStatus::Deleted(p, _) | FileStatus::Modified(p, _, _) => {
            FileEntry { status: code, path: Some(p.clone()), from: None, to: None, added, removed }
        },
        FileStatus::Renamed { old, new, .. } => FileEntry {
            status: code,
            path: None,
            from: Some(old.clone()),
            to: Some(new.clone()),
            added,
            removed,
        },
        FileStatus::Copied { src, dest, .. } => FileEntry {
            status: code,
            path: None,
            from: Some(src.clone()),
            to: Some(dest.clone()),
            added,
            removed,
        },
    }
}

/// What follows `prefix` in `full`; empty where `full` does not start with it.
pub open spec fn id_rest_spec(full: Seq<char>, prefix: Seq<char>) -> Seq<char> {
    if prefix.is_prefix_of(full) {
        full.skip(prefix.len() as int)
    } else {
        Seq::empty()
    }
}

/// What follows `prefix` in `full`; empty where `full` does not start with it.
pub fn id_rest(full: &String, prefix: &String) -> (r: String)
    ensures
        r@ == id_rest_spec(full@, prefix@),
{
    let f = full.as_str();
    let p = prefix.as_str();
    let flen = f.unicode_len();
    let plen = p.unicode_len();
    if plen > flen {
        return String::new();
    }
    let mut i: usize = 0;
    while i < plen
        invariant
            f@ == full@,
            p@ == prefix@,
            flen == f@.len(),
            plen == p@.len(),
            plen <= flen,
            i <= plen,
            forall|k: int| 0 <= k < i ==> f@[k] == p@[k],
        decreases plen - i,
    {
        if f.get_char(i) != p.get_char(i) {
            return String::new();
        }
        i = i + 1;
    }
    assert(prefix@.is_prefix_of(full@));
    f.substring_char(plen, flen).to_owned()
}

/// A revision's description and its two ids, each split into the unique
/// prefix and the rest of the full id.
pub struct RevisionIds {
    pub description: String,
    pub change_id: Vec<String>,
    pub commit_id: Vec<String>,
}

/// Splits the ids of a revision for its structured form.
pub fn revision_ids(info: &CommitInfo) -> (r: RevisionIds)
    ensures
        r.description@ == info.description@,
        r.change_id@.len() == 2,
        r.change_id@[0]@ == info.change_id_prefix@,
        r.change_id@[1]@ == id_rest_spec(info.change_id_full@, info.change_id_prefix@),
        r.commit_id@.len() == 2,
        r.commit_id@[0]@ == info.commit_id_prefix@,
        r.commit_id@[1]@ == id_rest_spec(info.commit_id_full@, info.commit_id_prefix@),
{
    let ch_rest = id_rest(&info.change_id_full, &info.change_id_prefix);
    let co_rest = id_rest(&info.commit_id_full, &info.commit_id_prefix);
    let mut change_id: Vec<String> = Vec::new();
    change_id.push(info.change_id_prefix.clone());
    change_id.push(ch_rest);
    let mut commit_id: Vec<String> = Vec::new();
    commit_id.push(info.commit_id_prefix.clone());
    commit_id.push(co_rest);
    RevisionIds { description: info.description.clone(), change_id, commit_id }
}


/// A label cut to at most `max` characters: a label that is too long keeps
/// its first `max - 1` characters (none where `max` is below 2) and ends in `…`.
pub open spec fn fit_label_spec(s: Seq<char>, max: nat) -> Seq<char> {
    if s.len() <= max {
        s
    } else if max >= 2 {
        s.take(max - 1) + seq!['…']
    } else {
        seq!['…']
    }
}

/// Cuts `label` to fit `max` characters, marking the cut with an ellipsis.
pub fn fit_label(label: &String, max: usize) -> (r: String)
    ensures
        r@ == fit_label_spec(label@, max as nat),
{
    let s = label.as_str();
    let n = s.unicode_len();
    if n <= max {
        return label.clone();
    }
    proof {
        reveal_strlit("…");
    }
    let cut = if max > 0 { max - 1 } else { 0 };
    if cut > 0 {
        let mut r = s.substring_char(0, cut).to_owned();
        r.append("…");
        r
    } else {
        "…".to_owned()
    }
}

} // verus!
