use tug_stats::display::{
    extract_stats, file_entry, fit_label, get_path_display, get_status_symbol, id_rest,
    revision_ids,
};
use tug_stats::revision::parse_commit_info;
use tug_stats::types::{CommitInfo, FileStatus};

fn renamed() -> FileStatus {
    FileStatus::Renamed {
        old: "a.rs".to_string(),
        new: "b.rs".to_string(),
        added: 3,
        removed: 4,
    }
}

#[test]
fn symbols_per_kind() {
    assert_eq!(get_status_symbol(&FileStatus::Added("x".to_string(), 1)), "A");
    assert_eq!(get_status_symbol(&FileStatus::Deleted("x".to_string(), 1)), "D");
    assert_eq!(get_status_symbol(&FileStatus::Modified("x".to_string(), 1, 2)), "M");
    assert_eq!(get_status_symbol(&renamed()), "R");
    assert_eq!(
        get_status_symbol(&FileStatus::Copied {
            src: "a".to_string(),
            dest: "b".to_string(),
            added: 0,
            removed: 0
        }),
        "C"
    );
}

#[test]
fn stats_per_kind() {
    assert_eq!(extract_stats(&FileStatus::Added("x".to_string(), 5)), (5, 0));
    assert_eq!(extract_stats(&FileStatus::Deleted("x".to_string(), 6)), (0, 6));
    assert_eq!(extract_stats(&FileStatus::Modified("x".to_string(), 1, 2)), (1, 2));
    assert_eq!(extract_stats(&renamed()), (3, 4));
}

#[test]
fn path_display_of_moves() {
    assert_eq!(get_path_display(&renamed()), "{a.rs => b.rs}");
    assert_eq!(get_path_display(&FileStatus::Added("dir/x".to_string(), 1)), "dir/x");
}

#[test]
fn structured_entries() {
    let e = file_entry(&renamed());
    assert_eq!(e.status, "R");
    assert_eq!(e.path, None);
    assert_eq!(e.from, Some("a.rs".to_string()));
    assert_eq!(e.to, Some("b.rs".to_string()));
    assert_eq!((e.added, e.removed), (3, 4));
    let e = file_entry(&FileStatus::Deleted("gone".to_string(), 9));
    assert_eq!(e.status, "D");
    assert_eq!(e.path, Some("gone".to_string()));
    assert_eq!((e.from, e.to), (None, None));
    assert_eq!((e.added, e.removed), (0, 9));
}

#[test]
fn labels_are_cut_with_an_ellipsis() {
    assert_eq!(fit_label(&"M short".to_string(), 10), "M short");
    assert_eq!(fit_label(&"M abcdefgh".to_string(), 5), "M ab…");
    assert_eq!(fit_label(&"M ab".to_string(), 1), "…");
    assert_eq!(fit_label(&"M ab".to_string(), 0), "…");
    assert_eq!(fit_label(&"é€üxyz".to_string(), 4), "é€ü…");
}

#[test]
fn id_rest_strips_the_prefix() {
    assert_eq!(id_rest(&"ustt1234".to_string(), &"u".to_string()), "stt1234");
    assert_eq!(id_rest(&"ustt".to_string(), &"x".to_string()), "");
    assert_eq!(id_rest(&"u".to_string(), &"ustt".to_string()), "");
    assert_eq!(id_rest(&"abc".to_string(), &"".to_string()), "abc");
}

fn info() -> CommitInfo {
    CommitInfo {
        description: "fix it".to_string(),
        change_id_prefix: "u".to_string(),
        change_id_short: "ustt".to_string(),
        change_id_full: "usttvwxyz".to_string(),
        commit_id_prefix: "3a".to_string(),
        commit_id_short: "3a9f".to_string(),
        commit_id_full: "3a9f00ff".to_string(),
    }
}

#[test]
fn revision_ids_split_full_ids() {
    let r = revision_ids(&info());
    assert_eq!(r.description, "fix it");
    assert_eq!(r.change_id, vec!["u".to_string(), "sttvwxyz".to_string()]);
    assert_eq!(r.commit_id, vec!["3a".to_string(), "9f00ff".to_string()]);
}

#[test]
fn commit_info_from_client_output() {
    let c = parse_commit_info("u\0ustt\0usttvwxyz\03a\03a9f\03a9f00ff\0  fix it\n\nbody\n");
    assert_eq!(c.change_id_prefix, "u");
    assert_eq!(c.change_id_short, "ustt");
    assert_eq!(c.change_id_full, "usttvwxyz");
    assert_eq!(c.commit_id_prefix, "3a");
    assert_eq!(c.commit_id_short, "3a9f");
    assert_eq!(c.commit_id_full, "3a9f00ff");
    assert_eq!(c.description, "fix it\n\nbody");
}

#[test]
fn short_client_output_gives_empty_info() {
    let c = parse_commit_info("u\0ustt\0full");
    assert_eq!(c.change_id_prefix, "");
    assert_eq!(c.description, "");
    assert_eq!(c.commit_id_full, "");
}
