use tug_stats::engine::compute_diff;
use tug_stats::types::FileStatus;

fn snap(entries: &[(&str, &str)]) -> Vec<(String, String)> {
    entries
        .iter()
        .map(|(p, c)| (p.to_string(), c.to_string()))
        .collect()
}

fn paths(ps: &[&str]) -> Vec<String> {
    ps.iter().map(|p| p.to_string()).collect()
}

#[test]
fn unchanged_file_gives_nothing() {
    let old = snap(&[("a.txt", "hello\n")]);
    let new = snap(&[("a.txt", "hello\n")]);
    assert_eq!(compute_diff(&new, &old, &paths(&["a.txt"])), vec![]);
}

#[test]
fn removed_file_is_deleted() {
    let old = snap(&[("a.txt", "x\n")]);
    let new = snap(&[]);
    assert_eq!(
        compute_diff(&new, &old, &paths(&["a.txt"])),
        vec![FileStatus::Deleted("a.txt".to_string(), 1)]
    );
}

#[test]
fn moved_file_is_renamed() {
    let old = snap(&[("a.txt", "l1\nl2\nl3\n")]);
    let new = snap(&[("b.txt", "l1\nl2\nl3\n")]);
    assert_eq!(
        compute_diff(&new, &old, &paths(&["a.txt"])),
        vec![FileStatus::Renamed {
            old: "a.txt".to_string(),
            new: "b.txt".to_string(),
            added: 0,
            removed: 0,
        }]
    );
}

#[test]
fn extended_duplicate_is_copied() {
    let old = snap(&[("a.txt", "l1\nl2\nl3\nl4\n")]);
    let new = snap(&[("a.txt", "l1\nl2\nl3\nl4\n"), ("b.txt", "l1\nl2\nl3\nl4\nextra\n")]);
    assert_eq!(
        compute_diff(&new, &old, &paths(&["a.txt"])),
        vec![FileStatus::Copied {
            src: "a.txt".to_string(),
            dest: "b.txt".to_string(),
            added: 1,
            removed: 0,
        }]
    );
}

#[test]
fn changed_file_is_modified() {
    let old = snap(&[("a.txt", "one\ntwo\nthree\n")]);
    let new = snap(&[("a.txt", "one\n2\nthree\nfour\n")]);
    assert_eq!(
        compute_diff(&new, &old, &paths(&["a.txt"])),
        vec![FileStatus::Modified("a.txt".to_string(), 2, 1)]
    );
}

#[test]
fn trailing_newline_change_is_modified() {
    let old = snap(&[("a.txt", "one\ntwo")]);
    let new = snap(&[("a.txt", "one\ntwo\n")]);
    assert_eq!(
        compute_diff(&new, &old, &paths(&["a.txt"])),
        vec![FileStatus::Modified("a.txt".to_string(), 1, 1)]
    );
}

#[test]
fn disjoint_snapshots_give_added_and_deleted() {
    let old = snap(&[("x.txt", "alpha\nbeta\n"), ("y.txt", "gamma\n")]);
    let new = snap(&[("z.txt", "one\ntwo\nthree"), ("a.txt", "")]);
    assert_eq!(
        compute_diff(&new, &old, &paths(&["x.txt", "y.txt"])),
        vec![
            FileStatus::Added("a.txt".to_string(), 0),
            FileStatus::Deleted("x.txt".to_string(), 2),
            FileStatus::Deleted("y.txt".to_string(), 1),
            FileStatus::Added("z.txt".to_string(), 3),
        ]
    );
}

#[test]
fn identical_snapshots_give_nothing() {
    let files = snap(&[("b", "1\n2\n"), ("a", "3\n"), ("c", "")]);
    assert_eq!(compute_diff(&files, &files, &paths(&["b", "a", "c"])), vec![]);
}

#[test]
fn copy_source_can_stay_deleted() {
    let old = snap(&[("s.txt", "same\ntext\nhere\n"), ("t.txt", "same\ntext\nhere\n")]);
    let new = snap(&[("c1.txt", "same\ntext\nhere\n"), ("c2.txt", "same\ntext\nhere\n")]);
    assert_eq!(
        compute_diff(&new, &old, &paths(&["t.txt", "s.txt"])),
        vec![
            FileStatus::Renamed {
                old: "t.txt".to_string(),
                new: "c1.txt".to_string(),
                added: 0,
                removed: 0,
            },
            FileStatus::Copied {
                src: "s.txt".to_string(),
                dest: "c2.txt".to_string(),
                added: 0,
                removed: 0,
            },
            FileStatus::Deleted("s.txt".to_string(), 3),
        ]
    );
}

#[test]
fn higher_score_wins_a_contested_source() {
    let old = snap(&[("a", "1\n2\n3\n4\n")]);
    let new = snap(&[("p", "1\n2\n3\nx\n"), ("q", "1\n2\n3\n4\n")]);
    assert_eq!(
        compute_diff(&new, &old, &paths(&["a"])),
        vec![
            FileStatus::Copied {
                src: "a".to_string(),
                dest: "p".to_string(),
                added: 1,
                removed: 1,
            },
            FileStatus::Renamed {
                old: "a".to_string(),
                new: "q".to_string(),
                added: 0,
                removed: 0,
            },
        ]
    );
}

#[test]
fn manifest_path_without_content_counts_zero_lines() {
    let old = snap(&[]);
    let new = snap(&[]);
    assert_eq!(
        compute_diff(&new, &old, &paths(&["gone"])),
        vec![FileStatus::Deleted("gone".to_string(), 0)]
    );
}

#[test]
fn repeated_runs_agree() {
    let old = snap(&[("a", "1\n2\n3\n"), ("b", "x\ny\n"), ("c", "k\n")]);
    let new = snap(&[("d", "1\n2\n3\n"), ("b", "x\nz\n"), ("e", "1\n2\n3\n")]);
    let manifest = paths(&["a", "b", "c"]);
    let first = compute_diff(&new, &old, &manifest);
    for _ in 0..5 {
        assert_eq!(compute_diff(&new, &old, &manifest), first);
    }
}
