use tug_stats::similarity::{calculate_diff_stats, calculate_similarity, score_lines, Similarity};
use tug_stats::text::{count_lines, text_le_exec};

fn s(x: &str) -> String {
    x.to_string()
}

#[test]
fn identical_texts_score_one() {
    let r = calculate_similarity(&s("a\nb\n"), &s("a\nb\n"));
    assert_eq!(r.same, r.total);
}

#[test]
fn empty_side_scores_zero() {
    let r = calculate_similarity(&s("a\nb\n"), &s(""));
    assert_eq!(r.same, 0);
    let r = calculate_similarity(&s(""), &s("a\n"));
    assert_eq!(r.same, 0);
}

#[test]
fn size_disparity_scores_zero() {
    let r = calculate_similarity(&s("a\n"), &s("a\nbbbb\n"));
    assert_eq!(r, Similarity { same: 0, total: 1 });
}

#[test]
fn one_extra_line_scores_eight_ninths() {
    let r = calculate_similarity(&s("l1\nl2\nl3\nl4\n"), &s("l1\nl2\nl3\nl4\nextra\n"));
    assert_eq!(r, Similarity { same: 8, total: 9 });
    assert!(r.is_above_half());
}

#[test]
fn diff_stats_count_both_sides() {
    assert_eq!(calculate_diff_stats(&s("a\nb\nc\n"), &s("a\nx\nc\ny\n")), (2, 1));
    assert_eq!(calculate_diff_stats(&s("same\n"), &s("same\n")), (0, 0));
}

#[test]
fn score_comparison() {
    let a = Similarity { same: 2, total: 3 };
    let b = Similarity { same: 3, total: 5 };
    assert!(a.greater_than(&b));
    assert!(!b.greater_than(&a));
    assert!(!a.greater_than(&a));
}

#[test]
fn lines_are_counted_like_str_lines() {
    for t in ["", "a", "a\n", "a\nb", "a\r\nb\r\n", "\n\n", "é\nü"] {
        assert_eq!(count_lines(t), t.lines().count());
    }
}

#[test]
fn lexical_order_is_bytewise() {
    assert!(text_le_exec("a", "b"));
    assert!(text_le_exec("a", "a"));
    assert!(text_le_exec("a", "ab"));
    assert!(!text_le_exec("b", "ab"));
    assert!(text_le_exec("Z", "a"));
    assert!(!text_le_exec("é", "z"));
}

#[test]
fn line_score_from_counts() {
    let a = s("l1\nl2\nl3\nl4\n");
    let b = s("l1\nl2\nl3\nl4\nextra\n");
    assert_eq!(score_lines(&a, &b, (1, 0)), Similarity { same: 8, total: 9 });
    assert_eq!(score_lines(&a, &b, (5, 4)), Similarity { same: 0, total: 9 });
    assert_eq!(score_lines(&s(""), &s(""), (0, 0)), Similarity { same: 1, total: 1 });
}
