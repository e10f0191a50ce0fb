//! Line-diff statistics and the similarity score built on them.
use vstd::prelude::*;
use vstd::utf8::encode_utf8;
use crate::text::{count_lines, line_count, lemma_line_count_le};

verus! {

/// Texts this large or larger cannot be diffed: the line diff indexes
/// lines with `i32`.
pub const MAX_TEXT_BYTES: u64 = 0x7fff_ffff;

/// A text small enough to take part in a line diff.
pub open spec fn fits(s: Seq<char>) -> bool {
    encode_utf8(s).len() < MAX_TEXT_BYTES
}

/// Lines added and lines removed by the histogram line diff from `before`
/// to `after`, in that order.
pub uninterp spec fn histogram_line_diff(before: Seq<char>, after: Seq<char>) -> (u32, u32);

/// Relies on imara_diff (`InternedInput::new` over the lines of both texts,
/// `Diff::compute` with `Algorithm::Histogram`, `count_additions` and
/// `count_removals`): the numbers of lines that the diff marks as added and
/// removed, which are the summed lengths of its hunks on either side.
/// `compute_with` asserts that each side has fewer than `i32::MAX` lines, and
/// each count is at most the number of lines of its side.
#[verifier::external_body]
fn histogram_counts(before: &str, after: &str) -> (r: (u32, u32))
    requires
        line_count(before@) < 0x7fff_ffff,
        line_count(after@) < 0x7fff_ffff,
    ensures
        r == histogram_line_diff(before@, after@),
        r.0 <= line_count(after@),
        r.1 <= line_count(before@),
{
    let input = imara_diff::InternedInput::new(before, after);
    let diff = imara_diff::Diff::compute(imara_diff::Algorithm::Histogram, &input);
    (diff.count_additions(), diff.count_removals())
}

/// Lines added and removed going from `before` to `after`; nothing for equal texts.
pub open spec fn diff_stats(before: Seq<char>, after: Seq<char>) -> (u32, u32) {
    if before == after {
        (0, 0)
    } else {
        histogram_line_diff(before, after)
    }
}

/// Lines added and removed going from `s1` to `s2`.
pub fn calculate_diff_stats(s1: &String, s2: &String) -> (r: (u32, u32))
    requires
        fits(s1@),
        fits(s2@),
    ensures
        r == diff_stats(s1@, s2@),
{
    if *s1 == *s2 {
        return (0, 0);
    }
    proof {
        lemma_line_count_le(s1@);
        lemma_line_count_le(s2@);
    }
    histogram_counts(s1.as_str(), s2.as_str())
}

/// A similarity score, the fraction `same / total` of a range from 0 to 1.
#[derive(Clone, Copy, Debug, PartialEq, Eq)]
pub struct Similarity {
    pub same: u64,
    pub total: u64,
}

impl Similarity {
    /// A score is a fraction between 0 and 1.
    pub open spec fn wf(self) -> bool {
        0 < self.total && self.same <= self.total && self.total <= 0x1_0000_0000
    }

    /// Whether `self` scores strictly higher than `o`.
    pub open spec fn gt(self, o: Similarity) -> bool {
        self.same * o.total > o.same * self.total
    }

    /// Whether the score is strictly above one half.
    pub open spec fn above_half(self) -> bool {
        2 * self.same > self.total
    }

    /// Whether `self` scores strictly higher than `o`.
    pub fn greater_than(&self, o: &Similarity) -> (r: bool)
        requires
            self.wf(),
            o.wf(),
        ensures
            r == self.gt(*o),
    {
        let a = self.same as u128;
        let b = o.total as u128;
        let c = o.same as u128;
        let d = self.total as u128;
        proof {
            assert(a * b <= 0x1_0000_0000 * 0x1_0000_0000) by (nonlinear_arith)
                requires a <= 0x1_0000_0000, b <= 0x1_0000_0000;
            assert(c * d <= 0x1_0000_0000 * 0x1_0000_0000) by (nonlinear_arith)
                requires c <= 0x1_0000_0000, d <= 0x1_0000_0000;
        }
        a * b > c * d
    }

    /// Whether the score is strictly above one half.
    pub fn is_above_half(&self) -> (r: bool)
        requires
            self.wf(),
        ensures
            r == self.above_half(),
    {
        2 * self.same > self.total
    }
}

/// The score of two texts from their line diff: the share of the lines of
/// both that the diff, which adds `diff.0` lines and removes `diff.1`, leaves
/// unchanged; 1 where neither text has a line.
pub open spec fn line_score(a: Seq<char>, b: Seq<char>, diff: (u32, u32)) -> Similarity {
    let total = line_count(a) + line_count(b);
    if total == 0 {
        Similarity { same: 1, total: 1 }
    } else {
        Similarity { same: (total - diff.0 - diff.1) as u64, total: total as u64 }
    }
}

/// The similarity of two texts: 1 for equal texts, 0 where exactly one is
/// empty or one is less than half the size of the other in bytes, and else
/// the share of the lines of both that the line diff leaves unchanged.
pub open spec fn similarity(a: Seq<char>, b: Seq<char>) -> Similarity {
    let la = encode_utf8(a).len();
    let lb = encode_utf8(b).len();
    if a == b {
        Similarity { same: 1, total: 1 }
    } else if a.len() == 0 || b.len() == 0 {
        Similarity { same: 0, total: 1 }
    } else if 2 * (if la < lb { la } else { lb }) < (if la < lb { lb } else { la }) {
        Similarity { same: 0, total: 1 }
    } else {
        line_score(a, b, histogram_line_diff(a, b))
    }
}

/// Scores `s1` against `s2` from the lines added (`diff.0`) and removed
/// (`diff.1`) by a line diff between them.
pub fn score_lines(s1: &String, s2: &String, diff: (u32, u32)) -> (r: Similarity)
    requires
        fits(s1@),
        fits(s2@),
        diff.0 <= line_count(s2@),
        diff.1 <= line_count(s1@),
    ensures
        r == line_score(s1@, s2@, diff),
        r.wf(),
{
    proof {
        lemma_line_count_le(s1@);
        lemma_line_count_le(s2@);
    }
    let total = count_lines(s1.as_str()) as u64 + count_lines(s2.as_str()) as u64;
    if total == 0 {
        return Similarity { same: 1, total: 1 };
    }
    let changes = diff.0 as u64 + diff.1 as u64;
    Similarity { same: total - changes, total }
}

/// Scores how similar `s1` and `s2` are, line by line.
pub fn calculate_similarity(s1: &String, s2: &String) -> (r: Similarity)
    requires
        fits(s1@),
        fits(s2@),
    ensures
        r == similarity(s1@, s2@),
        r.wf(),
        s1@ == s2@ ==> r.same == r.total,
        s1@ != s2@ && (s1@.len() == 0 || s2@.len() == 0) ==> r.same == 0,
{
    if *s1 == *s2 {
        return Similarity { same: 1, total: 1 };
    }
    if s1.as_str().is_empty() || s2.as_str().is_empty() {
        return Similarity { same: 0, total: 1 };
    }
    let len1 = s1.as_str().len();
    let len2 = s2.as_str().len();
    let max_len = if len1 < len2 { len2 } else { len1 };
    let min_len = if len1 < len2 { len1 } else { len2 };
    if (min_len as u64) * 2 < max_len as u64 {
        return Similarity { same: 0, total: 1 };
    }
    proof {
        lemma_line_count_le(s1@);
        lemma_line_count_le(s2@);
    }
    let diff = histogram_counts(s1.as_str(), s2.as_str());
    score_lines(s1, s2, diff)
}

} // verus!
