//! The classification engine: from two snapshots and the manifest of the old
//! one to a sorted list of change records.
//!
//! A snapshot is a list of (path, content) pairs and the manifest a list of
//! paths. Added paths are taken in the order of the new snapshot, deleted and
//! common ones in the order of the manifest; among equally good matches the
//! first one in the searched list wins, and rename candidates of equal score
//! keep their order. The result is therefore a function of the inputs alone,
//! however the scoring is spread over threads.
use vstd::prelude::*;
use rayon::iter::{IntoParallelRefIterator, ParallelIterator};
use crate::similarity::{calculate_diff_stats, calculate_similarity, diff_stats, fits, similarity, Similarity};
use crate::text::{count_lines, lemma_line_count_le, line_count, text_le, text_le_exec};
use crate::types::{FileStatus, StatusView, statuses_view, target};

verus! {

/// A text as the specifications see it.
pub type Text = Seq<char>;

/// `f(x)` for each `x` of `s` for which it is `Some`, in the order of `s`.
pub open spec fn filter_map<A, B>(s: Seq<A>, f: spec_fn(A) -> Option<B>) -> Seq<B>
    decreases s.len(),
{
    if s.len() == 0 {
        Seq::empty()
    } else {
        let p = filter_map(s.drop_last(), f);
        match f(s.last()) {
            Some(b) => p.push(b),
            None => p,
        }
    }
}

proof fn lemma_filter_map_step<A, B>(s: Seq<A>, f: spec_fn(A) -> Option<B>, i: int)
    requires
        0 <= i < s.len(),
    ensures
        filter_map(s.take(i + 1), f) == match f(s[i]) {
            Some(b) => filter_map(s.take(i), f).push(b),
            None => filter_map(s.take(i), f),
        },
{
    assert(s.take(i + 1).drop_last() =~= s.take(i));
}

/// A snapshot as pairs of path and content.
pub open spec fn entries_view(v: Seq<(String, String)>) -> Seq<(Text, Text)> {
    v.map_values(|e: (String, String)| (e.0@, e.1@))
}

/// A list of paths as texts.
pub open spec fn paths_view(v: Seq<String>) -> Seq<Text> {
    v.map_values(|p: String| p@)
}

/// Every content of the snapshot can be diffed.
pub open spec fn all_fit(s: Seq<(Text, Text)>) -> bool {
    forall|i: int| 0 <= i < s.len() ==> fits(#[trigger] s[i].1)
}

/// Index of the first entry of `s` at or after `i` whose path is `key`.
pub open spec fn find_from(s: Seq<(Text, Text)>, key: Text, i: int) -> Option<int>
    decreases s.len() - i,
{
    if i < 0 || i >= s.len() {
        None
    } else if s[i].0 == key {
        Some(i)
    } else {
        find_from(s, key, i + 1)
    }
}

/// Index of the entry of `s` for path `key`.
pub open spec fn find(s: Seq<(Text, Text)>, key: Text) -> Option<int> {
    find_from(s, key, 0)
}

proof fn lemma_find_from(s: Seq<(Text, Text)>, key: Text, i: int)
    requires
        0 <= i,
    ensures
        find_from(s, key, i) matches Some(k) ==> i <= k < s.len() && s[k].0 == key,
        find_from(s, key, i) is None ==> forall|k: int| i <= k < s.len() ==> s[k].0 != key,
    decreases s.len() - i,
{
    if i < s.len() {
        lemma_find_from(s, key, i + 1);
    }
}

/// What `find` returns names an entry with that path; `None` means there is none.
pub proof fn lemma_find(s: Seq<(Text, Text)>, key: Text)
    ensures
        find(s, key) matches Some(k) ==> 0 <= k < s.len() && s[k].0 == key,
        find(s, key) is None <==> !keys(s).contains(key),
{
    lemma_find_from(s, key, 0);
    let ks = keys(s);
    if find(s, key) is None {
        assert(!ks.contains(key));
    } else {
        let k = find(s, key)->Some_0;
        assert(ks[k] == key);
    }
}

/// The index of the entry for `key` in `v`.
pub fn find_entry(v: &Vec<(String, String)>, key: &String) -> (r: Option<usize>)
    ensures
        find(entries_view(v@), key@) == match r {
            Some(i) => Some(i as int),
            None => None::<int>,
        },
        r matches Some(i) ==> i < v@.len(),
{
    let ghost s = entries_view(v@);
    let mut i: usize = 0;
    while i < v.len()
        invariant
            s == entries_view(v@),
            i <= v.len(),
            find(s, key@) == find_from(s, key@, i as int),
        decreases v.len() - i,
    {
        if v[i].0 == *key {
            return Some(i);
        }
        i = i + 1;
    }
    None
}

/// Whether `p` is one of `v`.
pub fn contains_path(v: &Vec<String>, p: &String) -> (r: bool)
    ensures
        r == paths_view(v@).contains(p@),
{
    let mut i: usize = 0;
    while i < v.len()
        invariant
            i <= v.len(),
            forall|k: int| 0 <= k < i ==> v@[k]@ != p@,
        decreases v.len() - i,
    {
        if v[i] == *p {
            assert(paths_view(v@)[i as int] == p@);
            return true;
        }
        i = i + 1;
    }
    false
}

/// A new path is added when the manifest does not hold it.
pub open spec fn added_step(manifest: Seq<Text>) -> spec_fn((Text, Text)) -> Option<Text> {
    |e: (Text, Text)| if !manifest.contains(e.0) { Some(e.0) } else { None }
}

/// A manifest path is deleted when the new snapshot does not hold it.
pub open spec fn deleted_step(new: Seq<(Text, Text)>) -> spec_fn(Text) -> Option<Text> {
    |p: Text| if find(new, p) is None { Some(p) } else { None }
}

/// A manifest path is common when the new snapshot holds it.
pub open spec fn common_step(new: Seq<(Text, Text)>) -> spec_fn(Text) -> Option<Text> {
    |p: Text| if find(new, p) is Some { Some(p) } else { None }
}

/// Paths of the new snapshot that the manifest does not hold.
pub open spec fn added_paths(new: Seq<(Text, Text)>, manifest: Seq<Text>) -> Seq<Text> {
    filter_map(new, added_step(manifest))
}

/// Paths of the manifest that the new snapshot does not hold.
pub open spec fn deleted_paths(new: Seq<(Text, Text)>, manifest: Seq<Text>) -> Seq<Text> {
    filter_map(manifest, deleted_step(new))
}

/// Paths of the manifest that the new snapshot holds too.
pub open spec fn common_paths(new: Seq<(Text, Text)>, manifest: Seq<Text>) -> Seq<Text> {
    filter_map(manifest, common_step(new))
}

/// Splits the paths into added, deleted and common ones.
pub fn classify_paths(new_files: &Vec<(String, String)>, old_manifest: &Vec<String>) -> (r: (
    Vec<String>,
    Vec<String>,
    Vec<String>,
))
    ensures
        paths_view(r.0@) == added_paths(entries_view(new_files@), paths_view(old_manifest@)),
        paths_view(r.1@) == deleted_paths(entries_view(new_files@), paths_view(old_manifest@)),
        paths_view(r.2@) == common_paths(entries_view(new_files@), paths_view(old_manifest@)),
{
    let ghost nv = entries_view(new_files@);
    let ghost mv = paths_view(old_manifest@);
    let mut added: Vec<String> = Vec::new();
    let mut i: usize = 0;
    while i < new_files.len()
        invariant
            nv == entries_view(new_files@),
            mv == paths_view(old_manifest@),
            i <= new_files.len(),
            paths_view(added@) == filter_map(nv.take(i as int), added_step(mv)),
        decreases new_files.len() - i,
    {
        proof {
            lemma_filter_map_step(nv, added_step(mv), i as int);
        }
        let ghost before = added@;
        if !contains_path(old_manifest, &new_files[i].0) {
            added.push(new_files[i].0.clone());
            assert(paths_view(added@) =~= paths_view(before).push(new_files@[i as int].0@));
        }
        i = i + 1;
    }
    assert(nv.take(i as int) =~= nv);
    let mut deleted: Vec<String> = Vec::new();
    let mut common: Vec<String> = Vec::new();
    let mut j: usize = 0;
    while j < old_manifest.len()
        invariant
            nv == entries_view(new_files@),
            mv == paths_view(old_manifest@),
            j <= old_manifest.len(),
            paths_view(deleted@) == filter_map(mv.take(j as int), deleted_step(nv)),
            paths_view(common@) == filter_map(mv.take(j as int), common_step(nv)),
        decreases old_manifest.len() - j,
    {
        proof {
            lemma_filter_map_step(mv, deleted_step(nv), j as int);
            lemma_filter_map_step(mv, common_step(nv), j as int);
        }
        let ghost d0 = deleted@;
        let ghost c0 = common@;
        let p = &old_manifest[j];
        if find_entry(new_files, p).is_none() {
            deleted.push(p.clone());
            assert(paths_view(deleted@) =~= paths_view(d0).push(p@));
        } else {
            common.push(p.clone());
            assert(paths_view(common@) =~= paths_view(c0).push(p@));
        }
        j = j + 1;
    }
    assert(mv.take(j as int) =~= mv);
    (added, deleted, common)
}


/// The record of a common path: a modification where the contents differ,
/// nothing where they are equal or either content is missing.
pub open spec fn modified_of(new: Seq<(Text, Text)>, old: Seq<(Text, Text)>) -> spec_fn(Text) -> Option<StatusView> {
    |p: Text|
        match (find(old, p), find(new, p)) {
            (Some(i), Some(j)) => if old[i].1 != new[j].1 {
                let st = diff_stats(old[i].1, new[j].1);
                Some(StatusView::Modified(p, st.0, st.1))
            } else {
                None
            },
            _ => None,
        }
}

/// A record, if any, as the specifications see it.
pub open spec fn record_view(r: Option<FileStatus>) -> Option<StatusView> {
    match r {
        Some(x) => Some(x@),
        None => None,
    }
}

/// The modification record of the common path `p`, if its content changed.
pub fn modification_for(
    new_files: &Vec<(String, String)>,
    old_files: &Vec<(String, String)>,
    p: &String,
) -> (r: Option<FileStatus>)
    requires
        all_fit(entries_view(new_files@)),
        all_fit(entries_view(old_files@)),
    ensures
        record_view(r) == modified_of(entries_view(new_files@), entries_view(old_files@))(p@),
{
    let ghost nv = entries_view(new_files@);
    let ghost ov = entries_view(old_files@);
    match find_entry(old_files, p) {
        Some(i) => match find_entry(new_files, p) {
            Some(j) => {
                let old_text = &old_files[i].1;
                let new_text = &new_files[j].1;
                if !(*old_text == *new_text) {
                    assert(fits(ov[i as int].1));
                    assert(fits(nv[j as int].1));
                    let (added, removed) = calculate_diff_stats(old_text, new_text);
                    Some(FileStatus::Modified(p.clone(), added, removed))
                } else {
                    None
                }
            },
            None => None,
        },
        None => None,
    }
}

/// The modification records of the common paths.
pub fn check_modifications(
    new_files: &Vec<(String, String)>,
    old_files: &Vec<(String, String)>,
    common: &Vec<String>,
) -> (r: Vec<FileStatus>)
    requires
        all_fit(entries_view(new_files@)),
        all_fit(entries_view(old_files@)),
    ensures
        statuses_view(r@) == filter_map(
            paths_view(common@),
            modified_of(entries_view(new_files@), entries_view(old_files@)),
        ),
{
    let ghost nv = entries_view(new_files@);
    let ghost ov = entries_view(old_files@);
    let ghost cv = paths_view(common@);
    let found = par_map(
        common,
        (|p: &String| -> (r: Option<FileStatus>)
            requires
                all_fit(entries_view(new_files@)),
                all_fit(entries_view(old_files@)),
            ensures
                record_view(r) == modified_of(nv, ov)(p@),
        {
            modification_for(new_files, old_files, p)
        }),
    );
    let mut out: Vec<FileStatus> = Vec::new();
    let mut k: usize = 0;
    while k < found.len()
        invariant
            nv == entries_view(new_files@),
            ov == entries_view(old_files@),
            cv == paths_view(common@),
            found@.len() == common@.len(),
            forall|i: int| 0 <= i < common@.len() ==> record_view(#[trigger] found@[i]) == modified_of(nv, ov)(common@[i]@),
            k <= found.len(),
            statuses_view(out@) == filter_map(cv.take(k as int), modified_of(nv, ov)),
        decreases found.len() - k,
    {
        proof {
            lemma_filter_map_step(cv, modified_of(nv, ov), k as int);
        }
        let ghost before = out@;
        match &found[k] {
            Some(x) => {
                out.push(x.clone_status());
                assert(statuses_view(out@) =~= statuses_view(before).push(x@));
            },
            None => {},
        }
        k = k + 1;
    }
    assert(cv.take(k as int) =~= cv);
    out
}

/// The best match for `target` among the first `n` paths of `pool`: the
/// index in `sources` and the score of the first path whose content scores
/// highest, strictly above one half.
pub open spec fn best_upto(target: Text, pool: Seq<Text>, sources: Seq<(Text, Text)>, n: int) -> Option<(int, Similarity)>
    decreases n,
{
    if n <= 0 {
        None
    } else {
        let prev = best_upto(target, pool, sources, n - 1);
        match find(sources, pool[n - 1]) {
            Some(i) => {
                let sc = similarity(sources[i].1, target);
                if sc.above_half() && (prev is None || sc.gt(prev->Some_0.1)) {
                    Some((i, sc))
                } else {
                    prev
                }
            },
            None => prev,
        }
    }
}

/// The best match for `target` among all paths of `pool`.
pub open spec fn best_match(target: Text, pool: Seq<Text>, sources: Seq<(Text, Text)>) -> Option<(int, Similarity)> {
    best_upto(target, pool, sources, pool.len() as int)
}

/// A match as the specifications see it.
pub open spec fn match_view(m: Option<(usize, Similarity)>) -> Option<(int, Similarity)> {
    match m {
        Some((i, s)) => Some((i as int, s)),
        None => None,
    }
}

/// Finds, among the paths `candidates` with content in `sources`, the one
/// most similar to `target_content`, if any scores above one half.
pub fn find_best_match(
    target_content: &String,
    candidates: &Vec<String>,
    sources: &Vec<(String, String)>,
) -> (r: Option<(usize, Similarity)>)
    requires
        fits(target_content@),
        all_fit(entries_view(sources@)),
    ensures
        match_view(r) == best_match(target_content@, paths_view(candidates@), entries_view(sources@)),
        r matches Some((i, s)) ==> i < sources@.len() && s.wf(),
{
    let ghost sv = entries_view(sources@);
    let ghost pv = paths_view(candidates@);
    let mut best: Option<(usize, Similarity)> = None;
    let mut k: usize = 0;
    while k < candidates.len()
        invariant
            sv == entries_view(sources@),
            pv == paths_view(candidates@),
            fits(target_content@),
            all_fit(sv),
            k <= candidates.len(),
            match_view(best) == best_upto(target_content@, pv, sv, k as int),
            best matches Some((i, s)) ==> i < sources@.len() && s.wf(),
        decreases candidates.len() - k,
    {
        match find_entry(sources, &candidates[k]) {
            Some(i) => {
                assert(fits(sv[i as int].1));
                let score = calculate_similarity(&sources[i].1, target_content);
                if score.is_above_half() {
                    match best {
                        Some((_, s)) => {
                            if score.greater_than(&s) {
                                best = Some((i, score));
                            }
                        },
                        None => {
                            best = Some((i, score));
                        },
                    }
                }
            },
            None => {},
        }
        k = k + 1;
    }
    best
}

/// A rename candidate: index of the added path in the new snapshot, index of
/// the deleted path in the old one, and their score.
pub type Candidate = (int, int, Similarity);

/// Candidates as the specifications see them.
pub open spec fn candidates_view(v: Seq<(usize, usize, Similarity)>) -> Seq<Candidate> {
    v.map_values(|c: (usize, usize, Similarity)| (c.0 as int, c.1 as int, c.2))
}

/// The rename candidate of an added path: its best match among the deleted paths.
pub open spec fn candidate_of(new: Seq<(Text, Text)>, old: Seq<(Text, Text)>, deleted: Seq<Text>) -> spec_fn(Text) -> Option<Candidate> {
    |a: Text|
        match find(new, a) {
            Some(j) => match best_match(new[j].1, deleted, old) {
                Some((i, s)) => Some((j, i, s)),
                None => None,
            },
            None => None,
        }
}

/// Candidates that index both snapshots and carry a valid score.
pub open spec fn candidates_ok(v: Seq<(usize, usize, Similarity)>, n_new: nat, n_old: nat) -> bool {
    forall|k: int| 0 <= k < v.len() ==> (#[trigger] v[k]).0 < n_new && v[k].1 < n_old && v[k].2.wf()
}

/// Relies on rayon: `par_iter` over a `Vec` followed by `map` and `collect`
/// into a `Vec` yields `f` of each element, in the order of the elements.
#[verifier::external_body]
fn par_map<T: Send, F: Fn(&String) -> T + Sync + Send>(v: &Vec<String>, f: F) -> (r: Vec<T>)
    requires
        forall|i: int| 0 <= i < v@.len() ==> f.requires((&v@[i],)),
    ensures
        r@.len() == v@.len(),
        forall|i: int| 0 <= i < v@.len() ==> f.ensures((&v@[i],), #[trigger] r@[i]),
{
    v.par_iter().map(f).collect()
}

/// A candidate as the specifications see it.
pub open spec fn candidate_view(c: Option<(usize, usize, Similarity)>) -> Option<Candidate> {
    match c {
        Some(c) => Some((c.0 as int, c.1 as int, c.2)),
        None => None,
    }
}

/// A candidate, if any, that indexes both snapshots and carries a valid score.
pub open spec fn candidate_in(c: Option<(usize, usize, Similarity)>, n_new: nat, n_old: nat) -> bool {
    match c {
        Some(c) => c.0 < n_new && c.1 < n_old && c.2.wf(),
        None => true,
    }
}

/// The rename candidate of the added path `a`.
pub fn candidate_for(
    new_files: &Vec<(String, String)>,
    old_files: &Vec<(String, String)>,
    deleted: &Vec<String>,
    a: &String,
) -> (r: Option<(usize, usize, Similarity)>)
    requires
        all_fit(entries_view(new_files@)),
        all_fit(entries_view(old_files@)),
    ensures
        candidate_view(r) == candidate_of(entries_view(new_files@), entries_view(old_files@), paths_view(deleted@))(a@),
        candidate_in(r, new_files@.len(), old_files@.len()),
{
    let ghost nv = entries_view(new_files@);
    match find_entry(new_files, a) {
        Some(j) => {
            assert(fits(nv[j as int].1));
            match find_best_match(&new_files[j].1, deleted, old_files) {
                Some((i, s)) => Some((j, i, s)),
                None => None,
            }
        },
        None => None,
    }
}

/// The rename candidate of each added path, in the order of `added`.
pub fn rename_candidates(
    new_files: &Vec<(String, String)>,
    old_files: &Vec<(String, String)>,
    added: &Vec<String>,
    deleted: &Vec<String>,
) -> (r: Vec<(usize, usize, Similarity)>)
    requires
        all_fit(entries_view(new_files@)),
        all_fit(entries_view(old_files@)),
    ensures
        candidates_view(r@) == filter_map(
            paths_view(added@),
            candidate_of(entries_view(new_files@), entries_view(old_files@), paths_view(deleted@)),
        ),
        candidates_ok(r@, new_files@.len(), old_files@.len()),
{
    let ghost nv = entries_view(new_files@);
    let ghost ov = entries_view(old_files@);
    let ghost av = paths_view(added@);
    let ghost dv = paths_view(deleted@);
    let found = par_map(
        added,
        (|a: &String| -> (r: Option<(usize, usize, Similarity)>)
            requires
                all_fit(entries_view(new_files@)),
                all_fit(entries_view(old_files@)),
            ensures
                candidate_view(r) == candidate_of(nv, ov, dv)(a@),
                candidate_in(r, new_files@.len(), old_files@.len()),
        {
            candidate_for(new_files, old_files, deleted, a)
        }),
    );
    let mut out: Vec<(usize, usize, Similarity)> = Vec::new();
    let mut k: usize = 0;
    while k < found.len()
        invariant
            nv == entries_view(new_files@),
            ov == entries_view(old_files@),
            av == paths_view(added@),
            dv == paths_view(deleted@),
            found@.len() == added@.len(),
            forall|i: int| 0 <= i < added@.len() ==> candidate_view(#[trigger] found@[i]) == candidate_of(nv, ov, dv)(added@[i]@)
                && candidate_in(found@[i], new_files@.len(), old_files@.len()),
            k <= found.len(),
            candidates_view(out@) == filter_map(av.take(k as int), candidate_of(nv, ov, dv)),
            candidates_ok(out@, new_files@.len(), old_files@.len()),
        decreases found.len() - k,
    {
        proof {
            lemma_filter_map_step(av, candidate_of(nv, ov, dv), k as int);
        }
        let ghost before = out@;
        match found[k] {
            Some(c) => {
                out.push(c);
                assert(candidates_view(out@) =~= candidates_view(before).push((c.0 as int, c.1 as int, c.2)));
            },
            None => {},
        }
        k = k + 1;
    }
    assert(found@.len() == added@.len());
    assert(av.take(k as int) =~= av);
    out
}

/// Inserts `c` into `s` after every candidate that scores at least as high.
pub open spec fn insert_by_score(s: Seq<Candidate>, c: Candidate) -> Seq<Candidate>
    decreases s.len(),
{
    if s.len() == 0 {
        seq![c]
    } else if c.2.gt(s.last().2) {
        insert_by_score(s.drop_last(), c).push(s.last())
    } else {
        s.push(c)
    }
}

/// `s` ordered by descending score; candidates of equal score keep their order.
pub open spec fn sort_by_score(s: Seq<Candidate>) -> Seq<Candidate>
    decreases s.len(),
{
    if s.len() == 0 {
        s
    } else {
        insert_by_score(sort_by_score(s.drop_last()), s.last())
    }
}

fn insert_candidate(v: &mut Vec<(usize, usize, Similarity)>, c: (usize, usize, Similarity))
    requires
        c.2.wf(),
        forall|k: int| 0 <= k < old(v)@.len() ==> (#[trigger] old(v)@[k]).2.wf(),
    ensures
        candidates_view(final(v)@) == insert_by_score(candidates_view(old(v)@), (c.0 as int, c.1 as int, c.2)),
        forall|k: int| 0 <= k < final(v)@.len() ==> #[trigger] final(v)@[k] == c || old(v)@.contains(final(v)@[k]),
{
    let ghost s = candidates_view(v@);
    let ghost cv = (c.0 as int, c.1 as int, c.2);
    let mut j: usize = v.len();
    assert(s.take(j as int) =~= s);
    assert(s.skip(j as int) =~= Seq::<Candidate>::empty());
    let mut go = j > 0 && c.2.greater_than(&v[j - 1].2);
    while go
        invariant
            go ==> j > 0 && cv.2.gt(s[j as int - 1].2),
            !go ==> j == 0 || !cv.2.gt(s[j as int - 1].2),
            cv == (c.0 as int, c.1 as int, c.2),
            s == candidates_view(v@),
            j <= v@.len(),
            c.2.wf(),
            forall|k: int| 0 <= k < v@.len() ==> (#[trigger] v@[k]).2.wf(),
            insert_by_score(s, cv) == insert_by_score(s.take(j as int), cv) + s.skip(j as int),
        decreases j,
    {
        assert(s.take(j as int).drop_last() =~= s.take(j as int - 1));
        assert(s.take(j as int).last() == s[j as int - 1]);
        assert(s[j as int - 1].2 == v@[j as int - 1].2);
        assert(cv.2.gt(s[j as int - 1].2));
        assert(insert_by_score(s.take(j as int), cv) == insert_by_score(s.take(j as int - 1), cv).push(
            s[j as int - 1],
        ));
        assert(insert_by_score(s.take(j as int - 1), cv).push(s[j as int - 1]) + s.skip(j as int)
            =~= insert_by_score(s.take(j as int - 1), cv) + s.skip(j as int - 1));
        j = j - 1;
        go = j > 0 && c.2.greater_than(&v[j - 1].2);
    }
    proof {
        if j > 0 {
            assert(s.take(j as int).last() == s[j as int - 1]);
        }
    }
    let ghost old_v = v@;
    v.insert(j, c);
    assert(candidates_view(v@) =~= s.take(j as int).push(cv) + s.skip(j as int));
    assert forall|k: int| 0 <= k < v@.len() implies #[trigger] v@[k] == c || old_v.contains(v@[k]) by {
        if k < j {
            assert(old_v[k] == v@[k]);
        } else if k > j {
            assert(old_v[k - 1] == v@[k]);
        }
    }
}


/// The candidates in descending order of score, stable among equal scores.
pub fn sort_candidates(v: &Vec<(usize, usize, Similarity)>) -> (r: Vec<(usize, usize, Similarity)>)
    requires
        forall|k: int| 0 <= k < v@.len() ==> (#[trigger] v@[k]).2.wf(),
    ensures
        candidates_view(r@) == sort_by_score(candidates_view(v@)),
        forall|k: int| 0 <= k < r@.len() ==> v@.contains(#[trigger] r@[k]),
{
    let ghost cv = candidates_view(v@);
    let mut out: Vec<(usize, usize, Similarity)> = Vec::new();
    let mut i: usize = 0;
    while i < v.len()
        invariant
            cv == candidates_view(v@),
            forall|k: int| 0 <= k < v@.len() ==> (#[trigger] v@[k]).2.wf(),
            i <= v.len(),
            candidates_view(out@) == sort_by_score(cv.take(i as int)),
            forall|k: int| 0 <= k < out@.len() ==> v@.contains(#[trigger] out@[k]),
        decreases v.len() - i,
    {
        assert(cv.take(i as int + 1).drop_last() =~= cv.take(i as int));
        assert forall|k: int| 0 <= k < out@.len() implies (#[trigger] out@[k]).2.wf() by {
            let w = choose|w: int| 0 <= w < v@.len() && v@[w] == out@[k];
        }
        let ghost before = out@;
        insert_candidate(&mut out, v[i]);
        assert forall|k: int| 0 <= k < out@.len() implies v@.contains(#[trigger] out@[k]) by {
            if out@[k] != v@[i as int] {
                assert(before.contains(out@[k]));
                let w = choose|w: int| 0 <= w < before.len() && before[w] == out@[k];
                assert(v@.contains(before[w]));
            }
        }
        i = i + 1;
    }
    assert(cv.take(i as int) =~= cv);
    out
}

/// The greedy walk over the sorted candidates: each candidate whose two paths
/// are both still unclaimed becomes a rename and claims them. The result is
/// the claimed new paths, the claimed old paths and the renames.
pub open spec fn rename_walk(new: Seq<(Text, Text)>, old: Seq<(Text, Text)>, cands: Seq<Candidate>, n: int) -> (Seq<Text>, Seq<Text>, Seq<StatusView>)
    decreases n,
{
    if n <= 0 {
        (Seq::empty(), Seq::empty(), Seq::empty())
    } else {
        let prev = rename_walk(new, old, cands, n - 1);
        let c = cands[n - 1];
        let a = new[c.0].0;
        let d = old[c.1].0;
        if !prev.0.contains(a) && !prev.1.contains(d) {
            let st = diff_stats(old[c.1].1, new[c.0].1);
            (prev.0.push(a), prev.1.push(d), prev.2.push(StatusView::Renamed { old: d, new: a, added: st.0, removed: st.1 }))
        } else {
            prev
        }
    }
}

/// Walks the sorted candidates and commits the renames.
pub fn resolve_renames(
    new_files: &Vec<(String, String)>,
    old_files: &Vec<(String, String)>,
    cands: &Vec<(usize, usize, Similarity)>,
) -> (r: (Vec<String>, Vec<String>, Vec<FileStatus>))
    requires
        all_fit(entries_view(new_files@)),
        all_fit(entries_view(old_files@)),
        candidates_ok(cands@, new_files@.len(), old_files@.len()),
    ensures
        (paths_view(r.0@), paths_view(r.1@), statuses_view(r.2@)) == rename_walk(
            entries_view(new_files@),
            entries_view(old_files@),
            candidates_view(cands@),
            cands@.len() as int,
        ),
{
    let ghost nv = entries_view(new_files@);
    let ghost ov = entries_view(old_files@);
    let ghost cv = candidates_view(cands@);
    let mut claimed_new: Vec<String> = Vec::new();
    let mut claimed_old: Vec<String> = Vec::new();
    let mut renames: Vec<FileStatus> = Vec::new();
    let mut i: usize = 0;
    while i < cands.len()
        invariant
            nv == entries_view(new_files@),
            ov == entries_view(old_files@),
            cv == candidates_view(cands@),
            all_fit(nv),
            all_fit(ov),
            candidates_ok(cands@, new_files@.len(), old_files@.len()),
            i <= cands.len(),
            (paths_view(claimed_new@), paths_view(claimed_old@), statuses_view(renames@))
                == rename_walk(nv, ov, cv, i as int),
        decreases cands.len() - i,
    {
        let (j, k, _) = cands[i];
        let a = &new_files[j].0;
        let d = &old_files[k].0;
        if !contains_path(&claimed_new, a) && !contains_path(&claimed_old, d) {
            assert(fits(ov[k as int].1));
            assert(fits(nv[j as int].1));
            let (added, removed) = calculate_diff_stats(&old_files[k].1, &new_files[j].1);
            let ghost (n0, o0, r0) = (claimed_new@, claimed_old@, renames@);
            claimed_new.push(a.clone());
            claimed_old.push(d.clone());
            renames.push(FileStatus::Renamed { old: d.clone(), new: a.clone(), added, removed });
            assert(paths_view(claimed_new@) =~= paths_view(n0).push(a@));
            assert(paths_view(claimed_old@) =~= paths_view(o0).push(d@));
            assert(statuses_view(renames@) =~= statuses_view(r0).push(
                StatusView::Renamed { old: d@, new: a@, added, removed },
            ));
        }
        i = i + 1;
    }
    (claimed_new, claimed_old, renames)
}

/// The paths of a snapshot, in order.
pub open spec fn keys(s: Seq<(Text, Text)>) -> Seq<Text> {
    s.map_values(|e: (Text, Text)| e.0)
}

/// Keeps the paths that `claimed` does not hold.
pub open spec fn unclaimed(claimed: Seq<Text>) -> spec_fn(Text) -> Option<Text> {
    |p: Text| if claimed.contains(p) { None } else { Some(p) }
}

/// The copy record of an added path: its best match among all old paths,
/// unless that is the path itself.
pub open spec fn copy_of(new: Seq<(Text, Text)>, old: Seq<(Text, Text)>) -> spec_fn(Text) -> Option<StatusView> {
    |a: Text|
        match find(new, a) {
            Some(j) => match best_match(new[j].1, keys(old), old) {
                Some((i, _)) => if old[i].0 != a {
                    let st = diff_stats(old[i].1, new[j].1);
                    Some(StatusView::Copied { src: old[i].0, dest: a, added: st.0, removed: st.1 })
                } else {
                    None
                },
                None => None,
            },
            None => None,
        }
}

/// Number of lines of the content of `p` in `s`; 0 where `s` lacks it.
pub open spec fn lines_in(s: Seq<(Text, Text)>, p: Text) -> u32 {
    match find(s, p) {
        Some(j) => line_count(s[j].1) as u32,
        None => 0,
    }
}

/// An added path that no copy claims stays added.
pub open spec fn added_flush(new: Seq<(Text, Text)>, old: Seq<(Text, Text)>) -> spec_fn(Text) -> Option<StatusView> {
    |a: Text| if copy_of(new, old)(a) is Some { None } else { Some(StatusView::Added(a, lines_in(new, a))) }
}

/// A deleted path that no rename claims stays deleted.
pub open spec fn deleted_flush(old: Seq<(Text, Text)>, claimed: Seq<Text>) -> spec_fn(Text) -> Option<StatusView> {
    |d: Text| if claimed.contains(d) { None } else { Some(StatusView::Deleted(d, lines_in(old, d))) }
}

/// Number of lines of the content of entry `j`.
fn entry_lines(v: &Vec<(String, String)>, j: usize) -> (r: u32)
    requires
        j < v@.len(),
        fits(v@[j as int].1@),
    ensures
        r == line_count(v@[j as int].1@) as u32,
        r == line_count(v@[j as int].1@),
{
    let n = count_lines(v[j].1.as_str());
    n as u32
}

/// The paths of `v`, in order.
fn entry_paths(v: &Vec<(String, String)>) -> (r: Vec<String>)
    ensures
        paths_view(r@) == keys(entries_view(v@)),
{
    let mut out: Vec<String> = Vec::new();
    let mut i: usize = 0;
    while i < v.len()
        invariant
            i <= v.len(),
            paths_view(out@) == keys(entries_view(v@)).take(i as int),
        decreases v.len() - i,
    {
        let ghost before = out@;
        out.push(v[i].0.clone());
        assert(paths_view(out@) =~= paths_view(before).push(v@[i as int].0@));
        assert(keys(entries_view(v@))[i as int] == v@[i as int].0@);
        assert(paths_view(out@) =~= keys(entries_view(v@)).take(i as int + 1));
        i = i + 1;
    }
    assert(keys(entries_view(v@)).take(i as int) =~= keys(entries_view(v@)));
    out
}

/// The paths of `v` that `claimed` does not hold, in order.
fn unclaimed_paths(v: &Vec<String>, claimed: &Vec<String>) -> (r: Vec<String>)
    ensures
        paths_view(r@) == filter_map(paths_view(v@), unclaimed(paths_view(claimed@))),
{
    let ghost pv = paths_view(v@);
    let ghost f = unclaimed(paths_view(claimed@));
    let mut out: Vec<String> = Vec::new();
    let mut i: usize = 0;
    while i < v.len()
        invariant
            pv == paths_view(v@),
            f == unclaimed(paths_view(claimed@)),
            i <= v.len(),
            paths_view(out@) == filter_map(pv.take(i as int), f),
        decreases v.len() - i,
    {
        proof {
            lemma_filter_map_step(pv, f, i as int);
        }
        let ghost before = out@;
        if !contains_path(claimed, &v[i]) {
            out.push(v[i].clone());
            assert(paths_view(out@) =~= paths_view(before).push(v@[i as int]@));
        }
        i = i + 1;
    }
    assert(pv.take(i as int) =~= pv);
    out
}

/// The record of the unclaimed added path `a`, and whether it is a copy: a
/// copy record where `a` has one, else an addition.
pub fn copy_or_added(
    new_files: &Vec<(String, String)>,
    old_files: &Vec<(String, String)>,
    sources: &Vec<String>,
    a: &String,
) -> (r: (FileStatus, bool))
    requires
        all_fit(entries_view(new_files@)),
        all_fit(entries_view(old_files@)),
        paths_view(sources@) == keys(entries_view(old_files@)),
    ensures
        r.1 ==> copy_of(entries_view(new_files@), entries_view(old_files@))(a@) == Some(r.0@),
        !r.1 ==> added_flush(entries_view(new_files@), entries_view(old_files@))(a@) == Some(r.0@),
{
    let ghost nv = entries_view(new_files@);
    let ghost ov = entries_view(old_files@);
    match find_entry(new_files, a) {
        Some(j) => {
            assert(fits(nv[j as int].1));
            match find_best_match(&new_files[j].1, sources, old_files) {
                Some((k, _)) => {
                    if !(old_files[k].0 == *a) {
                        assert(fits(ov[k as int].1));
                        let (added, removed) = calculate_diff_stats(&old_files[k].1, &new_files[j].1);
                        return (
                            FileStatus::Copied { src: old_files[k].0.clone(), dest: a.clone(), added, removed },
                            true,
                        );
                    }
                },
                None => {},
            }
            let n = entry_lines(new_files, j);
            (FileStatus::Added(a.clone(), n), false)
        },
        None => (FileStatus::Added(a.clone(), 0), false),
    }
}

/// For each path of `rest`: a copy record where it has one, else an addition.
pub fn detect_copies(
    new_files: &Vec<(String, String)>,
    old_files: &Vec<(String, String)>,
    rest: &Vec<String>,
) -> (r: (Vec<FileStatus>, Vec<FileStatus>))
    requires
        all_fit(entries_view(new_files@)),
        all_fit(entries_view(old_files@)),
    ensures
        statuses_view(r.0@) == filter_map(
            paths_view(rest@),
            copy_of(entries_view(new_files@), entries_view(old_files@)),
        ),
        statuses_view(r.1@) == filter_map(
            paths_view(rest@),
            added_flush(entries_view(new_files@), entries_view(old_files@)),
        ),
{
    let ghost nv = entries_view(new_files@);
    let ghost ov = entries_view(old_files@);
    let ghost rv = paths_view(rest@);
    let sources = entry_paths(old_files);
    let found = par_map(
        rest,
        (|a: &String| -> (r: (FileStatus, bool))
            requires
                all_fit(entries_view(new_files@)),
                all_fit(entries_view(old_files@)),
                paths_view(sources@) == keys(entries_view(old_files@)),
            ensures
                r.1 ==> copy_of(nv, ov)(a@) == Some(r.0@),
                !r.1 ==> added_flush(nv, ov)(a@) == Some(r.0@),
        {
            copy_or_added(new_files, old_files, &sources, a)
        }),
    );
    let mut copies: Vec<FileStatus> = Vec::new();
    let mut fresh: Vec<FileStatus> = Vec::new();
    let mut i: usize = 0;
    while i < found.len()
        invariant
            nv == entries_view(new_files@),
            ov == entries_view(old_files@),
            rv == paths_view(rest@),
            found@.len() == rest@.len(),
            forall|k: int| 0 <= k < rest@.len() ==> ((#[trigger] found@[k]).1 ==> copy_of(nv, ov)(rest@[k]@) == Some(found@[k].0@))
                && (!found@[k].1 ==> added_flush(nv, ov)(rest@[k]@) == Some(found@[k].0@)),
            i <= found.len(),
            statuses_view(copies@) == filter_map(rv.take(i as int), copy_of(nv, ov)),
            statuses_view(fresh@) == filter_map(rv.take(i as int), added_flush(nv, ov)),
        decreases found.len() - i,
    {
        proof {
            lemma_filter_map_step(rv, copy_of(nv, ov), i as int);
            lemma_filter_map_step(rv, added_flush(nv, ov), i as int);
        }
        let ghost c0 = copies@;
        let ghost f0 = fresh@;
        let (status, is_copy) = (found[i].0.clone_status(), found[i].1);
        if is_copy {
            assert(added_flush(nv, ov)(rv[i as int]) is None);
            copies.push(status);
            assert(statuses_view(copies@) =~= statuses_view(c0).push(found@[i as int].0@));
        } else {
            assert(copy_of(nv, ov)(rv[i as int]) is None);
            fresh.push(status);
            assert(statuses_view(fresh@) =~= statuses_view(f0).push(found@[i as int].0@));
        }
        i = i + 1;
    }
    assert(rv.take(i as int) =~= rv);
    (copies, fresh)
}

/// The deletion record of each deleted path that no rename claimed.
pub fn flush_deleted(
    old_files: &Vec<(String, String)>,
    deleted: &Vec<String>,
    claimed: &Vec<String>,
) -> (r: Vec<FileStatus>)
    requires
        all_fit(entries_view(old_files@)),
    ensures
        statuses_view(r@) == filter_map(
            paths_view(deleted@),
            deleted_flush(entries_view(old_files@), paths_view(claimed@)),
        ),
{
    let ghost ov = entries_view(old_files@);
    let ghost dv = paths_view(deleted@);
    let ghost f = deleted_flush(ov, paths_view(claimed@));
    let mut out: Vec<FileStatus> = Vec::new();
    let mut i: usize = 0;
    while i < deleted.len()
        invariant
            ov == entries_view(old_files@),
            dv == paths_view(deleted@),
            f == deleted_flush(ov, paths_view(claimed@)),
            all_fit(ov),
            i <= deleted.len(),
            statuses_view(out@) == filter_map(dv.take(i as int), f),
        decreases deleted.len() - i,
    {
        proof {
            lemma_filter_map_step(dv, f, i as int);
        }
        let ghost before = out@;
        let d = &deleted[i];
        if !contains_path(claimed, d) {
            let n = match find_entry(old_files, d) {
                Some(k) => {
                    assert(fits(ov[k as int].1));
                    entry_lines(old_files, k)
                },
                None => 0,
            };
            out.push(FileStatus::Deleted(d.clone(), n));
            assert(statuses_view(out@) =~= statuses_view(before).push(StatusView::Deleted(d@, n)));
        }
        i = i + 1;
    }
    assert(dv.take(i as int) =~= dv);
    out
}


/// The path a record is filed under.
pub fn get_sort_key(status: &FileStatus) -> (r: &String)
    ensures
        r@ == target(status@),
{
    match status {
        FileStatus::Added(p, _) => p,
        FileStatus::Deleted(p, _) => p,
        FileStatus::Modified(p, _, _) => p,
        FileStatus::Renamed { new, .. } => new,
        FileStatus::Copied { dest, .. } => dest,
    }
}

/// Inserts `x` into `s` after every record filed under a path not above its own.
pub open spec fn insert_by_target(s: Seq<StatusView>, x: StatusView) -> Seq<StatusView>
    decreases s.len(),
{
    if s.len() == 0 {
        seq![x]
    } else if text_le(target(s.last()), target(x)) {
        s.push(x)
    } else {
        insert_by_target(s.drop_last(), x).push(s.last())
    }
}

/// `s` in lexical order of target path; records under equal paths keep their order.
pub open spec fn sort_by_target(s: Seq<StatusView>) -> Seq<StatusView>
    decreases s.len(),
{
    if s.len() == 0 {
        s
    } else {
        insert_by_target(sort_by_target(s.drop_last()), s.last())
    }
}

fn insert_record(v: &mut Vec<FileStatus>, x: FileStatus)
    ensures
        statuses_view(final(v)@) == insert_by_target(statuses_view(old(v)@), x@),
{
    let ghost s = statuses_view(v@);
    let ghost xv = x@;
    let mut j: usize = v.len();
    assert(s.take(j as int) =~= s);
    assert(s.skip(j as int) =~= Seq::<StatusView>::empty());
    let mut go = j > 0 && !text_le_exec(get_sort_key(&v[j - 1]).as_str(), get_sort_key(&x).as_str());
    while go
        invariant
            go ==> j > 0 && !text_le(target(s[j as int - 1]), target(xv)),
            !go ==> j == 0 || text_le(target(s[j as int - 1]), target(xv)),
            xv == x@,
            s == statuses_view(v@),
            j <= v@.len(),
            insert_by_target(s, xv) == insert_by_target(s.take(j as int), xv) + s.skip(j as int),
        decreases j,
    {
        assert(s.take(j as int).drop_last() =~= s.take(j as int - 1));
        assert(s.take(j as int).last() == s[j as int - 1]);
        assert(insert_by_target(s.take(j as int), xv) == insert_by_target(s.take(j as int - 1), xv).push(
            s[j as int - 1],
        ));
        assert(insert_by_target(s.take(j as int - 1), xv).push(s[j as int - 1]) + s.skip(j as int)
            =~= insert_by_target(s.take(j as int - 1), xv) + s.skip(j as int - 1));
        j = j - 1;
        go = j > 0 && !text_le_exec(get_sort_key(&v[j - 1]).as_str(), get_sort_key(&x).as_str());
    }
    proof {
        if j > 0 {
            assert(s.take(j as int).last() == s[j as int - 1]);
        }
    }
    v.insert(j, x);
    assert(statuses_view(v@) =~= s.take(j as int).push(xv) + s.skip(j as int));
}

/// Sorts the records by target path, keeping the order of records under equal paths.
pub fn sort_records(v: Vec<FileStatus>) -> (r: Vec<FileStatus>)
    ensures
        statuses_view(r@) == sort_by_target(statuses_view(v@)),
{
    let ghost sv = statuses_view(v@);
    let mut out: Vec<FileStatus> = Vec::new();
    let mut i: usize = 0;
    while i < v.len()
        invariant
            sv == statuses_view(v@),
            i <= v.len(),
            statuses_view(out@) == sort_by_target(sv.take(i as int)),
        decreases v.len() - i,
    {
        assert(sv.take(i as int + 1).drop_last() =~= sv.take(i as int));
        insert_record(&mut out, v[i].clone_status());
        i = i + 1;
    }
    assert(sv.take(i as int) =~= sv);
    out
}

/// All records of a run, before sorting: modifications, renames, copies,
/// additions and deletions.
pub open spec fn diff_records(new: Seq<(Text, Text)>, old: Seq<(Text, Text)>, manifest: Seq<Text>) -> Seq<StatusView> {
    let added = added_paths(new, manifest);
    let deleted = deleted_paths(new, manifest);
    let mods = filter_map(common_paths(new, manifest), modified_of(new, old));
    let cands = sort_by_score(filter_map(added, candidate_of(new, old, deleted)));
    let walk = rename_walk(new, old, cands, cands.len() as int);
    let rest = filter_map(added, unclaimed(walk.0));
    let copies = filter_map(rest, copy_of(new, old));
    let fresh = filter_map(rest, added_flush(new, old));
    let gone = filter_map(deleted, deleted_flush(old, walk.1));
    mods + walk.2 + copies + fresh + gone
}

/// The result of a run: all records in lexical order of target path.
pub open spec fn diff_result(new: Seq<(Text, Text)>, old: Seq<(Text, Text)>, manifest: Seq<Text>) -> Seq<StatusView> {
    sort_by_target(diff_records(new, old, manifest))
}

/// Classifies every path of `new_files` and of `old_manifest` as added,
/// deleted, modified, renamed or copied, with line counts, sorted by target path.
pub fn compute_diff(
    new_files: &Vec<(String, String)>,
    old_files: &Vec<(String, String)>,
    old_manifest: &Vec<String>,
) -> (r: Vec<FileStatus>)
    requires
        all_fit(entries_view(new_files@)),
        all_fit(entries_view(old_files@)),
    ensures
        statuses_view(r@) == diff_result(
            entries_view(new_files@),
            entries_view(old_files@),
            paths_view(old_manifest@),
        ),
{
    let (added, deleted, common) = classify_paths(new_files, old_manifest);
    let mods = check_modifications(new_files, old_files, &common);
    let found = rename_candidates(new_files, old_files, &added, &deleted);
    let sorted = sort_candidates(&found);
    assert forall|k: int| 0 <= k < sorted@.len() implies (#[trigger] sorted@[k]).0 < new_files@.len()
        && sorted@[k].1 < old_files@.len() && sorted@[k].2.wf() by {
        let w = choose|w: int| 0 <= w < found@.len() && found@[w] == sorted@[k];
    }
    let (claimed_new, claimed_old, renames) = resolve_renames(new_files, old_files, &sorted);
    let rest = unclaimed_paths(&added, &claimed_new);
    let (copies, fresh) = detect_copies(new_files, old_files, &rest);
    let gone = flush_deleted(old_files, &deleted, &claimed_old);
    let mut all = mods;
    let mut renames = renames;
    let mut copies = copies;
    let mut fresh = fresh;
    let mut gone = gone;
    let ghost (m0, r0, c0, f0, g0) = (all@, renames@, copies@, fresh@, gone@);
    all.append(&mut renames);
    all.append(&mut copies);
    all.append(&mut fresh);
    all.append(&mut gone);
    assert(statuses_view(all@) =~= statuses_view(m0) + statuses_view(r0) + statuses_view(c0)
        + statuses_view(f0) + statuses_view(g0));
    sort_records(all)
}

} // verus!
