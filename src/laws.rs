//! Properties of the classification that hold for all inputs.
use vstd::prelude::*;
use crate::engine::{
    added_flush, added_paths, added_step, candidate_of, common_paths, copy_of, deleted_flush,
    deleted_paths, deleted_step, diff_records, diff_result, filter_map, insert_by_target, keys,
    best_upto, common_step, find, lemma_find, lines_in, modified_of, rename_walk, sort_by_score,
    sort_by_target, unclaimed, Candidate, Text,
};
use crate::similarity::similarity;
use crate::text::{lemma_text_le_total, lemma_text_le_trans, text_le};
use crate::types::target;
use crate::types::StatusView;

verus! {

/// A `filter_map` whose function gives nothing for every element is empty.
pub proof fn lemma_filter_map_none<A, B>(s: Seq<A>, f: spec_fn(A) -> Option<B>)
    requires
        forall|i: int| 0 <= i < s.len() ==> f(#[trigger] s[i]) is None,
    ensures
        filter_map(s, f) == Seq::<B>::empty(),
    decreases s.len(),
{
    if s.len() > 0 {
        assert forall|i: int| 0 <= i < s.drop_last().len() implies f(#[trigger] s.drop_last()[i]) is None by {
            assert(s.drop_last()[i] == s[i]);
        }
        lemma_filter_map_none(s.drop_last(), f);
        assert(f(s[s.len() - 1]) is None);
    }
}

/// Every element of a `filter_map` comes from some element of the input.
pub proof fn lemma_filter_map_from<A, B>(s: Seq<A>, f: spec_fn(A) -> Option<B>, k: int)
    requires
        0 <= k < filter_map(s, f).len(),
    ensures
        exists|i: int| 0 <= i < s.len() && f(#[trigger] s[i]) == Some(filter_map(s, f)[k]),
    decreases s.len(),
{
    let p = filter_map(s.drop_last(), f);
    if k < p.len() {
        lemma_filter_map_from(s.drop_last(), f, k);
        let i = choose|i: int| 0 <= i < s.drop_last().len() && f(#[trigger] s.drop_last()[i]) == Some(p[k]);
        assert(s[i] == s.drop_last()[i]);
    } else {
        assert(f(s[s.len() - 1]) == Some(filter_map(s, f)[k]));
    }
}

/// Sorting by target path keeps exactly the records it is given.
pub proof fn lemma_sort_by_target_contains(s: Seq<StatusView>, x: StatusView)
    ensures
        sort_by_target(s).contains(x) <==> s.contains(x),
    decreases s.len(),
{
    if s.len() > 0 {
        lemma_sort_by_target_contains(s.drop_last(), x);
        lemma_insert_by_target(sort_by_target(s.drop_last()), s.last());
        let t = sort_by_target(s.drop_last());
        let k = choose|k: int| 0 <= k <= t.len() && insert_by_target(t, s.last()) == t.insert(k, s.last());
        if s.contains(x) {
            let i = choose|i: int| 0 <= i < s.len() && s[i] == x;
            if i < s.len() - 1 {
                assert(s.drop_last()[i] == x);
                let j = choose|j: int| 0 <= j < t.len() && t[j] == x;
                if j < k {
                    assert(t.insert(k, s.last())[j] == x);
                } else {
                    assert(t.insert(k, s.last())[j + 1] == x);
                }
            } else {
                assert(t.insert(k, s.last())[k] == x);
            }
        }
        if sort_by_target(s).contains(x) {
            let j = choose|j: int| 0 <= j < t.len() + 1 && t.insert(k, s.last())[j] == x;
            if j < k {
                assert(t[j] == x);
            } else if j > k {
                assert(t[j - 1] == x);
            }
            if x != s.last() {
                let i = choose|i: int| 0 <= i < s.drop_last().len() && s.drop_last()[i] == x;
                assert(s[i] == x);
            } else {
                assert(s[s.len() - 1] == x);
            }
        }
    }
}

/// Inserting by target path puts the record at one position and moves nothing else.
pub proof fn lemma_insert_by_target(s: Seq<StatusView>, x: StatusView)
    ensures
        exists|k: int| 0 <= k <= s.len() && insert_by_target(s, x) == s.insert(k, x),
    decreases s.len(),
{
    if s.len() == 0 {
        assert(insert_by_target(s, x) =~= s.insert(0, x));
    } else if crate::text::text_le(crate::types::target(s.last()), crate::types::target(x)) {
        assert(insert_by_target(s, x) =~= s.insert(s.len() as int, x));
    } else {
        lemma_insert_by_target(s.drop_last(), x);
        let k = choose|k: int| 0 <= k <= s.drop_last().len() && insert_by_target(s.drop_last(), x) == s.drop_last().insert(k, x);
        assert(insert_by_target(s, x) =~= s.insert(k, x));
    }
}

/// Two results of a run on the same snapshots and manifest are the same list,
/// in the same order.
pub proof fn lemma_deterministic(
    new: Seq<(Text, Text)>,
    old: Seq<(Text, Text)>,
    manifest: Seq<Text>,
    r1: Seq<StatusView>,
    r2: Seq<StatusView>,
)
    requires
        r1 == diff_result(new, old, manifest),
        r2 == diff_result(new, old, manifest),
    ensures
        r1 == r2,
{
}

/// Comparing a snapshot with itself, under a manifest of exactly its paths,
/// reports nothing.
pub proof fn lemma_identical_snapshots(files: Seq<(Text, Text)>, manifest: Seq<Text>)
    requires
        manifest == keys(files),
    ensures
        diff_result(files, files, manifest) == Seq::<StatusView>::empty(),
{
    assert forall|i: int| 0 <= i < files.len() implies (#[trigger] added_step(manifest)(files[i])) is None by {
        assert(manifest[i] == files[i].0);
    }
    lemma_filter_map_none(files, added_step(manifest));
    assert forall|i: int| 0 <= i < manifest.len() implies (#[trigger] deleted_step(files)(manifest[i])) is None by {
        lemma_find(files, manifest[i]);
        assert(keys(files)[i] == manifest[i]);
    }
    lemma_filter_map_none(manifest, deleted_step(files));
    let common = common_paths(files, manifest);
    assert forall|i: int| 0 <= i < common.len() implies (#[trigger] modified_of(files, files)(common[i])) is None by {
    }
    lemma_filter_map_none(common, modified_of(files, files));
    let added = added_paths(files, manifest);
    let deleted = deleted_paths(files, manifest);
    assert(added == Seq::<Text>::empty());
    assert(deleted == Seq::<Text>::empty());
    let e: Seq<Candidate> = Seq::empty();
    assert(sort_by_score(e) == e);
    let recs = diff_records(files, files, manifest);
    assert(recs =~= Seq::<StatusView>::empty());
}


/// Two records do not both rename with a shared old or new path.
pub open spec fn renames_apart(x: StatusView, y: StatusView) -> bool {
    match (x, y) {
        (
            StatusView::Renamed { old: o1, new: n1, .. },
            StatusView::Renamed { old: o2, new: n2, .. },
        ) => o1 != o2 && n1 != n2,
        _ => true,
    }
}

/// No two records at different positions rename with a shared path.
pub open spec fn all_renames_apart(s: Seq<StatusView>) -> bool {
    forall|i: int, j: int|
        0 <= i < s.len() && 0 <= j < s.len() && i != j ==> renames_apart(#[trigger] s[i], #[trigger] s[j])
}

/// No deletion names the old path of a rename.
pub open spec fn rename_sources_kept(s: Seq<StatusView>) -> bool {
    forall|i: int, j: int|
        0 <= i < s.len() && 0 <= j < s.len() && (#[trigger] s[i]) is Renamed && (#[trigger] s[j]) is Deleted
            ==> s[j]->Deleted_0 != s[i]->Renamed_old
}

proof fn lemma_walk(new: Seq<(Text, Text)>, old: Seq<(Text, Text)>, cands: Seq<Candidate>, n: int)
    ensures
        ({
            let w = rename_walk(new, old, cands, n);
            &&& forall|k: int| 0 <= k < w.2.len() ==> (#[trigger] w.2[k]) is Renamed
                && w.0.contains(w.2[k]->Renamed_new) && w.1.contains(w.2[k]->Renamed_old)
            &&& all_renames_apart(w.2)
        }),
    decreases n,
{
    if n > 0 {
        lemma_walk(new, old, cands, n - 1);
        let prev = rename_walk(new, old, cands, n - 1);
        let w = rename_walk(new, old, cands, n);
        if w != prev {
            let x = w.2.last();
            assert forall|k: int| 0 <= k < w.2.len() implies (#[trigger] w.2[k]) is Renamed
                && w.0.contains(w.2[k]->Renamed_new) && w.1.contains(w.2[k]->Renamed_old) by {
                if k < prev.2.len() {
                    assert(w.2[k] == prev.2[k]);
                    let a = choose|a: int| 0 <= a < prev.0.len() && prev.0[a] == prev.2[k]->Renamed_new;
                    assert(w.0[a] == prev.0[a]);
                    let b = choose|b: int| 0 <= b < prev.1.len() && prev.1[b] == prev.2[k]->Renamed_old;
                    assert(w.1[b] == prev.1[b]);
                } else {
                    assert(w.0[prev.0.len() as int] == x->Renamed_new);
                    assert(w.1[prev.1.len() as int] == x->Renamed_old);
                }
            }
            assert forall|i: int, j: int|
                0 <= i < w.2.len() && 0 <= j < w.2.len() && i != j implies renames_apart(#[trigger] w.2[i], #[trigger] w.2[j]) by {
                let last = prev.2.len() as int;
                if i < last && j < last {
                    assert(w.2[i] == prev.2[i] && w.2[j] == prev.2[j]);
                } else if i == last {
                    assert(w.2[j] == prev.2[j]);
                    assert(prev.0.contains(prev.2[j]->Renamed_new));
                    assert(prev.1.contains(prev.2[j]->Renamed_old));
                } else {
                    assert(w.2[i] == prev.2[i]);
                    assert(prev.0.contains(prev.2[i]->Renamed_new));
                    assert(prev.1.contains(prev.2[i]->Renamed_old));
                }
            }
        }
    }
}

/// Renaming is kept apart across sorting.
proof fn lemma_sort_apart(s: Seq<StatusView>)
    requires
        all_renames_apart(s),
    ensures
        all_renames_apart(sort_by_target(s)),
    decreases s.len(),
{
    if s.len() > 0 {
        let d = s.drop_last();
        let x = s.last();
        assert forall|i: int, j: int| 0 <= i < d.len() && 0 <= j < d.len() && i != j implies renames_apart(#[trigger] d[i], #[trigger] d[j]) by {
            assert(d[i] == s[i] && d[j] == s[j]);
        }
        lemma_sort_apart(d);
        let t = sort_by_target(d);
        lemma_insert_by_target(t, x);
        let k = choose|k: int| 0 <= k <= t.len() && insert_by_target(t, x) == t.insert(k, x);
        assert forall|m: int| 0 <= m < t.len() implies renames_apart(#[trigger] t[m], x) && renames_apart(x, t[m]) by {
            assert(t.contains(t[m]));
            lemma_sort_by_target_contains(d, t[m]);
            let i = choose|i: int| 0 <= i < d.len() && d[i] == t[m];
            assert(s[i] == t[m]);
            assert(s[s.len() - 1] == x);
            assert(renames_apart(s[i], s[s.len() - 1]));
            assert(renames_apart(s[s.len() - 1], s[i]));
        }
        let u = t.insert(k, x);
        assert forall|i: int, j: int| 0 <= i < u.len() && 0 <= j < u.len() && i != j implies renames_apart(#[trigger] u[i], #[trigger] u[j]) by {
            let ii = if i < k { i } else { i - 1 };
            let jj = if j < k { j } else { j - 1 };
            if i == k {
                assert(u[j] == t[jj]);
            } else if j == k {
                assert(u[i] == t[ii]);
            } else {
                assert(u[i] == t[ii] && u[j] == t[jj]);
            }
        }
    }
}

/// No two renames share their old path or their new path, and the old path
/// of a rename never also comes out as a deletion.
pub proof fn lemma_renames_disjoint(new: Seq<(Text, Text)>, old: Seq<(Text, Text)>, manifest: Seq<Text>)
    ensures
        all_renames_apart(diff_result(new, old, manifest)),
        rename_sources_kept(diff_result(new, old, manifest)),
{
    let added = added_paths(new, manifest);
    let deleted = deleted_paths(new, manifest);
    let mods = filter_map(common_paths(new, manifest), modified_of(new, old));
    let cands = sort_by_score(filter_map(added, candidate_of(new, old, deleted)));
    let w = rename_walk(new, old, cands, cands.len() as int);
    let rest = filter_map(added, unclaimed(w.0));
    let copies = filter_map(rest, copy_of(new, old));
    let fresh = filter_map(rest, added_flush(new, old));
    let gone = filter_map(deleted, deleted_flush(old, w.1));
    let recs = diff_records(new, old, manifest);
    assert(recs == mods + w.2 + copies + fresh + gone);
    lemma_walk(new, old, cands, cands.len() as int);
    let lo = mods.len() as int;
    let hi = lo + w.2.len();
    let c_hi = hi + copies.len();
    let f_hi = c_hi + fresh.len();
    assert forall|i: int| 0 <= i < recs.len() && (#[trigger] recs[i]) is Renamed implies lo <= i < hi && recs[i] == w.2[i - lo] by {
        if i < lo {
            assert(recs[i] == mods[i]);
            lemma_filter_map_from(common_paths(new, manifest), modified_of(new, old), i);
        } else if hi <= i < c_hi {
            assert(recs[i] == copies[i - hi]);
            lemma_filter_map_from(rest, copy_of(new, old), i - hi);
        } else if c_hi <= i < f_hi {
            assert(recs[i] == fresh[i - c_hi]);
            lemma_filter_map_from(rest, added_flush(new, old), i - c_hi);
        } else if f_hi <= i {
            assert(recs[i] == gone[i - f_hi]);
            lemma_filter_map_from(deleted, deleted_flush(old, w.1), i - f_hi);
        }
    }
    assert forall|j: int| 0 <= j < recs.len() && (#[trigger] recs[j]) is Deleted implies !w.1.contains(recs[j]->Deleted_0) by {
        if j < lo {
            assert(recs[j] == mods[j]);
            lemma_filter_map_from(common_paths(new, manifest), modified_of(new, old), j);
        } else if j < hi {
            assert(recs[j] == w.2[j - lo]);
        } else if j < c_hi {
            assert(recs[j] == copies[j - hi]);
            lemma_filter_map_from(rest, copy_of(new, old), j - hi);
        } else if j < f_hi {
            assert(recs[j] == fresh[j - c_hi]);
            lemma_filter_map_from(rest, added_flush(new, old), j - c_hi);
        } else {
            assert(recs[j] == gone[j - f_hi]);
            lemma_filter_map_from(deleted, deleted_flush(old, w.1), j - f_hi);
        }
    }
    assert forall|i: int, j: int| 0 <= i < recs.len() && 0 <= j < recs.len() && i != j implies renames_apart(#[trigger] recs[i], #[trigger] recs[j]) by {
        if recs[i] is Renamed && recs[j] is Renamed {
            assert(recs[i] == w.2[i - lo] && recs[j] == w.2[j - lo]);
        }
    }
    lemma_sort_apart(recs);
    let r = diff_result(new, old, manifest);
    assert forall|i: int, j: int|
        0 <= i < r.len() && 0 <= j < r.len() && (#[trigger] r[i]) is Renamed && (#[trigger] r[j]) is Deleted
            implies r[j]->Deleted_0 != r[i]->Renamed_old by {
        assert(r.contains(r[i]) && r.contains(r[j]));
        lemma_sort_by_target_contains(recs, r[i]);
        lemma_sort_by_target_contains(recs, r[j]);
        let a = choose|a: int| 0 <= a < recs.len() && recs[a] == r[i];
        let b = choose|b: int| 0 <= b < recs.len() && recs[b] == r[j];
        assert(recs[a] is Renamed);
        assert(w.2[a - lo] == recs[a]);
        assert(recs[b] is Deleted);
    }
}


/// Every element that the function keeps shows up in a `filter_map`.
pub proof fn lemma_filter_map_to<A, B>(s: Seq<A>, f: spec_fn(A) -> Option<B>, i: int)
    requires
        0 <= i < s.len(),
        f(s[i]) is Some,
    ensures
        filter_map(s, f).contains(f(s[i])->Some_0),
    decreases s.len(),
{
    let p = filter_map(s.drop_last(), f);
    if i == s.len() - 1 {
        assert(filter_map(s, f)[p.len() as int] == f(s[i])->Some_0);
    } else {
        assert(s.drop_last()[i] == s[i]);
        lemma_filter_map_to(s.drop_last(), f, i);
        let k = choose|k: int| 0 <= k < p.len() && p[k] == f(s[i])->Some_0;
        assert(filter_map(s, f)[k] == p[k]);
    }
}

proof fn lemma_no_match(target: Text, pool: Seq<Text>, sources: Seq<(Text, Text)>, n: int)
    requires
        forall|i: int| 0 <= i < sources.len() ==> !(#[trigger] similarity(sources[i].1, target)).above_half(),
    ensures
        best_upto(target, pool, sources, n) is None,
    decreases n,
{
    if n > 0 {
        lemma_no_match(target, pool, sources, n - 1);
        lemma_find(sources, pool[n - 1]);
    }
}

/// Snapshots that share no path, where no old content is more than half
/// similar to any new content: each manifest path comes out as a deletion,
/// each new path as an addition, and there is nothing else.
pub proof fn lemma_disjoint_snapshots(new: Seq<(Text, Text)>, old: Seq<(Text, Text)>, manifest: Seq<Text>)
    requires
        forall|i: int, j: int| 0 <= i < new.len() && 0 <= j < manifest.len() ==> new[i].0 != manifest[j],
        forall|i: int, j: int|
            0 <= i < old.len() && 0 <= j < new.len() ==> !(#[trigger] similarity(old[i].1, new[j].1)).above_half(),
    ensures
        forall|x: StatusView|
            diff_result(new, old, manifest).contains(x) <==> (exists|i: int|
                0 <= i < new.len() && x == StatusView::Added(new[i].0, lines_in(new, new[i].0)))
                || (exists|j: int|
                0 <= j < manifest.len() && x == StatusView::Deleted(manifest[j], lines_in(old, manifest[j]))),
{
    let added = added_paths(new, manifest);
    let deleted = deleted_paths(new, manifest);
    let common = common_paths(new, manifest);
    assert forall|j: int| 0 <= j < manifest.len() implies (#[trigger] common_step(new)(manifest[j])) is None by {
        lemma_find(new, manifest[j]);
        if keys(new).contains(manifest[j]) {
            let i = choose|i: int| 0 <= i < keys(new).len() && keys(new)[i] == manifest[j];
            assert(new[i].0 == manifest[j]);
        }
    }
    lemma_filter_map_none(manifest, common_step(new));
    let mods = filter_map(common, modified_of(new, old));
    assert(mods == Seq::<StatusView>::empty());
    assert forall|k: int| 0 <= k < added.len() implies (#[trigger] candidate_of(new, old, deleted)(added[k])) is None by {
        lemma_find(new, added[k]);
        if let Some(j) = find(new, added[k]) {
            lemma_no_match(new[j].1, deleted, old, deleted.len() as int);
        }
    }
    lemma_filter_map_none(added, candidate_of(new, old, deleted));
    let e: Seq<Candidate> = Seq::empty();
    assert(sort_by_score(e) == e);
    let w = rename_walk(new, old, e, 0);
    assert(w.0 == Seq::<Text>::empty() && w.1 == Seq::<Text>::empty() && w.2 == Seq::<StatusView>::empty());
    let rest = filter_map(added, unclaimed(w.0));
    assert forall|k: int| 0 <= k < rest.len() implies (#[trigger] copy_of(new, old)(rest[k])) is None by {
        lemma_find(new, rest[k]);
        if let Some(j) = find(new, rest[k]) {
            lemma_no_match(new[j].1, keys(old), old, keys(old).len() as int);
        }
    }
    lemma_filter_map_none(rest, copy_of(new, old));
    let fresh = filter_map(rest, added_flush(new, old));
    let gone = filter_map(deleted, deleted_flush(old, w.1));
    let recs = diff_records(new, old, manifest);
    assert(recs =~= fresh + gone);
    assert forall|x: StatusView|
        diff_result(new, old, manifest).contains(x) <==> (exists|i: int|
            0 <= i < new.len() && x == StatusView::Added(new[i].0, lines_in(new, new[i].0)))
            || (exists|j: int|
            0 <= j < manifest.len() && x == StatusView::Deleted(manifest[j], lines_in(old, manifest[j]))) by {
        lemma_sort_by_target_contains(recs, x);
        if recs.contains(x) {
            let m = choose|m: int| 0 <= m < recs.len() && recs[m] == x;
            if m < fresh.len() {
                assert(fresh[m] == x);
                lemma_filter_map_from(rest, added_flush(new, old), m);
                let k = choose|k: int| 0 <= k < rest.len() && added_flush(new, old)(#[trigger] rest[k]) == Some(x);
                lemma_filter_map_from(added, unclaimed(w.0), k);
                let a = choose|a: int| 0 <= a < added.len() && unclaimed(w.0)(#[trigger] added[a]) == Some(rest[k]);
                lemma_filter_map_from(new, added_step(manifest), a);
                let i = choose|i: int| 0 <= i < new.len() && added_step(manifest)(#[trigger] new[i]) == Some(added[a]);
                assert(x == StatusView::Added(new[i].0, lines_in(new, new[i].0)));
            } else {
                assert(gone[m - fresh.len()] == x);
                lemma_filter_map_from(deleted, deleted_flush(old, w.1), m - fresh.len());
                let k = choose|k: int| 0 <= k < deleted.len() && deleted_flush(old, w.1)(#[trigger] deleted[k]) == Some(x);
                lemma_filter_map_from(manifest, deleted_step(new), k);
                let j = choose|j: int| 0 <= j < manifest.len() && deleted_step(new)(#[trigger] manifest[j]) == Some(deleted[k]);
                assert(x == StatusView::Deleted(manifest[j], lines_in(old, manifest[j])));
            }
        }
        if exists|i: int| 0 <= i < new.len() && x == StatusView::Added(new[i].0, lines_in(new, new[i].0)) {
            let i = choose|i: int| 0 <= i < new.len() && x == StatusView::Added(new[i].0, lines_in(new, new[i].0));
            assert(!manifest.contains(new[i].0));
            lemma_filter_map_to(new, added_step(manifest), i);
            let a = choose|a: int| 0 <= a < added.len() && added[a] == new[i].0;
            lemma_filter_map_to(added, unclaimed(w.0), a);
            let k = choose|k: int| 0 <= k < rest.len() && rest[k] == new[i].0;
            lemma_filter_map_to(rest, added_flush(new, old), k);
            let m = choose|m: int| 0 <= m < fresh.len() && fresh[m] == x;
            assert(recs[m] == x);
        }
        if exists|j: int| 0 <= j < manifest.len() && x == StatusView::Deleted(manifest[j], lines_in(old, manifest[j])) {
            let j = choose|j: int| 0 <= j < manifest.len() && x == StatusView::Deleted(manifest[j], lines_in(old, manifest[j]));
            lemma_find(new, manifest[j]);
            if keys(new).contains(manifest[j]) {
                let i = choose|i: int| 0 <= i < keys(new).len() && keys(new)[i] == manifest[j];
                assert(new[i].0 == manifest[j]);
            }
            lemma_filter_map_to(manifest, deleted_step(new), j);
            let k = choose|k: int| 0 <= k < deleted.len() && deleted[k] == manifest[j];
            lemma_filter_map_to(deleted, deleted_flush(old, w.1), k);
            let m = choose|m: int| 0 <= m < gone.len() && gone[m] == x;
            assert(recs[fresh.len() + m] == x);
        }
    }
}


/// Records in lexical order of target path.
pub open spec fn sorted_by_target(s: Seq<StatusView>) -> bool {
    forall|i: int, j: int| 0 <= i < j < s.len() ==> text_le(target(#[trigger] s[i]), target(#[trigger] s[j]))
}

proof fn lemma_insert_sorted(t: Seq<StatusView>, x: StatusView)
    requires
        sorted_by_target(t),
    ensures
        sorted_by_target(insert_by_target(t, x)),
    decreases t.len(),
{
    if t.len() == 0 {
    } else if text_le(target(t.last()), target(x)) {
        let u = t.push(x);
        assert forall|i: int, j: int| 0 <= i < j < u.len() implies text_le(target(#[trigger] u[i]), target(#[trigger] u[j])) by {
            if j == t.len() {
                if i < t.len() - 1 {
                    lemma_text_le_trans(target(t[i]), target(t.last()), target(x));
                }
            } else {
                assert(u[i] == t[i] && u[j] == t[j]);
            }
        }
    } else {
        let d = t.drop_last();
        assert forall|i: int, j: int| 0 <= i < j < d.len() implies text_le(target(#[trigger] d[i]), target(#[trigger] d[j])) by {
            assert(d[i] == t[i] && d[j] == t[j]);
        }
        lemma_insert_sorted(d, x);
        lemma_insert_by_target(d, x);
        lemma_text_le_total(target(t.last()), target(x));
        let m = insert_by_target(d, x);
        let k = choose|k: int| 0 <= k <= d.len() && m == d.insert(k, x);
        let u = m.push(t.last());
        assert forall|i: int, j: int| 0 <= i < j < u.len() implies text_le(target(#[trigger] u[i]), target(#[trigger] u[j])) by {
            if j == m.len() {
                if i == k {
                    assert(u[i] == x);
                } else if i < k {
                    assert(u[i] == t[i]);
                } else {
                    assert(u[i] == t[i - 1]);
                }
            } else {
                assert(u[i] == m[i] && u[j] == m[j]);
            }
        }
    }
}

/// The result of a run is in lexical order of target path.
pub proof fn lemma_result_sorted(new: Seq<(Text, Text)>, old: Seq<(Text, Text)>, manifest: Seq<Text>)
    ensures
        sorted_by_target(diff_result(new, old, manifest)),
{
    lemma_sort_sorted(diff_records(new, old, manifest));
}

proof fn lemma_sort_sorted(s: Seq<StatusView>)
    ensures
        sorted_by_target(sort_by_target(s)),
    decreases s.len(),
{
    if s.len() > 0 {
        lemma_sort_sorted(s.drop_last());
        lemma_insert_sorted(sort_by_target(s.drop_last()), s.last());
    }
}


/// A text is as similar to itself as can be, and a non-empty text is not
/// similar at all to the empty text.
pub proof fn lemma_similarity_extremes(s: Seq<char>)
    ensures
        similarity(s, s).same == similarity(s, s).total,
        s.len() > 0 ==> similarity(s, Seq::empty()).same == 0,
{
}

} // verus!
