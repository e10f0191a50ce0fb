//! Reading a revision's ids and description out of the version-control
//! client's NUL-separated output.
use vstd::prelude::*;
use crate::engine::paths_view;
use crate::types::CommitInfo;

verus! {

/// The pieces of `s` between NUL characters, in order: a text without NUL is
/// one piece, and each NUL starts a new one.
pub open spec fn nul_fields(s: Seq<char>) -> Seq<Seq<char>>
    decreases s.len(),
{
    if s.len() == 0 {
        seq![Seq::empty()]
    } else {
        let f = nul_fields(s.drop_last());
        if s.last() == '\0' {
            f.push(Seq::empty())
        } else {
            f.update(f.len() - 1, f.last().push(s.last()))
        }
    }
}

/// Relies on `str::split` with the pattern `'\0'`: the pieces of the text
/// between NUL characters, in order.
#[verifier::external_body]
fn split_nul(s: &str) -> (r: Vec<String>)
    ensures
        paths_view(r@) == nul_fields(s@),
{
    s.split('\0').map(|p| p.to_string()).collect()
}

/// A text without its leading and trailing white space.
pub uninterp spec fn trim_of(s: Seq<char>) -> Seq<char>;

/// Relies on `str::trim`: the text without leading and trailing white space.
#[verifier::external_body]
fn trim(s: &str) -> (r: String)
    ensures
        r@ == trim_of(s@),
{
    s.trim().to_string()
}

/// The revision that the client's output describes: the change id's prefix,
/// short and full forms, the commit id's likewise, and the trimmed
/// description, as its first seven NUL-separated fields; all empty where
/// there are fewer.
pub fn parse_commit_info(out: &str) -> (r: CommitInfo)
    ensures
        nul_fields(out@).len() < 7 ==> r.description@.len() == 0 && r.change_id_prefix@.len() == 0
            && r.change_id_short@.len() == 0 && r.change_id_full@.len() == 0
            && r.commit_id_prefix@.len() == 0 && r.commit_id_short@.len() == 0
            && r.commit_id_full@.len() == 0,
        nul_fields(out@).len() >= 7 ==> {
            let f = nul_fields(out@);
            &&& r.change_id_prefix@ == f[0]
            &&& r.change_id_short@ == f[1]
            &&& r.change_id_full@ == f[2]
            &&& r.commit_id_prefix@ == f[3]
            &&& r.commit_id_short@ == f[4]
            &&& r.commit_id_full@ == f[5]
            &&& r.description@ == trim_of(f[6])
        },
{
    let parts = split_nul(out);
    if parts.len() < 7 {
        return CommitInfo {
            description: String::new(),
            change_id_prefix: String::new(),
            change_id_short: String::new(),
            change_id_full: String::new(),
            commit_id_prefix: String::new(),
            commit_id_short: String::new(),
            commit_id_full: String::new(),
        };
    }
    proof {
        assert(paths_view(parts@)[6] == parts@[6]@);
        assert(paths_view(parts@)[0] == parts@[0]@);
        assert(paths_view(parts@)[1] == parts@[1]@);
        assert(paths_view(parts@)[2] == parts@[2]@);
        assert(paths_view(parts@)[3] == parts@[3]@);
        assert(paths_view(parts@)[4] == parts@[4]@);
        assert(paths_view(parts@)[5] == parts@[5]@);
    }
    CommitInfo {
        change_id_prefix: parts[0].clone(),
        change_id_short: parts[1].clone(),
        change_id_full: parts[2].clone(),
        commit_id_prefix: parts[3].clone(),
        commit_id_short: parts[4].clone(),
        commit_id_full: parts[5].clone(),
        description: trim(parts[6].as_str()),
    }
}

} // verus!
