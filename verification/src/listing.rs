//! Whole enumerations: what the attempts to read the files of a run of
//! identifiers, taken together, yield.

use vstd::prelude::*;
use crate::error::FsError;
use crate::record::{comment_entry, comment_entry_of, issue_entry, issue_entry_of, Comment, Issue, Probe};

verus! {

/// What an enumeration of issues yields, where the attempt to read issue
/// `i` ended as `probes[i]`: in the order of the identifiers, nothing for a
/// missing file, the failure for a failed read, else the issue.
pub open spec fn issues_listed(probes: Seq<Probe>) -> Seq<Result<Issue, FsError>>
    decreases probes.len(),
{
    if probes.len() == 0 {
        Seq::empty()
    } else {
        let head = issues_listed(probes.drop_last());
        match issue_entry_of((probes.len() - 1) as u32, probes.last()) {
            Some(e) => head.push(e),
            None => head,
        }
    }
}

/// What an enumeration of the comments of `issue_id` yields, where the
/// attempt to read comment `i` ended as `probes[i]`.
pub open spec fn comments_listed(issue_id: u32, probes: Seq<Probe>) -> Seq<
    Result<Comment, FsError>,
>
    decreases probes.len(),
{
    if probes.len() == 0 {
        Seq::empty()
    } else {
        let head = comments_listed(issue_id, probes.drop_last());
        match comment_entry_of(issue_id, (probes.len() - 1) as u32, probes.last()) {
            Some(e) => head.push(e),
            None => head,
        }
    }
}

/// The number of attempts that did not find the file missing.
pub open spec fn present(probes: Seq<Probe>) -> nat
    decreases probes.len(),
{
    if probes.len() == 0 {
        0
    } else {
        present(probes.drop_last()) + (if probes.last() is Missing {
            0nat
        } else {
            1nat
        })
    }
}

/// An enumeration passes over gaps: a missing file yields no element and no
/// failure, and every other attempt yields one element.
pub proof fn lemma_listed_gaps(issue_id: u32, probes: Seq<Probe>)
    ensures
        issues_listed(probes.push(Probe::Missing)) == issues_listed(probes),
        comments_listed(issue_id, probes.push(Probe::Missing)) == comments_listed(issue_id, probes),
        issues_listed(probes).len() == present(probes),
        comments_listed(issue_id, probes).len() == present(probes),
    decreases probes.len(),
{
    assert(probes.push(Probe::Missing).drop_last() =~= probes);
    if probes.len() > 0 {
        lemma_listed_gaps(issue_id, probes.drop_last());
    }
}

/// The elements of `v` from the last to the first.
fn reversed<T>(v: Vec<T>) -> (r: Vec<T>)
    ensures
        r@ == v@.reverse(),
{
    let ghost all = v@;
    let mut v = v;
    let mut r: Vec<T> = Vec::new();
    while v.len() > 0
        invariant
            v@.len() + r@.len() == all.len(),
            v@ == all.take(v@.len() as int),
            r@ == all.reverse().take(r@.len() as int),
        decreases v@.len(),
    {
        let ghost before = r@;
        let x = v.pop().unwrap();
        r.push(x);
        assert(r@ =~= all.reverse().take(r@.len() as int));
        assert(v@ =~= all.take(v@.len() as int));
    }
    assert(all.reverse().take(r@.len() as int) =~= all.reverse());
    r
}

/// Lists the issues, given for each identifier from 0 how the attempt to
/// read its first comment ended.
pub fn list_issues(probes: Vec<Probe>) -> (found: Vec<Result<Issue, FsError>>)
    requires
        probes@.len() <= u32::MAX,
    ensures
        found@ == issues_listed(probes@),
{
    let ghost all = probes@;
    let mut probes = probes;
    let mut back: Vec<Result<Issue, FsError>> = Vec::new();
    assert(issues_listed(all) =~= issues_listed(probes@) + back@.reverse());
    while probes.len() > 0
        invariant
            probes@.len() <= u32::MAX,
            issues_listed(all) == issues_listed(probes@) + back@.reverse(),
        decreases probes@.len(),
    {
        let ghost now = probes@;
        let ghost behind = back@;
        let id = (probes.len() - 1) as u32;
        let probe = probes.pop().unwrap();
        assert(now.drop_last() =~= probes@);
        match issue_entry(id, probe) {
            Some(e) => {
                back.push(e);
                assert(back@.reverse() =~= seq![e] + behind.reverse());
                assert(issues_listed(probes@).push(e) + behind.reverse() =~= issues_listed(probes@)
                    + back@.reverse());
            },
            None => {},
        }
    }
    assert(issues_listed(probes@) + back@.reverse() =~= back@.reverse());
    reversed(back)
}

/// Lists the comments of `issue_id`, given for each comment identifier from
/// 0 how the attempt to read its file ended.
pub fn list_comments(issue_id: u32, probes: Vec<Probe>) -> (found: Vec<Result<Comment, FsError>>)
    requires
        probes@.len() <= u32::MAX,
    ensures
        found@ == comments_listed(issue_id, probes@),
{
    let ghost all = probes@;
    let mut probes = probes;
    let mut back: Vec<Result<Comment, FsError>> = Vec::new();
    assert(comments_listed(issue_id, all) =~= comments_listed(issue_id, probes@) + back@.reverse());
    while probes.len() > 0
        invariant
            probes@.len() <= u32::MAX,
            comments_listed(issue_id, all) == comments_listed(issue_id, probes@) + back@.reverse(),
        decreases probes@.len(),
    {
        let ghost now = probes@;
        let ghost behind = back@;
        let id = (probes.len() - 1) as u32;
        let probe = probes.pop().unwrap();
        assert(now.drop_last() =~= probes@);
        match comment_entry(issue_id, id, probe) {
            Some(e) => {
                back.push(e);
                assert(back@.reverse() =~= seq![e] + behind.reverse());
                assert(comments_listed(issue_id, probes@).push(e) + behind.reverse()
                    =~= comments_listed(issue_id, probes@) + back@.reverse());
            },
            None => {},
        }
    }
    assert(comments_listed(issue_id, probes@) + back@.reverse() =~= back@.reverse());
    reversed(back)
}

} // verus!
