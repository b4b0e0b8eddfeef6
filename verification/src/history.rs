//! What holds of the identifiers that a run of calls allots.

use vstd::prelude::*;
use crate::store::{after, answer, permitted, Call, Counters};

verus! {

/// The counters after the calls `calls`, made in their order.
pub open spec fn run(s: Counters, calls: Seq<Call>) -> Counters
    decreases calls.len(),
{
    if calls.len() == 0 {
        s
    } else {
        after(run(s, calls.drop_last()), calls.last())
    }
}

/// Whether each of `calls` finds room in the counter that it raises.
pub open spec fn all_permitted(s: Counters, calls: Seq<Call>) -> bool {
    forall|i: int| 0 <= i < calls.len() ==> permitted(run(s, calls.take(i)), #[trigger] calls[i])
}

/// The number of new issues among `calls`.
pub open spec fn issues_in(calls: Seq<Call>) -> nat
    decreases calls.len(),
{
    if calls.len() == 0 {
        0
    } else {
        issues_in(calls.drop_last()) + (if calls.last() == Call::NewIssue {
            1nat
        } else {
            0nat
        })
    }
}

/// The number of new comments of `issue_id` among `calls`.
pub open spec fn comments_in(calls: Seq<Call>, issue_id: u32) -> nat
    decreases calls.len(),
{
    if calls.len() == 0 {
        0
    } else {
        comments_in(calls.drop_last(), issue_id) + (if calls.last() == Call::NewComment(issue_id) {
            1nat
        } else {
            0nat
        })
    }
}

/// The first calls of a permitted run are a permitted run.
pub proof fn lemma_prefix_permitted(s: Counters, calls: Seq<Call>, n: int)
    requires
        all_permitted(s, calls),
        0 <= n <= calls.len(),
    ensures
        all_permitted(s, calls.take(n)),
{
    let p = calls.take(n);
    assert forall|i: int| 0 <= i < p.len() implies permitted(run(s, p.take(i)), #[trigger] p[i]) by {
        assert(p.take(i) =~= calls.take(i));
        assert(p[i] == calls[i]);
    }
}

/// The issue count rises by one with each new issue, and with nothing else.
pub proof fn lemma_issue_count(s: Counters, calls: Seq<Call>)
    requires
        all_permitted(s, calls),
    ensures
        run(s, calls).issue_count == s.issue_count + issues_in(calls),
    decreases calls.len(),
{
    if calls.len() > 0 {
        let n = calls.len() - 1;
        lemma_prefix_permitted(s, calls, n);
        assert(calls.take(n) =~= calls.drop_last());
        lemma_issue_count(s, calls.drop_last());
        assert(permitted(run(s, calls.take(n)), calls[n]));
    }
}

/// New issues get the identifiers that follow the issue count in which the
/// run began, one after the other in the order of the calls, whatever new
/// comments come between them: the new issue among `calls` at `i` gets the
/// issue count of the beginning plus the number of new issues before it.
/// On a store that began empty these are 0, 1, 2 and so on.
pub proof fn lemma_issue_ids(s: Counters, calls: Seq<Call>, i: int)
    requires
        all_permitted(s, calls),
        0 <= i < calls.len(),
        calls[i] == Call::NewIssue,
    ensures
        answer(run(s, calls.take(i)), calls[i]) == Some(
            (s.issue_count + issues_in(calls.take(i))) as u32,
        ),
        s.issue_count + issues_in(calls.take(i)) < u32::MAX,
{
    lemma_prefix_permitted(s, calls, i);
    lemma_issue_count(s, calls.take(i));
    assert(permitted(run(s, calls.take(i)), calls[i]));
}

/// After the new issue at `i0` and the calls up to `j`, the issue's comment
/// counter is one past the number of its new comments since, and the issue
/// count is past the issue.
proof fn lemma_counter_since(s: Counters, calls: Seq<Call>, i0: int, j: int)
    requires
        all_permitted(s, calls),
        0 <= i0 < j <= calls.len(),
        calls[i0] == Call::NewIssue,
    ensures
        ({
            let id = run(s, calls.take(i0)).issue_count;
            let now = run(s, calls.take(j));
            &&& now.issue_count > id
            &&& now.comment_count.contains_key(id)
            &&& now.comment_count[id] == 1 + comments_in(calls.subrange(i0 + 1, j), id)
        }),
    decreases j,
{
    let id = run(s, calls.take(i0)).issue_count;
    let before = run(s, calls.take(j - 1));
    assert(calls.take(j).drop_last() =~= calls.take(j - 1));
    assert(calls.take(j).last() == calls[j - 1]);
    assert(permitted(before, calls[j - 1]));
    if j == i0 + 1 {
        assert(calls.subrange(i0 + 1, j) =~= Seq::<Call>::empty());
    } else {
        lemma_counter_since(s, calls, i0, j - 1);
        let since = calls.subrange(i0 + 1, j);
        assert(since.drop_last() =~= calls.subrange(i0 + 1, j - 1));
        assert(since.last() == calls[j - 1]);
    }
}

/// The first new comment of an issue after its creation gets the identifier
/// 1, and each later one the next: the new comment at `i` of the issue that
/// the call at `i0` created gets one plus the number of new comments of
/// that issue between the two. So the identifiers of an issue's comments
/// rise by one and none is used twice.
pub proof fn lemma_comment_ids(s: Counters, calls: Seq<Call>, i0: int, i: int)
    requires
        all_permitted(s, calls),
        0 <= i0 < i < calls.len(),
        calls[i0] == Call::NewIssue,
        calls[i] == Call::NewComment(run(s, calls.take(i0)).issue_count),
    ensures
        answer(run(s, calls.take(i)), calls[i]) == Some(
            (1 + comments_in(calls.subrange(i0 + 1, i), run(s, calls.take(i0)).issue_count)) as u32,
        ),
        1 + comments_in(calls.subrange(i0 + 1, i), run(s, calls.take(i0)).issue_count) < u32::MAX,
{
    lemma_counter_since(s, calls, i0, i);
    assert(permitted(run(s, calls.take(i)), calls[i]));
}

/// A comment of an issue that the store does not know gets no identifier,
/// and the counters stay as they are.
pub proof fn lemma_unknown_issue(s: Counters, issue_id: u32)
    requires
        !s.comment_count.contains_key(issue_id),
    ensures
        answer(s, Call::NewComment(issue_id)) is None,
        after(s, Call::NewComment(issue_id)) == s,
{
}

} // verus!
