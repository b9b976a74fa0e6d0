//! Joining the relevant set with its line counts, most recently updated first.
use vstd::prelude::*;
use crate::model::{DiffStat, PullRequest};
use crate::relevant_set::{numbers_distinct, RelevantSet};
use crate::fanout::{stat_or_zero, DiffStats};

verus! {

/// One line of the result: a pull request and its line counts.
pub struct ResultRow {
    pub pr: PullRequest,
    pub stat: DiffStat,
}

/// `a` is listed before `b`: later updates first, a missing update time
/// counts as oldest, and equal times go by ascending number.
pub open spec fn comes_before(a: PullRequest, b: PullRequest) -> bool {
    match (a.updated_at, b.updated_at) {
        (Some(x), Some(y)) => x > y || (x == y && a.number < b.number),
        (Some(_), None) => true,
        (None, Some(_)) => false,
        (None, None) => a.number < b.number,
    }
}

pub open spec fn rows_sorted(rows: Seq<ResultRow>) -> bool {
    forall|i: int, j: int| 0 <= i < j < rows.len() ==> comes_before(rows[i].pr, rows[j].pr)
}

/// Some row holds `pr`.
pub open spec fn has_row(rows: Seq<ResultRow>, pr: PullRequest) -> bool {
    exists|j: int| 0 <= j < rows.len() && #[trigger] rows[j] == ResultRow { pr, stat: rows[j].stat }
}

/// The order is transitive.
pub proof fn lemma_before_transitive(a: PullRequest, b: PullRequest, c: PullRequest)
    requires
        comes_before(a, b),
        comes_before(b, c),
    ensures
        comes_before(a, c),
{
}

/// Two pull requests with different numbers are ordered one way or the other.
pub proof fn lemma_before_total(a: PullRequest, b: PullRequest)
    requires
        a.number != b.number,
    ensures
        comes_before(a, b) || comes_before(b, a),
{
}

/// Whether `a` is listed before `b`.
pub fn before(a: &PullRequest, b: &PullRequest) -> (r: bool)
    ensures
        r == comes_before(*a, *b),
{
    match (a.updated_at, b.updated_at) {
        (Some(x), Some(y)) => x > y || (x == y && a.number < b.number),
        (Some(_), None) => true,
        (None, Some(_)) => false,
        (None, None) => a.number < b.number,
    }
}

/// The rows of the relevant set, each with its counts (zero where none were
/// recorded), most recently updated first.
pub fn order_rows(set: RelevantSet, stats: &DiffStats) -> (r: Vec<ResultRow>)
    requires
        set.wf(),
    ensures
        r@.len() == set@.len(),
        rows_sorted(r@),
        forall|i: int| 0 <= i < r@.len() ==> set@.contains(#[trigger] r@[i].pr),
        forall|i: int| 0 <= i < set@.len() ==> has_row(r@, #[trigger] set@[i]),
        forall|i: int| 0 <= i < r@.len() ==> #[trigger] r@[i].stat == stat_or_zero(stats@, r@[i].pr.number),
{
    let ghost all = set@;
    proof {
        set.lemma_wf_distinct();
    }
    let mut rest = set.into_items();
    assert(all.len() == rest.len());
    let mut out: Vec<ResultRow> = Vec::new();
    let mut taken: usize = 0;
    while rest.len() > 0
        invariant
            numbers_distinct(all),
            all.len() <= usize::MAX,
            taken + rest.len() == all.len(),
            rest@ == all.skip(taken as int),
            out@.len() == taken,
            rows_sorted(out@),
            forall|i: int| 0 <= i < out@.len() ==> all.take(taken as int).contains(#[trigger] out@[i].pr),
            forall|i: int| 0 <= i < taken ==> has_row(out@, #[trigger] all[i]),
            forall|i: int| 0 <= i < out@.len() ==> #[trigger] out@[i].stat == stat_or_zero(stats@, out@[i].pr.number),
        decreases rest.len(),
    {
        let pr = rest.remove(0);
        proof {
            assert(rest@ =~= all.skip(taken + 1));
            assert(pr == all[taken as int]);
        }
        let stat = stats.stat_of(pr.number);
        let mut pos: usize = 0;
        while pos < out.len() && !before(&pr, &out[pos].pr)
            invariant
                0 <= pos <= out@.len(),
                forall|k: int| 0 <= k < pos ==> !comes_before(pr, #[trigger] out@[k].pr),
            decreases out.len() - pos,
        {
            pos = pos + 1;
        }
        let ghost old_out = out@;
        proof {
            assert forall|k: int| 0 <= k < old_out.len() implies #[trigger] old_out[k].pr.number != pr.number by {
                let t = all.take(taken as int);
                assert(t.contains(old_out[k].pr));
                let m = choose|m: int| 0 <= m < t.len() && t[m] == old_out[k].pr;
                assert(all[m] == t[m]);
            }
            assert forall|k: int| 0 <= k < pos implies comes_before(#[trigger] old_out[k].pr, pr) by {
                lemma_before_total(pr, old_out[k].pr);
            }
            assert forall|k: int| pos <= k < old_out.len() implies comes_before(pr, #[trigger] old_out[k].pr) by {
                if k > pos {
                    lemma_before_transitive(pr, old_out[pos as int].pr, old_out[k].pr);
                }
            }
        }
        out.insert(pos, ResultRow { pr, stat });
        proof {
            let row = ResultRow { pr, stat };
            assert(out@ == old_out.insert(pos as int, row));
            assert forall|i: int, j: int| 0 <= i < j < out@.len() implies comes_before(out@[i].pr, out@[j].pr) by {
                if j < pos {
                } else if j == pos {
                } else if i < pos {
                    assert(out@[j] == old_out[j - 1]);
                } else if i == pos {
                    assert(out@[j] == old_out[j - 1]);
                } else {
                    assert(out@[j] == old_out[j - 1]);
                    assert(out@[i] == old_out[i - 1]);
                }
            }
            let t1 = all.take(taken + 1);
            assert forall|i: int| 0 <= i < out@.len() implies t1.contains(#[trigger] out@[i].pr) by {
                if i == pos {
                    assert(t1[taken as int] == pr);
                } else {
                    let oi = if i < pos { i } else { i - 1 };
                    assert(out@[i] == old_out[oi]);
                    let t = all.take(taken as int);
                    assert(t.contains(old_out[oi].pr));
                    let m = choose|m: int| 0 <= m < t.len() && t[m] == old_out[oi].pr;
                    assert(t1[m] == t[m]);
                }
            }
            assert forall|i: int| 0 <= i < taken + 1 implies has_row(out@, #[trigger] all[i]) by {
                if i == taken {
                    assert(out@[pos as int] == ResultRow { pr: all[i], stat: out@[pos as int].stat });
                } else {
                    assert(has_row(old_out, all[i]));
                    let j = choose|j: int| 0 <= j < old_out.len() && #[trigger] old_out[j] == ResultRow { pr: all[i], stat: old_out[j].stat };
                    if j < pos {
                        assert(out@[j] == old_out[j]);
                    } else {
                        assert(out@[j + 1] == old_out[j]);
                    }
                }
            }
            assert forall|i: int| 0 <= i < out@.len() implies #[trigger] out@[i].stat == stat_or_zero(stats@, out@[i].pr.number) by {
                if i < pos {
                    assert(out@[i] == old_out[i]);
                } else if i > pos {
                    assert(out@[i] == old_out[i - 1]);
                }
            }
        }
        taken = taken + 1;
    }
    assert(all.take(all.len() as int) =~= all);
    out
}

} // verus!
