//! Summing the changed files of one pull request.
use vstd::prelude::*;
use vstd::seq_lib::group_to_multiset_ensures;
use vstd::multiset::group_multiset_axioms;
use crate::model::{DiffStat, FileChange};

verus! {

pub open spec fn total_additions(files: Seq<FileChange>) -> int
    decreases files.len(),
{
    if files.len() == 0 {
        0
    } else {
        total_additions(files.drop_last()) + files.last().additions
    }
}

pub open spec fn total_deletions(files: Seq<FileChange>) -> int
    decreases files.len(),
{
    if files.len() == 0 {
        0
    } else {
        total_deletions(files.drop_last()) + files.last().deletions
    }
}

/// Both sums fit the counters.
pub open spec fn totals_fit(files: Seq<FileChange>) -> bool {
    total_additions(files) <= u64::MAX && total_deletions(files) <= u64::MAX
}

/// The aggregate of a list of changed files, where `totals_fit` holds.
pub open spec fn totals(files: Seq<FileChange>) -> DiffStat {
    DiffStat { additions: total_additions(files) as u64, deletions: total_deletions(files) as u64 }
}

/// The sums over a prefix never exceed those over the whole list.
pub proof fn lemma_totals_prefix(files: Seq<FileChange>, i: int)
    requires
        0 <= i <= files.len(),
    ensures
        0 <= total_additions(files.take(i)) <= total_additions(files),
        0 <= total_deletions(files.take(i)) <= total_deletions(files),
    decreases files.len(),
{
    if files.len() > 0 {
        if i == files.len() {
            assert(files.take(i) =~= files);
            lemma_totals_prefix(files.drop_last(), files.len() - 1);
            assert(files.drop_last().take(files.len() - 1) =~= files.drop_last());
        } else {
            lemma_totals_prefix(files.drop_last(), i);
            assert(files.drop_last().take(i) =~= files.take(i));
        }
    }
}

/// Removing one file takes exactly its counts off the sums.
pub proof fn lemma_totals_remove(files: Seq<FileChange>, j: int)
    requires
        0 <= j < files.len(),
    ensures
        total_additions(files) == total_additions(files.remove(j)) + files[j].additions,
        total_deletions(files) == total_deletions(files.remove(j)) + files[j].deletions,
    decreases files.len(),
{
    if j == files.len() - 1 {
        assert(files.remove(j) =~= files.drop_last());
    } else {
        lemma_totals_remove(files.drop_last(), j);
        assert(files.remove(j).drop_last() =~= files.drop_last().remove(j));
        assert(files.remove(j).last() == files.last());
    }
}

/// The aggregate does not depend on the order of the files: two lists that
/// hold the same files, each as often, sum to the same pair.
pub proof fn lemma_totals_permutation(a: Seq<FileChange>, b: Seq<FileChange>)
    requires
        a.to_multiset() == b.to_multiset(),
    ensures
        total_additions(a) == total_additions(b),
        total_deletions(a) == total_deletions(b),
    decreases a.len(),
{
    broadcast use group_to_multiset_ensures, group_multiset_axioms;

    if a.len() == 0 {
        assert(b.to_multiset().len() == 0);
        assert(b.len() == 0);
    } else {
        let x = a.last();
        assert(a.to_multiset().count(x) > 0);
        assert(b.contains(x));
        let j = choose|j: int| 0 <= j < b.len() && b[j] == x;
        lemma_totals_remove(b, j);
        assert(a.drop_last() =~= a.remove(a.len() - 1));
        lemma_totals_permutation(a.drop_last(), b.remove(j));
    }
}

/// Adds up the changed files of one pull request; `None` where a sum does not
/// fit the counters.
pub fn sum_files(files: &Vec<FileChange>) -> (r: Option<DiffStat>)
    ensures
        r.is_some() == totals_fit(files@),
        r.is_some() ==> r.unwrap() == totals(files@),
{
    let mut additions: u64 = 0;
    let mut deletions: u64 = 0;
    let mut i: usize = 0;
    while i < files.len()
        invariant
            0 <= i <= files.len(),
            additions == total_additions(files@.take(i as int)),
            deletions == total_deletions(files@.take(i as int)),
        decreases files.len() - i,
    {
        let f = files[i];
        proof {
            assert(files@.take(i + 1).drop_last() =~= files@.take(i as int));
            lemma_totals_prefix(files@, i + 1);
        }
        match additions.checked_add(f.additions) {
            Some(a) => {
                additions = a;
            },
            None => {
                return None;
            },
        }
        match deletions.checked_add(f.deletions) {
            Some(d) => {
                deletions = d;
            },
            None => {
                return None;
            },
        }
        i = i + 1;
    }
    assert(files@.take(files.len() as int) =~= files@);
    Some(DiffStat { additions, deletions })
}

} // verus!
