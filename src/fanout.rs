//! Merging the results of concurrent per-item lookups. The lookups finish in
//! any order; each result is merged by key, and the first failure, in order of
//! completion, fails the whole stage with no partial result.
use vstd::prelude::*;
use vstd::std_specs::hash::group_hash_axioms;
use std::collections::HashMap;
use crate::model::{Comment, DiffStat, FileChange, PullRequest};
use crate::relevance::{comments_mention_me, is_relevant, process_pr, thread_concerns};
use crate::relevant_set::{numbers_of, RelevantSet};
use crate::diffstat::{sum_files, totals, totals_fit};

verus! {

/// What one lookup task ended with.
pub enum Completion<T> {
    /// The lookup for the pull request with this number returned a value.
    Finished(u64, T),
    /// The lookup itself failed (transport or API error).
    LookupFailed(String),
    /// The task running the lookup did not complete.
    TaskFailed(String),
}

/// Why a fan-out stage failed.
#[derive(PartialEq, Eq, Debug)]
pub enum FanOutError {
    Lookup(String),
    TaskFailed(String),
    /// A result came back for a number the stage was not started with.
    UnknownItem(u64),
    /// The line counts of this pull request do not fit the counters.
    Overflow(u64),
}

impl FanOutError {
    /// A readable account of the failure.
    pub fn message(&self) -> (r: String)
        ensures
            self matches FanOutError::Lookup(m) ==> r@ == m@,
            self matches FanOutError::TaskFailed(m) ==> r@ == m@,
            self is UnknownItem ==> r@ == "result for an unknown pull request"@,
            self is Overflow ==> r@ == "line counts too large"@,
    {
        match self {
            FanOutError::Lookup(m) => m.clone(),
            FanOutError::TaskFailed(m) => m.clone(),
            FanOutError::UnknownItem(_) => String::from_str("result for an unknown pull request"),
            FanOutError::Overflow(_) => String::from_str("line counts too large"),
        }
    }
}

/// The failure that one mention-lookup result stands for, if any.
pub open spec fn mention_error(c: Completion<Vec<Comment>>, known: Set<u64>) -> Option<FanOutError> {
    match c {
        Completion::Finished(n, _) => if known.contains(n) {
            None
        } else {
            Some(FanOutError::UnknownItem(n))
        },
        Completion::LookupFailed(m) => Some(FanOutError::Lookup(m)),
        Completion::TaskFailed(m) => Some(FanOutError::TaskFailed(m)),
    }
}

/// The first failure among mention-lookup results, in order of completion.
pub open spec fn first_mention_error(cs: Seq<Completion<Vec<Comment>>>, known: Set<u64>) -> Option<
    FanOutError,
>
    decreases cs.len(),
{
    if cs.len() == 0 {
        None
    } else {
        match mention_error(cs[0], known) {
            Some(e) => Some(e),
            None => first_mention_error(cs.drop_first(), known),
        }
    }
}

/// Numbers whose thread concerns `login`.
pub open spec fn mentioned(cs: Seq<Completion<Vec<Comment>>>, login: Seq<char>) -> Set<u64> {
    Set::new(
        |n: u64|
            exists|k: int|
                0 <= k < cs.len() && match #[trigger] cs[k] {
                    Completion::Finished(m, c) => m == n && thread_concerns(c@, login),
                    _ => false,
                },
    )
}

/// The failure that one diff-lookup result stands for, if any.
pub open spec fn diff_error(c: Completion<Vec<FileChange>>, known: Set<u64>) -> Option<FanOutError> {
    match c {
        Completion::Finished(n, files) => if !known.contains(n) {
            Some(FanOutError::UnknownItem(n))
        } else if !totals_fit(files@) {
            Some(FanOutError::Overflow(n))
        } else {
            None
        },
        Completion::LookupFailed(m) => Some(FanOutError::Lookup(m)),
        Completion::TaskFailed(m) => Some(FanOutError::TaskFailed(m)),
    }
}

/// The first failure among diff-lookup results, in order of completion.
pub open spec fn first_diff_error(cs: Seq<Completion<Vec<FileChange>>>, known: Set<u64>) -> Option<
    FanOutError,
>
    decreases cs.len(),
{
    if cs.len() == 0 {
        None
    } else {
        match diff_error(cs[0], known) {
            Some(e) => Some(e),
            None => first_diff_error(cs.drop_first(), known),
        }
    }
}

/// The mapping that key insertion builds from the results, in order.
pub open spec fn stats_of(cs: Seq<Completion<Vec<FileChange>>>) -> Map<u64, DiffStat>
    decreases cs.len(),
{
    if cs.len() == 0 {
        Map::empty()
    } else {
        match cs.last() {
            Completion::Finished(n, files) => stats_of(cs.drop_last()).insert(n, totals(files@)),
            _ => stats_of(cs.drop_last()),
        }
    }
}

/// The entry for `id`, or zero counts where there is none.
pub open spec fn stat_or_zero(m: Map<u64, DiffStat>, id: u64) -> DiffStat {
    if m.contains_key(id) {
        m[id]
    } else {
        DiffStat::zero_spec()
    }
}

/// The numbers found by the mention stage do not depend on the order in which
/// the lookups completed: two runs that saw the same results agree.
pub proof fn lemma_mentions_order_free(
    a: Seq<Completion<Vec<Comment>>>,
    b: Seq<Completion<Vec<Comment>>>,
    login: Seq<char>,
)
    requires
        forall|c: Completion<Vec<Comment>>| a.contains(c) <==> b.contains(c),
    ensures
        mentioned(a, login) == mentioned(b, login),
{
    assert forall|n: u64| mentioned(a, login).contains(n) implies mentioned(b, login).contains(n) by {
        {
            let k = choose|k: int|
                0 <= k < a.len() && match #[trigger] a[k] {
                    Completion::Finished(m, c) => m == n && thread_concerns(c@, login),
                    _ => false,
                };
            assert(a.contains(a[k]));
            let j = choose|j: int| 0 <= j < b.len() && b[j] == a[k];
            assert(match b[j] {
                Completion::Finished(m, c) => m == n && thread_concerns(c@, login),
                _ => false,
            });
        }
    }
    assert forall|n: u64| mentioned(b, login).contains(n) implies mentioned(a, login).contains(n) by {
        {
            let k = choose|k: int|
                0 <= k < b.len() && match #[trigger] b[k] {
                    Completion::Finished(m, c) => m == n && thread_concerns(c@, login),
                    _ => false,
                };
            assert(b.contains(b[k]));
            let j = choose|j: int| 0 <= j < a.len() && a[j] == b[k];
            assert(match a[j] {
                Completion::Finished(m, c) => m == n && thread_concerns(c@, login),
                _ => false,
            });
        }
    }
    assert(mentioned(a, login) =~= mentioned(b, login));
}

/// Results for two different pull requests may arrive in either order: the
/// line counts collected are the same.
pub proof fn lemma_stats_order_free(
    cs: Seq<Completion<Vec<FileChange>>>,
    x: Completion<Vec<FileChange>>,
    y: Completion<Vec<FileChange>>,
)
    requires
        x matches Completion::Finished(m, _) && y matches Completion::Finished(n, _) ==> m != n,
    ensures
        stats_of(cs.push(x).push(y)) == stats_of(cs.push(y).push(x)),
{
    assert(cs.push(x).push(y).drop_last() =~= cs.push(x));
    assert(cs.push(y).push(x).drop_last() =~= cs.push(y));
    assert(cs.push(x).drop_last() =~= cs);
    assert(cs.push(y).drop_last() =~= cs);
    assert(cs.push(x).push(y).last() == y);
    assert(cs.push(y).push(x).last() == x);
    assert(cs.push(x).last() == x);
    assert(cs.push(y).last() == y);
    let base = stats_of(cs);
    match (x, y) {
        (Completion::Finished(m, f), Completion::Finished(n, g)) => {
            assert(stats_of(cs.push(x)) == base.insert(m, totals(f@)));
            assert(stats_of(cs.push(y)) == base.insert(n, totals(g@)));
            assert(base.insert(m, totals(f@)).insert(n, totals(g@)) =~= base.insert(
                n,
                totals(g@),
            ).insert(m, totals(f@)));
        },
        (Completion::Finished(m, f), _) => {
            assert(stats_of(cs.push(x)) == base.insert(m, totals(f@)));
            assert(stats_of(cs.push(y)) == base);
        },
        (_, Completion::Finished(n, g)) => {
            assert(stats_of(cs.push(x)) == base);
            assert(stats_of(cs.push(y)) == base.insert(n, totals(g@)));
        },
        _ => {
            assert(stats_of(cs.push(x)) == base);
            assert(stats_of(cs.push(y)) == base);
        },
    }
}

/// One failed task fails the whole mention stage: some failure is reported.
pub proof fn lemma_mention_stage_fails_fast(
    cs: Seq<Completion<Vec<Comment>>>,
    known: Set<u64>,
    k: int,
)
    requires
        0 <= k < cs.len(),
        mention_error(cs[k], known) is Some,
    ensures
        first_mention_error(cs, known) is Some,
    decreases k,
{
    if k > 0 && mention_error(cs[0], known) is None {
        assert(cs.drop_first()[k - 1] == cs[k]);
        lemma_mention_stage_fails_fast(cs.drop_first(), known, k - 1);
    }
}

/// One failed task fails the whole diff stage: some failure is reported.
pub proof fn lemma_diff_stage_fails_fast(
    cs: Seq<Completion<Vec<FileChange>>>,
    known: Set<u64>,
    k: int,
)
    requires
        0 <= k < cs.len(),
        diff_error(cs[k], known) is Some,
    ensures
        first_diff_error(cs, known) is Some,
    decreases k,
{
    if k > 0 && diff_error(cs[0], known) is None {
        assert(cs.drop_first()[k - 1] == cs[k]);
        lemma_diff_stage_fails_fast(cs.drop_first(), known, k - 1);
    }
}

fn known_number(prs: &Vec<PullRequest>, n: u64) -> (r: bool)
    ensures
        r == numbers_of(prs@).contains(n),
{
    let mut i: usize = 0;
    while i < prs.len()
        invariant
            0 <= i <= prs.len(),
            forall|k: int| 0 <= k < i ==> prs@[k].number != n,
        decreases prs.len() - i,
    {
        if prs[i].number == n {
            assert(prs@[i as int].number == n);
            return true;
        }
        i = i + 1;
    }
    false
}

/// Merges the results of the comment lookups, given in order of completion,
/// for the pull requests `prs`. Fails with the first failure; otherwise
/// returns the numbers whose thread mentions `login` or holds a comment by
/// `login`.
pub fn collect_mentions(
    prs: &Vec<PullRequest>,
    login: &String,
    completions: &Vec<Completion<Vec<Comment>>>,
) -> (r: Result<Vec<u64>, FanOutError>)
    ensures
        first_mention_error(completions@, numbers_of(prs@)) is None <==> r is Ok,
        r matches Err(e) ==> first_mention_error(completions@, numbers_of(prs@)) == Some(e),
        r matches Ok(ids) ==> forall|n: u64|
            ids@.contains(n) <==> #[trigger] mentioned(completions@, login@).contains(n),
{
    let ghost cs = completions@;
    let ghost known = numbers_of(prs@);
    let mut ids: Vec<u64> = Vec::new();
    let mut i: usize = 0;
    assert(cs.skip(0) =~= cs);
    assert(mentioned(cs.take(0), login@) =~= Set::empty());
    while i < completions.len()
        invariant
            0 <= i <= completions.len(),
            cs == completions@,
            known == numbers_of(prs@),
            first_mention_error(cs, known) == first_mention_error(cs.skip(i as int), known),
            forall|n: u64|
                ids@.contains(n) <==> #[trigger] mentioned(cs.take(i as int), login@).contains(n),
        decreases completions.len() - i,
    {
        let ghost rest = cs.skip(i as int);
        proof {
            assert(rest[0] == cs[i as int]);
            assert(rest.drop_first() =~= cs.skip(i + 1));
        }
        match &completions[i] {
            Completion::Finished(n, comments) => {
                if !known_number(prs, *n) {
                    return Err(FanOutError::UnknownItem(*n));
                }
                let hit = comments_mention_me(comments, login);
                let ghost before = ids@;
                if hit {
                    ids.push(*n);
                }
                proof {
                    let t = cs.take(i + 1);
                    assert(t[i as int] == cs[i as int]);
                    assert(cs[i as int] == Completion::Finished(*n, *comments));
                    assert forall|m: u64|
                        ids@.contains(m) <==> #[trigger] mentioned(t, login@).contains(m) by {
                        let prev = cs.take(i as int);
                        if mentioned(prev, login@).contains(m) {
                            let k = choose|k: int|
                                0 <= k < prev.len() && match #[trigger] prev[k] {
                                    Completion::Finished(x, c) => x == m && thread_concerns(
                                        c@,
                                        login@,
                                    ),
                                    _ => false,
                                };
                            assert(t[k] == prev[k]);
                            assert(mentioned(t, login@).contains(m));
                        }
                        if mentioned(t, login@).contains(m) {
                            let k = choose|k: int|
                                0 <= k < t.len() && match #[trigger] t[k] {
                                    Completion::Finished(x, c) => x == m && thread_concerns(
                                        c@,
                                        login@,
                                    ),
                                    _ => false,
                                };
                            if k < i {
                                assert(t[k] == prev[k]);
                                assert(mentioned(prev, login@).contains(m));
                                assert(before.contains(m));
                                let j = choose|j: int| 0 <= j < before.len() && before[j] == m;
                                assert(ids@[j] == m);
                            } else {
                                assert(k == i);
                                assert(hit);
                                assert(m == *n);
                                assert(ids@[ids@.len() - 1] == m);
                            }
                        }
                        if ids@.contains(m) {
                            if before.contains(m) {
                                assert(mentioned(prev, login@).contains(m));
                            } else {
                                let j = choose|j: int| 0 <= j < ids@.len() && ids@[j] == m;
                                if j < before.len() {
                                    assert(before[j] == m);
                                }
                                assert(hit && m == *n);
                                assert(match t[i as int] {
                                    Completion::Finished(x, c) => x == m && thread_concerns(
                                        c@,
                                        login@,
                                    ),
                                    _ => false,
                                });
                            }
                        }
                    }
                }
            },
            Completion::LookupFailed(m) => {
                return Err(FanOutError::Lookup(m.clone()));
            },
            Completion::TaskFailed(m) => {
                return Err(FanOutError::TaskFailed(m.clone()));
            },
        }
        i = i + 1;
    }
    assert(cs.take(cs.len() as int) =~= cs);
    Ok(ids)
}

/// Line counts by pull request number.
pub struct DiffStats {
    map: HashMap<u64, DiffStat>,
}

impl View for DiffStats {
    type V = Map<u64, DiffStat>;

    closed spec fn view(&self) -> Map<u64, DiffStat> {
        self.map@
    }
}

impl DiffStats {
    pub fn new() -> (r: DiffStats)
        ensures
            r@ == Map::<u64, DiffStat>::empty(),
    {
        DiffStats { map: HashMap::new() }
    }

    /// Records the counts of one pull request, replacing an earlier entry.
    pub fn insert(&mut self, id: u64, stat: DiffStat)
        ensures
            final(self)@ == old(self)@.insert(id, stat),
    {
        broadcast use group_hash_axioms;

        self.map.insert(id, stat);
    }

    /// The counts of `id`; zero counts where none were recorded.
    pub fn stat_of(&self, id: u64) -> (r: DiffStat)
        ensures
            r == stat_or_zero(self@, id),
    {
        broadcast use group_hash_axioms;

        match self.map.get(&id) {
            Some(d) => *d,
            None => DiffStat::zero(),
        }
    }
}

/// Merges the results of the changed-file lookups, given in order of
/// completion, for the pull requests of `relevant`. Fails with the first
/// failure (an unknown number, or counts that do not fit, count as failures);
/// otherwise maps each number to the sums over its changed files.
pub fn get_additions_deletions(
    relevant: &RelevantSet,
    completions: &Vec<Completion<Vec<FileChange>>>,
) -> (r: Result<DiffStats, FanOutError>)
    ensures
        first_diff_error(completions@, numbers_of(relevant@)) is None <==> r is Ok,
        r matches Err(e) ==> first_diff_error(completions@, numbers_of(relevant@)) == Some(e),
        r matches Ok(stats) ==> stats@ == stats_of(completions@),
{
    let ghost cs = completions@;
    let ghost known = numbers_of(relevant@);
    let mut stats = DiffStats::new();
    let mut i: usize = 0;
    assert(cs.skip(0) =~= cs);
    assert(cs.take(0) =~= Seq::<Completion<Vec<FileChange>>>::empty());
    while i < completions.len()
        invariant
            0 <= i <= completions.len(),
            cs == completions@,
            known == numbers_of(relevant@),
            first_diff_error(cs, known) == first_diff_error(cs.skip(i as int), known),
            stats@ == stats_of(cs.take(i as int)),
        decreases completions.len() - i,
    {
        let ghost rest = cs.skip(i as int);
        proof {
            assert(rest[0] == cs[i as int]);
            assert(rest.drop_first() =~= cs.skip(i + 1));
            assert(cs.take(i + 1).drop_last() =~= cs.take(i as int));
            assert(cs.take(i + 1).last() == cs[i as int]);
        }
        match &completions[i] {
            Completion::Finished(n, files) => {
                if !relevant.contains(crate::model::Identity { number: *n }) {
                    return Err(FanOutError::UnknownItem(*n));
                }
                match sum_files(files) {
                    Some(d) => {
                        stats.insert(*n, d);
                    },
                    None => {
                        return Err(FanOutError::Overflow(*n));
                    },
                }
            },
            Completion::LookupFailed(m) => {
                return Err(FanOutError::Lookup(m.clone()));
            },
            Completion::TaskFailed(m) => {
                return Err(FanOutError::TaskFailed(m.clone()));
            },
        }
        i = i + 1;
    }
    assert(cs.take(cs.len() as int) =~= cs);
    Ok(stats)
}

/// The numbers of the relevant set: those that concern the viewer directly,
/// together with those named in `mentioned`.
pub open spec fn union_spec(prs: Seq<PullRequest>, my_teams: Seq<u64>, me: Seq<char>, mentioned: Seq<u64>) -> Set<u64> {
    Set::new(
        |n: u64|
            exists|k: int|
                0 <= k < prs.len() && #[trigger] prs[k].number == n && (is_relevant(
                    prs[k],
                    my_teams,
                    me,
                ) || mentioned.contains(n)),
    )
}

fn in_list(ids: &Vec<u64>, n: u64) -> (r: bool)
    ensures
        r == ids@.contains(n),
{
    let mut i: usize = 0;
    while i < ids.len()
        invariant
            0 <= i <= ids.len(),
            forall|k: int| 0 <= k < i ==> ids@[k] != n,
        decreases ids.len() - i,
    {
        if ids[i] == n {
            return true;
        }
        i = i + 1;
    }
    false
}

/// Builds the relevant set from all listed pull requests: each one that
/// concerns `me` directly, or whose number is in `mentioned`, is inserted by
/// identity, so that a pull request found both ways stands once.
pub fn select_relevant(
    prs: Vec<PullRequest>,
    my_teams: &Vec<u64>,
    me: &String,
    mentioned: &Vec<u64>,
) -> (r: RelevantSet)
    ensures
        r.wf(),
        numbers_of(r@) == union_spec(prs@, my_teams@, me@, mentioned@),
        forall|k: int| 0 <= k < r@.len() ==> prs@.contains(#[trigger] r@[k]),
{
    let ghost all = prs@;
    assert(all.len() == prs.len());
    let mut set = RelevantSet::new();
    let mut rest = prs;
    let mut taken: usize = 0;
    assert(numbers_of(set@) =~= Set::empty());
    assert(union_spec(all.take(0), my_teams@, me@, mentioned@) =~= Set::empty());
    while rest.len() > 0
        invariant
            set.wf(),
            taken + rest.len() == all.len(),
            all.len() <= usize::MAX,
            rest@ == all.skip(taken as int),
            numbers_of(set@) == union_spec(all.take(taken as int), my_teams@, me@, mentioned@),
            forall|k: int| 0 <= k < set@.len() ==> all.contains(#[trigger] set@[k]),
        decreases rest.len(),
    {
        let pr = rest.remove(0);
        let ghost old_set = set@;
        proof {
            assert(rest@ =~= all.skip(taken + 1));
            assert(pr == all[taken as int]);
        }
        let keep = process_pr(&pr, my_teams, me) || in_list(mentioned, pr.number);
        if keep {
            set.insert(pr);
        }
        proof {
            let prev = all.take(taken as int);
            let next = all.take(taken + 1);
            assert(next[taken as int] == pr);
            assert forall|n: u64|
                #[trigger] union_spec(next, my_teams@, me@, mentioned@).contains(n) <==> (
                union_spec(prev, my_teams@, me@, mentioned@).contains(n) || (keep && n
                    == pr.number)) by {
                if union_spec(prev, my_teams@, me@, mentioned@).contains(n) {
                    let k = choose|k: int|
                        0 <= k < prev.len() && #[trigger] prev[k].number == n && (is_relevant(
                            prev[k],
                            my_teams@,
                            me@,
                        ) || mentioned@.contains(n));
                    assert(next[k] == prev[k]);
                }
                if union_spec(next, my_teams@, me@, mentioned@).contains(n) {
                    let k = choose|k: int|
                        0 <= k < next.len() && #[trigger] next[k].number == n && (is_relevant(
                            next[k],
                            my_teams@,
                            me@,
                        ) || mentioned@.contains(n));
                    if k < taken {
                        assert(next[k] == prev[k]);
                    }
                }
            }
            assert(union_spec(next, my_teams@, me@, mentioned@) =~= if keep {
                union_spec(prev, my_teams@, me@, mentioned@).insert(pr.number)
            } else {
                union_spec(prev, my_teams@, me@, mentioned@)
            });
            assert forall|k: int| 0 <= k < set@.len() implies all.contains(#[trigger] set@[k]) by {
                if k < old_set.len() {
                    assert(set@[k] == old_set[k]);
                } else {
                    assert(set@[k] == pr);
                    assert(all[taken as int] == pr);
                }
            }
        }
        taken = taken + 1;
    }
    assert(all.take(all.len() as int) =~= all);
    set
}

} // verus!
