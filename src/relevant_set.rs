//! The set of pull requests that concern the viewer, keyed by identity.
use vstd::prelude::*;
use crate::model::{Identity, PullRequest};

verus! {

/// No two pull requests share a number.
pub open spec fn numbers_distinct(s: Seq<PullRequest>) -> bool {
    forall|i: int, j: int|
        0 <= i < s.len() && 0 <= j < s.len() && i != j ==> s[i].number != s[j].number
}

pub open spec fn numbers_of(s: Seq<PullRequest>) -> Set<u64> {
    Set::new(|n: u64| exists|i: int| 0 <= i < s.len() && #[trigger] s[i].number == n)
}

/// Set insertion keyed by number: an entry already there is kept.
pub open spec fn insert_spec(s: Seq<PullRequest>, pr: PullRequest) -> Seq<PullRequest> {
    if numbers_of(s).contains(pr.number) {
        s
    } else {
        s.push(pr)
    }
}

/// Pull requests, at most one per number, in order of first insertion.
pub struct RelevantSet {
    items: Vec<PullRequest>,
}

impl View for RelevantSet {
    type V = Seq<PullRequest>;

    closed spec fn view(&self) -> Seq<PullRequest> {
        self.items@
    }
}

impl RelevantSet {
    pub closed spec fn wf(&self) -> bool {
        numbers_distinct(self.items@)
    }

    pub proof fn lemma_wf_distinct(&self)
        requires
            self.wf(),
        ensures
            numbers_distinct(self@),
    {
    }

    pub fn new() -> (r: RelevantSet)
        ensures
            r.wf(),
            r@ == Seq::<PullRequest>::empty(),
    {
        RelevantSet { items: Vec::new() }
    }

    pub fn len(&self) -> (r: usize)
        ensures
            r == self@.len(),
    {
        self.items.len()
    }

    /// The pull requests held, in order of first insertion.
    pub fn items(&self) -> (r: &Vec<PullRequest>)
        ensures
            r@ == self@,
    {
        &self.items
    }

    pub fn into_items(self) -> (r: Vec<PullRequest>)
        ensures
            r@ == self@,
    {
        self.items
    }

    pub fn contains(&self, id: Identity) -> (r: bool)
        ensures
            r == numbers_of(self@).contains(id.number),
    {
        let mut i: usize = 0;
        while i < self.items.len()
            invariant
                0 <= i <= self.items.len(),
                forall|k: int| 0 <= k < i ==> self.items@[k].number != id.number,
            decreases self.items.len() - i,
        {
            if self.items[i].number == id.number {
                assert(self.items@[i as int].number == id.number);
                return true;
            }
            i = i + 1;
        }
        false
    }

    /// Adds `pr` unless a pull request with its number is there already.
    pub fn insert(&mut self, pr: PullRequest)
        requires
            old(self).wf(),
        ensures
            final(self).wf(),
            final(self)@ == insert_spec(old(self)@, pr),
            numbers_of(final(self)@) == numbers_of(old(self)@).insert(pr.number),
    {
        proof {
            lemma_insert_numbers(self@, pr);
        }
        if !self.contains(pr.identity()) {
            self.items.push(pr);
        }
    }
}

/// What insertion does to the set of numbers.
pub proof fn lemma_insert_numbers(s: Seq<PullRequest>, pr: PullRequest)
    requires
        numbers_distinct(s),
    ensures
        numbers_distinct(insert_spec(s, pr)),
        numbers_of(insert_spec(s, pr)) == numbers_of(s).insert(pr.number),
{
    let t = insert_spec(s, pr);
    if !numbers_of(s).contains(pr.number) {
        assert forall|i: int| 0 <= i < s.len() implies s[i].number != pr.number by {
            if s[i].number == pr.number {
                assert(numbers_of(s).contains(pr.number));
            }
        }
        assert(t[s.len() as int].number == pr.number);
    }
    assert forall|n: u64| numbers_of(t).contains(n) <==> numbers_of(s).insert(pr.number).contains(n) by {
        if numbers_of(s).contains(n) {
            let i = choose|i: int| 0 <= i < s.len() && #[trigger] s[i].number == n;
            assert(t[i].number == n);
        }
        if numbers_of(t).contains(n) {
            let i = choose|i: int| 0 <= i < t.len() && #[trigger] t[i].number == n;
            if i < s.len() {
                assert(s[i].number == n);
            }
        }
    }
    assert(numbers_of(t) =~= numbers_of(s).insert(pr.number));
}

/// Inserting two pull requests of the same identity into an empty set leaves
/// exactly one entry, the first.
pub proof fn lemma_same_identity_once(a: PullRequest, b: PullRequest)
    requires
        a.number == b.number,
    ensures
        insert_spec(insert_spec(Seq::empty(), a), b) == seq![a],
        insert_spec(insert_spec(Seq::empty(), a), b).len() == 1,
{
    let s1 = insert_spec(Seq::empty(), a);
    assert(!numbers_of(Seq::<PullRequest>::empty()).contains(a.number));
    assert(s1 =~= seq![a]);
    assert(s1[0].number == b.number);
    assert(numbers_of(s1).contains(b.number));
}

/// Inserting an identity already present changes nothing.
pub proof fn lemma_insert_present(s: Seq<PullRequest>, pr: PullRequest)
    requires
        numbers_of(s).contains(pr.number),
    ensures
        insert_spec(s, pr) == s,
{
}

/// The numbers that insertion collects do not depend on the order in which
/// the entries arrive.
pub proof fn lemma_insert_commutes(s: Seq<PullRequest>, a: PullRequest, b: PullRequest)
    requires
        numbers_distinct(s),
    ensures
        numbers_of(insert_spec(insert_spec(s, a), b)) == numbers_of(
            insert_spec(insert_spec(s, b), a),
        ),
{
    lemma_insert_numbers(s, a);
    lemma_insert_numbers(s, b);
    lemma_insert_numbers(insert_spec(s, a), b);
    lemma_insert_numbers(insert_spec(s, b), a);
    assert(numbers_of(s).insert(a.number).insert(b.number) =~= numbers_of(s).insert(
        b.number,
    ).insert(a.number));
}

} // verus!
