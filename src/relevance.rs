//! Deciding whether a pull request concerns the viewer.
use vstd::prelude::*;
use vstd::string::*;
use crate::model::{Comment, PullRequest};

verus! {

/// `p` occurs in `s` as a contiguous run.
pub open spec fn has_substring(s: Seq<char>, p: Seq<char>) -> bool {
    exists|i: int| 0 <= i && i + p.len() <= s.len() && #[trigger] s.subrange(i, i + p.len()) == p
}

/// The text that mentions `login`: `@login`.
pub open spec fn mention_of(login: Seq<char>) -> Seq<char> {
    seq!['@'] + login
}

pub open spec fn mentions(text: Seq<char>, login: Seq<char>) -> bool {
    has_substring(text, mention_of(login))
}

/// A missing body reads as empty.
pub open spec fn body_text(pr: PullRequest) -> Seq<char> {
    match pr.body {
        Some(b) => b@,
        None => Seq::empty(),
    }
}

pub open spec fn lists_login(logins: Seq<String>, me: Seq<char>) -> bool {
    exists|i: int| 0 <= i < logins.len() && #[trigger] logins[i]@ == me
}

pub open spec fn team_is_mine(team: Option<u64>, my_teams: Seq<u64>) -> bool {
    match team {
        Some(id) => my_teams.contains(id),
        None => false,
    }
}

pub open spec fn requests_my_team(teams: Seq<Option<u64>>, my_teams: Seq<u64>) -> bool {
    exists|i: int| 0 <= i < teams.len() && team_is_mine(#[trigger] teams[i], my_teams)
}

/// A pull request concerns the viewer when the viewer is asked for approval,
/// is mentioned in the body, belongs to a requested team, or is an assignee.
pub open spec fn is_relevant(pr: PullRequest, my_teams: Seq<u64>, me: Seq<char>) -> bool {
    lists_login(pr.requested_reviewers@, me) || mentions(body_text(pr), me)
        || requests_my_team(pr.requested_teams@, my_teams) || lists_login(pr.assignees@, me)
}

/// A comment concerns the viewer when it mentions the viewer or the viewer wrote it.
pub open spec fn comment_concerns(c: Comment, me: Seq<char>) -> bool {
    mentions(c.body@, me) || match c.author {
        Some(a) => a@ == me,
        None => false,
    }
}

pub open spec fn thread_concerns(comments: Seq<Comment>, me: Seq<char>) -> bool {
    exists|i: int| 0 <= i < comments.len() && comment_concerns(#[trigger] comments[i], me)
}

/// Relies on str::contains with a `&str` pattern: true exactly when the
/// pattern occurs in the text as a contiguous run of characters.
#[verifier::external_body]
fn str_contains(text: &str, pat: &str) -> (r: bool)
    ensures
        r == has_substring(text@, pat@),
{
    text.contains(pat)
}

/// Whether `text` holds `@login`.
pub fn text_mentions(text: &str, login: &str) -> (r: bool)
    ensures
        r == mentions(text@, login@),
{
    let mut tag = String::from_str("@");
    tag.append(login);
    proof {
        reveal_strlit("@");
    }
    assert(tag@ == mention_of(login@));
    str_contains(text, tag.as_str())
}

fn lists(logins: &Vec<String>, me: &String) -> (r: bool)
    ensures
        r == lists_login(logins@, me@),
{
    let mut i: usize = 0;
    while i < logins.len()
        invariant
            0 <= i <= logins.len(),
            forall|k: int| 0 <= k < i ==> logins@[k]@ != me@,
        decreases logins.len() - i,
    {
        if logins[i] == *me {
            return true;
        }
        i = i + 1;
    }
    false
}

fn is_mine(id: u64, my_teams: &Vec<u64>) -> (r: bool)
    ensures
        r == my_teams@.contains(id),
{
    let mut i: usize = 0;
    while i < my_teams.len()
        invariant
            0 <= i <= my_teams.len(),
            forall|k: int| 0 <= k < i ==> my_teams@[k] != id,
        decreases my_teams.len() - i,
    {
        if my_teams[i] == id {
            return true;
        }
        i = i + 1;
    }
    false
}

fn requests_team(teams: &Vec<Option<u64>>, my_teams: &Vec<u64>) -> (r: bool)
    ensures
        r == requests_my_team(teams@, my_teams@),
{
    let mut i: usize = 0;
    while i < teams.len()
        invariant
            0 <= i <= teams.len(),
            forall|k: int| 0 <= k < i ==> !team_is_mine(#[trigger] teams@[k], my_teams@),
        decreases teams.len() - i,
    {
        match teams[i] {
            Some(id) => {
                if is_mine(id, my_teams) {
                    return true;
                }
            },
            None => {},
        }
        i = i + 1;
    }
    false
}

/// Whether the pull request concerns the viewer `me`, whose teams in the
/// repository's organisation are `my_teams`. The answer depends on the
/// arguments alone.
pub fn process_pr(pr: &PullRequest, my_teams: &Vec<u64>, me: &String) -> (r: bool)
    ensures
        r == is_relevant(*pr, my_teams@, me@),
{
    let requested_review = lists(&pr.requested_reviewers, me);
    let mentions_me = match &pr.body {
        Some(b) => text_mentions(b.as_str(), me.as_str()),
        None => {
            proof {
                assert(mention_of(me@).len() >= 1);
                assert(!has_substring(Seq::<char>::empty(), mention_of(me@)));
            }
            false
        },
    };
    let assigned_to_my_team = requests_team(&pr.requested_teams, my_teams);
    let assigned_to_me = lists(&pr.assignees, me);
    requested_review || mentions_me || assigned_to_my_team || assigned_to_me
}

/// Whether one comment mentions `login` or was written by `login`.
pub fn comment_mentions(c: &Comment, login: &String) -> (r: bool)
    ensures
        r == comment_concerns(*c, login@),
{
    if text_mentions(c.body.as_str(), login.as_str()) {
        return true;
    }
    match &c.author {
        Some(a) => *a == *login,
        None => false,
    }
}

/// Whether any comment of a thread concerns `login`.
pub fn comments_mention_me(comments: &Vec<Comment>, login: &String) -> (r: bool)
    ensures
        r == thread_concerns(comments@, login@),
{
    let mut i: usize = 0;
    while i < comments.len()
        invariant
            0 <= i <= comments.len(),
            forall|k: int| 0 <= k < i ==> !comment_concerns(#[trigger] comments@[k], login@),
        decreases comments.len() - i,
    {
        if comment_mentions(&comments[i], login) {
            return true;
        }
        i = i + 1;
    }
    false
}

/// A team the viewer belongs to, with the login of its organisation.
pub struct TeamInfo {
    pub id: u64,
    pub org_login: Option<String>,
}

pub open spec fn in_org(t: TeamInfo, owner: Seq<char>) -> bool {
    match t.org_login {
        Some(o) => o@ == owner,
        None => false,
    }
}

/// The identifiers of the viewer's teams whose organisation is `owner`, in
/// the order given.
pub open spec fn teams_of_org(teams: Seq<TeamInfo>, owner: Seq<char>) -> Seq<u64>
    decreases teams.len(),
{
    if teams.len() == 0 {
        Seq::empty()
    } else if in_org(teams.last(), owner) {
        teams_of_org(teams.drop_last(), owner).push(teams.last().id)
    } else {
        teams_of_org(teams.drop_last(), owner)
    }
}

/// Keeps the teams that belong to the organisation `owner`.
pub fn my_team_ids(teams: &Vec<TeamInfo>, owner: &String) -> (r: Vec<u64>)
    ensures
        r@ == teams_of_org(teams@, owner@),
{
    let mut ids: Vec<u64> = Vec::new();
    let mut i: usize = 0;
    while i < teams.len()
        invariant
            0 <= i <= teams.len(),
            ids@ == teams_of_org(teams@.take(i as int), owner@),
        decreases teams.len() - i,
    {
        proof {
            assert(teams@.take(i + 1).drop_last() =~= teams@.take(i as int));
            assert(teams@.take(i + 1).last() == teams@[i as int]);
        }
        let keep = match &teams[i].org_login {
            Some(o) => *o == *owner,
            None => false,
        };
        if keep {
            ids.push(teams[i].id);
        }
        i = i + 1;
    }
    assert(teams@.take(teams.len() as int) =~= teams@);
    ids
}

} // verus!
