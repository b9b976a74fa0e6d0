//! The options a run is started with.
use vstd::prelude::*;
use vstd::string::*;

verus! {

/// Which pull requests to list, by state.
#[derive(PartialEq, Eq, Structural, Clone, Copy, Debug)]
pub enum ArgState {
    Open,
    Closed,
    All,
}

/// The state that a command-line word names.
pub open spec fn state_named(s: Seq<char>) -> Option<ArgState> {
    if s == "open"@ {
        Some(ArgState::Open)
    } else if s == "closed"@ {
        Some(ArgState::Closed)
    } else if s == "all"@ {
        Some(ArgState::All)
    } else {
        None
    }
}

pub open spec fn name_of(a: ArgState) -> Seq<char> {
    match a {
        ArgState::Open => "open"@,
        ArgState::Closed => "closed"@,
        ArgState::All => "all"@,
    }
}

/// Relies on clap::Error::new with ErrorKind::ValueValidation, shown with
/// to_string: the message clap gives for a rejected value.
#[verifier::external_body]
fn validation_message() -> (r: String) {
    clap::Error::new(clap::error::ErrorKind::ValueValidation).to_string()
}

/// Whether two strings hold the same characters.
pub fn same_text(a: &str, b: &str) -> (r: bool)
    ensures
        r == (a@ == b@),
{
    let n = a.unicode_len();
    if n != b.unicode_len() {
        return false;
    }
    let mut i: usize = 0;
    while i < n
        invariant
            n == a@.len(),
            n == b@.len(),
            0 <= i <= n,
            forall|k: int| 0 <= k < i ==> a@[k] == b@[k],
        decreases n - i,
    {
        if a.get_char(i) != b.get_char(i) {
            return false;
        }
        i = i + 1;
    }
    assert(a@ =~= b@);
    true
}

impl ArgState {
    /// Reads a state from its name; case matters whatever `_ignore_case` says.
    pub fn from_str(input: &str, _ignore_case: bool) -> (r: Result<ArgState, String>)
        ensures
            r is Ok <==> state_named(input@) is Some,
            r matches Ok(s) ==> state_named(input@) == Some(s),
    {
        if same_text(input, "open") {
            Ok(ArgState::Open)
        } else if same_text(input, "closed") {
            Ok(ArgState::Closed)
        } else if same_text(input, "all") {
            Ok(ArgState::All)
        } else {
            Err(validation_message())
        }
    }

    /// The name a state is written with.
    pub fn to_possible_value(&self) -> (r: &'static str)
        ensures
            r@ == name_of(*self),
    {
        match self {
            ArgState::Open => "open",
            ArgState::Closed => "closed",
            ArgState::All => "all",
        }
    }

    /// Every state, in the order they are offered.
    pub fn value_variants() -> (r: Vec<ArgState>)
        ensures
            r@ == seq![ArgState::Open, ArgState::Closed, ArgState::All],
    {
        vec![ArgState::Open, ArgState::Closed, ArgState::All]
    }
}

/// The options of a run.
pub struct Cli {
    /// `owner/name`, or a bare name owned by the viewer.
    pub repo: String,
    /// Whether review threads are searched for mentions too.
    pub comments: bool,
    pub state: ArgState,
    /// How many pull requests to list.
    pub last: u8,
}

/// `i` is the first position at or after `start` that holds a slash, or the
/// length where none does.
pub open spec fn first_slash_from(s: Seq<char>, start: int, i: int) -> bool {
    &&& start <= i <= s.len()
    &&& (i == s.len() || s[i] == '/')
    &&& forall|k: int| start <= k < i ==> s[k] != '/'
}

fn find_slash(s: &str, start: usize) -> (r: usize)
    requires
        start <= s@.len(),
    ensures
        first_slash_from(s@, start as int, r as int),
{
    let n = s.unicode_len();
    let mut i = start;
    while i < n
        invariant
            n == s@.len(),
            start <= i <= n,
            forall|k: int| start <= k < i ==> s@[k] != '/',
        decreases n - i,
    {
        if s.get_char(i) == '/' {
            return i;
        }
        i = i + 1;
    }
    i
}

impl Cli {
    /// Splits `owner/name`: the owner (none where the text holds no slash)
    /// and the name, which ends at the next slash or the end.
    pub fn repo_parts(&self) -> (r: (Option<String>, String))
        ensures
            r.0 is None ==> first_slash_from(self.repo@, 0, self.repo@.len() as int) && r.1@
                == self.repo@,
            r.0 matches Some(owner) ==> exists|i: int, j: int|
                #[trigger] first_slash_from(self.repo@, 0, i) && i < self.repo@.len()
                    && #[trigger] first_slash_from(self.repo@, i + 1, j) && owner@ == self.repo@.subrange(0, i)
                    && r.1@ == self.repo@.subrange(i + 1, j),
    {
        let s = self.repo.as_str();
        let n = s.unicode_len();
        let i = find_slash(s, 0);
        if i == n {
            assert(s@.subrange(0, n as int) =~= s@);
            return (None, s.substring_char(0, n).to_owned());
        }
        let j = find_slash(s, i + 1);
        let owner = s.substring_char(0, i).to_owned();
        let name = s.substring_char(i + 1, j).to_owned();
        assert(first_slash_from(self.repo@, 0, i as int) && first_slash_from(self.repo@, i + 1, j as int));
        (Some(owner), name)
    }

    /// The options from the values given on the command line; fails where
    /// `state` names no state.
    pub fn get_args(repo: String, comments: bool, state: &str, last: u8) -> (r: Result<Cli, String>)
        ensures
            r is Ok <==> state_named(state@) is Some,
            r matches Ok(c) ==> c.repo == repo && c.comments == comments && c.last == last
                && Some(c.state) == state_named(state@),
    {
        match ArgState::from_str(state, false) {
            Ok(s) => Ok(Cli { repo, comments, state: s, last }),
            Err(e) => Err(e),
        }
    }
}

} // verus!
