use prs_for_me::cli::{ArgState, Cli};
use prs_for_me::diffstat::sum_files;
use prs_for_me::fanout::{
    collect_mentions, get_additions_deletions, select_relevant, Completion, DiffStats,
    FanOutError,
};
use prs_for_me::model::{Comment, DiffStat, FileChange, PullRequest};
use prs_for_me::order::order_rows;
use prs_for_me::relevance::{
    comments_mention_me, my_team_ids, process_pr, text_mentions, TeamInfo,
};
use prs_for_me::relevant_set::RelevantSet;

fn pr(number: u64) -> PullRequest {
    PullRequest {
        number,
        title: None,
        author: None,
        body: None,
        updated_at: None,
        html_url: None,
        requested_reviewers: Vec::new(),
        assignees: Vec::new(),
        requested_teams: Vec::new(),
    }
}

fn fc(additions: u64, deletions: u64) -> FileChange {
    FileChange { additions, deletions }
}

fn me() -> String {
    "alice".to_string()
}

#[test]
fn relevance_is_deterministic() {
    let mut p = pr(3);
    p.assignees = vec!["bob".to_string(), "alice".to_string()];
    let teams = vec![1u64];
    let first = process_pr(&p, &teams, &me());
    let second = process_pr(&p, &teams, &me());
    assert!(first);
    assert_eq!(first, second);
    let q = pr(4);
    assert_eq!(process_pr(&q, &teams, &me()), process_pr(&q, &teams, &me()));
    assert!(!process_pr(&q, &teams, &me()));
}

#[test]
fn requested_team_makes_relevant() {
    let mut p = pr(10);
    p.requested_teams = vec![Some(1)];
    p.body = Some(String::new());
    assert!(process_pr(&p, &vec![1], &me()));
    assert!(!process_pr(&p, &vec![2], &me()));
}

#[test]
fn body_mention_makes_relevant() {
    let mut p = pr(11);
    p.body = Some("please check @alice".to_string());
    assert!(process_pr(&p, &Vec::new(), &me()));
    p.body = Some("please check alice".to_string());
    assert!(!process_pr(&p, &Vec::new(), &me()));
}

#[test]
fn reviewer_makes_relevant() {
    let mut p = pr(12);
    p.requested_reviewers = vec!["alice".to_string()];
    assert!(process_pr(&p, &Vec::new(), &me()));
    p.requested_reviewers = vec!["alicia".to_string()];
    assert!(!process_pr(&p, &Vec::new(), &me()));
}

#[test]
fn team_without_id_never_matches() {
    let mut p = pr(13);
    p.requested_teams = vec![None];
    assert!(!process_pr(&p, &vec![0], &me()));
}

#[test]
fn mention_text() {
    assert!(text_mentions("hi @alice!", "alice"));
    assert!(!text_mentions("hi alice", "alice"));
    assert!(!text_mentions("", "alice"));
}

#[test]
fn comments_by_author_or_mention() {
    let by_me = vec![Comment { author: Some("alice".to_string()), body: "fine by me".to_string() }];
    assert!(comments_mention_me(&by_me, &me()));
    let mention = vec![
        Comment { author: None, body: "nothing".to_string() },
        Comment { author: Some("bob".to_string()), body: "cc @alice".to_string() },
    ];
    assert!(comments_mention_me(&mention, &me()));
    let other = vec![Comment { author: Some("bob".to_string()), body: "ok".to_string() }];
    assert!(!comments_mention_me(&other, &me()));
    assert!(!comments_mention_me(&Vec::new(), &me()));
}

#[test]
fn same_identity_inserted_once() {
    let mut set = RelevantSet::new();
    set.insert(pr(5));
    let mut again = pr(5);
    again.title = Some("stale copy".to_string());
    set.insert(again);
    assert_eq!(set.len(), 1);
    assert_eq!(set.items()[0].title, None);
}

#[test]
fn direct_and_comment_match_give_one_entry() {
    let mut p = pr(5);
    p.assignees = vec!["alice".to_string()];
    let prs = vec![p, pr(6)];
    let completions = vec![
        Completion::Finished(6, vec![Comment { author: None, body: "x".to_string() }]),
        Completion::Finished(5, vec![Comment { author: Some("alice".to_string()), body: "y".to_string() }]),
    ];
    let mentioned = collect_mentions(&prs, &me(), &completions).unwrap();
    assert_eq!(mentioned, vec![5]);
    let set = select_relevant(prs, &Vec::new(), &me(), &mentioned);
    assert_eq!(set.len(), 1);
    assert_eq!(set.items()[0].number, 5);
}

#[test]
fn mention_adds_to_relevant_set() {
    let prs = vec![pr(1), pr(2), pr(3)];
    let set = select_relevant(prs, &Vec::new(), &me(), &vec![3, 1]);
    let numbers: Vec<u64> = set.items().iter().map(|p| p.number).collect();
    assert_eq!(numbers, vec![1, 3]);
}

#[test]
fn changed_files_are_summed() {
    let d = sum_files(&vec![fc(10, 2), fc(3, 0)]).unwrap();
    assert_eq!(d, DiffStat { additions: 13, deletions: 2 });
    assert_eq!(sum_files(&Vec::new()).unwrap(), DiffStat { additions: 0, deletions: 0 });
}

#[test]
fn file_order_does_not_matter() {
    let a = sum_files(&vec![fc(1, 9), fc(20, 0), fc(300, 4)]).unwrap();
    let b = sum_files(&vec![fc(300, 4), fc(1, 9), fc(20, 0)]).unwrap();
    assert_eq!(a, b);
    assert_eq!(a, DiffStat { additions: 321, deletions: 13 });
}

#[test]
fn overflowing_sum_is_refused() {
    assert_eq!(sum_files(&vec![fc(u64::MAX, 0), fc(1, 0)]), None);
    assert_eq!(
        sum_files(&vec![fc(u64::MAX, 1)]),
        Some(DiffStat { additions: u64::MAX, deletions: 1 })
    );
}

#[test]
fn missing_stat_reads_as_zero() {
    let mut stats = DiffStats::new();
    stats.insert(7, DiffStat { additions: 13, deletions: 2 });
    assert_eq!(stats.stat_of(7), DiffStat { additions: 13, deletions: 2 });
    assert_eq!(stats.stat_of(8), DiffStat::zero());
}

fn relevant(numbers: &[u64]) -> RelevantSet {
    let mut set = RelevantSet::new();
    for n in numbers {
        set.insert(pr(*n));
    }
    set
}

#[test]
fn diff_stage_collects_all() {
    let set = relevant(&[7, 9]);
    let completions = vec![
        Completion::Finished(9, vec![]),
        Completion::Finished(7, vec![fc(10, 2), fc(3, 0)]),
    ];
    let stats = get_additions_deletions(&set, &completions).unwrap();
    assert_eq!(stats.stat_of(7), DiffStat { additions: 13, deletions: 2 });
    assert_eq!(stats.stat_of(9), DiffStat::zero());
}

#[test]
fn diff_stage_fails_fast() {
    let set = relevant(&[7, 8]);
    let completions = vec![
        Completion::Finished(7, vec![fc(1, 1)]),
        Completion::LookupFailed("boom".to_string()),
        Completion::TaskFailed("later".to_string()),
    ];
    let r = get_additions_deletions(&set, &completions);
    assert!(matches!(r, Err(FanOutError::Lookup(ref m)) if m == "boom"));
}

#[test]
fn diff_stage_reports_unknown_and_overflow() {
    let set = relevant(&[7]);
    let unknown = vec![Completion::Finished(99, vec![])];
    assert!(matches!(get_additions_deletions(&set, &unknown), Err(FanOutError::UnknownItem(99))));
    let big = vec![Completion::Finished(7, vec![fc(u64::MAX, 0), fc(1, 0)])];
    assert!(matches!(get_additions_deletions(&set, &big), Err(FanOutError::Overflow(7))));
    let joined = vec![Completion::TaskFailed("gone".to_string())];
    assert!(matches!(get_additions_deletions(&set, &joined), Err(FanOutError::TaskFailed(_))));
}

#[test]
fn mention_stage_fails_fast() {
    let prs = vec![pr(1), pr(2)];
    let completions = vec![
        Completion::Finished(1, vec![Comment { author: Some("alice".to_string()), body: String::new() }]),
        Completion::TaskFailed("join".to_string()),
    ];
    let r = collect_mentions(&prs, &me(), &completions);
    assert!(matches!(r, Err(FanOutError::TaskFailed(ref m)) if m == "join"));
    let unknown = vec![Completion::Finished(3, vec![])];
    assert!(matches!(collect_mentions(&prs, &me(), &unknown), Err(FanOutError::UnknownItem(3))));
    let failed = vec![Completion::LookupFailed("net".to_string())];
    assert!(matches!(collect_mentions(&prs, &me(), &failed), Err(FanOutError::Lookup(_))));
}

#[test]
fn failed_diff_stage_stops_before_rows() {
    let mut p = pr(8);
    p.assignees = vec!["alice".to_string()];
    let set = select_relevant(vec![p, pr(2)], &Vec::new(), &me(), &Vec::new());
    assert_eq!(set.len(), 1);
    let completions = vec![Completion::LookupFailed("other item failed".to_string())];
    assert!(get_additions_deletions(&set, &completions).is_err());
}

#[test]
fn equal_times_sort_by_number() {
    let mut a = pr(20);
    a.updated_at = Some(1000);
    let mut b = pr(4);
    b.updated_at = Some(1000);
    let mut c = pr(1);
    c.updated_at = Some(5000);
    let d = pr(2);
    let mut set = RelevantSet::new();
    set.insert(d);
    set.insert(a);
    set.insert(b);
    set.insert(c);
    let mut stats = DiffStats::new();
    stats.insert(4, DiffStat { additions: 5, deletions: 6 });
    let rows = order_rows(set, &stats);
    let numbers: Vec<u64> = rows.iter().map(|r| r.pr.number).collect();
    assert_eq!(numbers, vec![1, 4, 20, 2]);
    assert_eq!(rows[1].stat, DiffStat { additions: 5, deletions: 6 });
    assert_eq!(rows[0].stat, DiffStat::zero());
}

#[test]
fn teams_filtered_by_organisation() {
    let teams = vec![
        TeamInfo { id: 1, org_login: Some("acme".to_string()) },
        TeamInfo { id: 2, org_login: Some("other".to_string()) },
        TeamInfo { id: 3, org_login: None },
        TeamInfo { id: 4, org_login: Some("acme".to_string()) },
    ];
    assert_eq!(my_team_ids(&teams, &"acme".to_string()), vec![1, 4]);
}

#[test]
fn states_by_name() {
    assert_eq!(ArgState::from_str("open", false), Ok(ArgState::Open));
    assert_eq!(ArgState::from_str("closed", true), Ok(ArgState::Closed));
    assert_eq!(ArgState::from_str("all", false), Ok(ArgState::All));
    assert!(ArgState::from_str("Open", false).is_err());
    assert!(ArgState::from_str("", false).is_err());
    assert_eq!(ArgState::Closed.to_possible_value(), "closed");
    assert_eq!(ArgState::value_variants(), vec![ArgState::Open, ArgState::Closed, ArgState::All]);
}

#[test]
fn args_checked() {
    let c = Cli::get_args("acme/tool".to_string(), true, "all", 50).unwrap();
    assert_eq!(c.repo, "acme/tool");
    assert!(c.comments);
    assert_eq!(c.state, ArgState::All);
    assert_eq!(c.last, 50);
    assert!(Cli::get_args("tool".to_string(), false, "merged", 5).is_err());
}

#[test]
fn repository_name_split() {
    let with_owner = Cli::get_args("acme/tool".to_string(), false, "open", 1).unwrap();
    assert_eq!(with_owner.repo_parts(), (Some("acme".to_string()), "tool".to_string()));
    let bare = Cli::get_args("tool".to_string(), false, "open", 1).unwrap();
    assert_eq!(bare.repo_parts(), (None, "tool".to_string()));
    let deep = Cli::get_args("a/b/c".to_string(), false, "open", 1).unwrap();
    assert_eq!(deep.repo_parts(), (Some("a".to_string()), "b".to_string()));
}

#[test]
fn failure_messages() {
    assert_eq!(FanOutError::Lookup("net down".to_string()).message(), "net down");
    assert_eq!(FanOutError::Overflow(3).message(), "line counts too large");
}

#[test]
fn merge_order_does_not_matter() {
    let prs = vec![pr(1), pr(2), pr(3)];
    let hit = || vec![Comment { author: None, body: "@alice look".to_string() }];
    let forward = vec![
        Completion::Finished(1, hit()),
        Completion::Finished(2, Vec::new()),
        Completion::Finished(3, hit()),
    ];
    let backward = vec![
        Completion::Finished(3, hit()),
        Completion::Finished(2, Vec::new()),
        Completion::Finished(1, hit()),
    ];
    let mut a = collect_mentions(&prs, &me(), &forward).unwrap();
    let mut b = collect_mentions(&prs, &me(), &backward).unwrap();
    a.sort();
    b.sort();
    assert_eq!(a, vec![1, 3]);
    assert_eq!(a, b);

    let set = relevant(&[1, 2]);
    let x = vec![Completion::Finished(1, vec![fc(4, 1)]), Completion::Finished(2, vec![fc(0, 7)])];
    let y = vec![Completion::Finished(2, vec![fc(0, 7)]), Completion::Finished(1, vec![fc(4, 1)])];
    let sx = get_additions_deletions(&set, &x).unwrap();
    let sy = get_additions_deletions(&set, &y).unwrap();
    for n in [1u64, 2, 3] {
        assert_eq!(sx.stat_of(n), sy.stat_of(n));
    }
    assert_eq!(sx.stat_of(2), DiffStat { additions: 0, deletions: 7 });
}
