use needle::github::{
    collect_prs, convert_nodes, is_review_requested_by_user, map_check, map_ci_checks,
    map_ci_state, map_review_state, merge_prs, next_cursor, search_query, sift_authored,
    sift_requested, sort_checks, to_pr, PullRequestNode, Repository, RequestedReviewer,
    SearchNode, StatusCheckRollup, StatusContextNode,
};
use needle::model::{CiCheck, CiCheckState, CiState, ReviewState};
use needle::timeutil::{parse_github_datetime_to_unix, unix_to_ymd};

fn s(text: &str) -> Option<String> {
    Some(text.to_string())
}

fn check_run(name: Option<&str>, conclusion: Option<&str>, started: Option<&str>) -> StatusContextNode {
    StatusContextNode {
        typename: s("CheckRun"),
        name: name.map(|n| n.to_string()),
        conclusion: conclusion.map(|n| n.to_string()),
        details_url: s("https://ci/run"),
        started_at: started.map(|n| n.to_string()),
        context: None,
        state: None,
        target_url: None,
    }
}

fn status(context: Option<&str>, state: Option<&str>) -> StatusContextNode {
    StatusContextNode {
        typename: s("StatusContext"),
        name: None,
        conclusion: None,
        details_url: None,
        started_at: None,
        context: context.map(|n| n.to_string()),
        state: state.map(|n| n.to_string()),
        target_url: s("https://ci/status"),
    }
}

fn node(number: i64, updated_at: &str) -> PullRequestNode {
    PullRequestNode {
        number,
        title: format!("PR {}", number),
        url: format!("https://github.com/acme/web/pull/{}", number),
        updated_at: updated_at.to_string(),
        repository: Repository { name: "web".to_string(), owner: "acme".to_string() },
        author: s("alice"),
        review_requests: Vec::new(),
        head_ref_oid: s("abc1234"),
        review_decision: None,
        rollup: None,
    }
}

fn search(number: i64, updated_at: &str, reviewer: Option<(&str, &str)>) -> SearchNode {
    SearchNode {
        typename: s("PullRequest"),
        number: Some(number),
        title: s("T"),
        url: s("https://x"),
        updated_at: s(updated_at),
        repository: Some(Repository { name: "web".to_string(), owner: "acme".to_string() }),
        author: None,
        review_requests: vec![
            None,
            reviewer.map(|(kind, login)| RequestedReviewer { typename: s(kind), login: s(login) }),
        ],
        head_ref_oid: None,
        review_decision: None,
        rollup: None,
    }
}

fn named(name: &str, state: CiCheckState, url: &str) -> CiCheck {
    CiCheck { name: name.to_string(), state, url: s(url), started_at_unix: None }
}

#[test]
fn timestamps_are_read() {
    assert_eq!(parse_github_datetime_to_unix("1970-01-01T00:00:00Z"), Some(0));
    assert_eq!(parse_github_datetime_to_unix("2023-11-14T22:13:20Z"), Some(1_700_000_000));
    assert_eq!(parse_github_datetime_to_unix("2024-02-29T12:00:00Z"), Some(1_709_208_000));
    assert_eq!(parse_github_datetime_to_unix("2000-03-01T00:00:00Z"), Some(951_868_800));
    assert_eq!(parse_github_datetime_to_unix("9999-12-31T23:59:59Z"), Some(253_402_300_799));
    assert_eq!(parse_github_datetime_to_unix("2023-02-29T12:00:00Z"), None);
    assert_eq!(parse_github_datetime_to_unix("2023-13-01T12:00:00Z"), None);
    assert_eq!(parse_github_datetime_to_unix("2023-11-14T24:00:00Z"), None);
    assert_eq!(parse_github_datetime_to_unix("2023-11-14T22:13:20"), None);
    assert_eq!(parse_github_datetime_to_unix("2023-11-14 22:13:20Z"), None);
    assert_eq!(parse_github_datetime_to_unix("1969-12-31T23:59:59Z"), None);
    assert_eq!(parse_github_datetime_to_unix("2023-1x-14T22:13:20Z"), None);
    assert_eq!(parse_github_datetime_to_unix(""), None);
    assert_eq!(parse_github_datetime_to_unix("２０２３-11-14T22:13:20Z"), None);
}

#[test]
fn dates_of_unix_times() {
    assert_eq!(unix_to_ymd(0), Some((1970, 1, 1)));
    assert_eq!(unix_to_ymd(86_399), Some((1970, 1, 1)));
    assert_eq!(unix_to_ymd(86_400), Some((1970, 1, 2)));
    assert_eq!(unix_to_ymd(1_700_000_000), Some((2023, 11, 14)));
    assert_eq!(unix_to_ymd(1_709_208_000), Some((2024, 2, 29)));
    assert_eq!(unix_to_ymd(1_704_067_199), Some((2023, 12, 31)));
    assert_eq!(unix_to_ymd(253_402_300_799), Some((9999, 12, 31)));
    assert_eq!(unix_to_ymd(253_402_300_800), None);
    assert_eq!(unix_to_ymd(-1), None);
    assert_eq!(unix_to_ymd(i64::MAX), None);
}

#[test]
fn search_text() {
    assert_eq!(
        search_query(1_700_000_000),
        "is:pr is:open review-requested:@me sort:updated-desc updated:>=2023-11-14"
    );
    assert_eq!(
        search_query(86_400 * 40),
        "is:pr is:open review-requested:@me sort:updated-desc updated:>=1970-02-10"
    );
    assert_eq!(
        search_query(-5),
        "is:pr is:open review-requested:@me sort:updated-desc updated:>=1970-01-01"
    );
}

#[test]
fn rollup_states() {
    let mut n = node(1, "2023-11-14T22:13:20Z");
    assert_eq!(map_ci_state(&n), CiState::Absent);
    for (text, want) in [
        ("SUCCESS", CiState::Success),
        ("FAILURE", CiState::Failure),
        ("ERROR", CiState::Failure),
        ("PENDING", CiState::Running),
        ("EXPECTED", CiState::Running),
        ("OTHER", CiState::Absent),
    ] {
        n.rollup = Some(StatusCheckRollup { state: s(text), contexts: Vec::new() });
        assert_eq!(map_ci_state(&n), want);
    }
    n.rollup = Some(StatusCheckRollup { state: None, contexts: Vec::new() });
    assert_eq!(map_ci_state(&n), CiState::Absent);
}

#[test]
fn rollup_entries_become_checks() {
    let run = map_check(&check_run(Some("build"), None, Some("2023-11-14T22:13:20Z"))).unwrap();
    assert_eq!(run.name, "build");
    assert_eq!(run.state, CiCheckState::Running);
    assert_eq!(run.url, s("https://ci/run"));
    assert_eq!(run.started_at_unix, Some(1_700_000_000));
    let unnamed = map_check(&check_run(None, Some("TIMED_OUT"), Some("yesterday"))).unwrap();
    assert_eq!(unnamed.name, "check");
    assert_eq!(unnamed.state, CiCheckState::Failure);
    assert_eq!(unnamed.started_at_unix, None);
    for (text, want) in [
        ("SUCCESS", CiCheckState::Success),
        ("FAILURE", CiCheckState::Failure),
        ("STARTUP_FAILURE", CiCheckState::Failure),
        ("NEUTRAL", CiCheckState::Neutral),
        ("SKIPPED", CiCheckState::Neutral),
        ("CANCELLED", CiCheckState::Neutral),
        ("ACTION_REQUIRED", CiCheckState::Neutral),
        ("STALE", CiCheckState::Neutral),
        ("WHATEVER", CiCheckState::Absent),
    ] {
        assert_eq!(map_check(&check_run(Some("x"), Some(text), None)).unwrap().state, want);
    }
    let st = map_check(&status(None, Some("PENDING"))).unwrap();
    assert_eq!(st.name, "status");
    assert_eq!(st.state, CiCheckState::Running);
    assert_eq!(st.url, s("https://ci/status"));
    assert_eq!(map_check(&status(Some("ci/x"), None)).unwrap().state, CiCheckState::Absent);
    assert_eq!(map_check(&status(Some("ci/x"), Some("ERROR"))).unwrap().state, CiCheckState::Failure);
    let mut odd = status(Some("x"), Some("SUCCESS"));
    odd.typename = s("Deployment");
    assert!(map_check(&odd).is_none());
    odd.typename = None;
    assert!(map_check(&odd).is_none());
}

#[test]
fn checks_are_listed_failed_first_then_by_name() {
    let mut n = node(1, "2023-11-14T22:13:20Z");
    let mut skipped = status(Some("zzz"), Some("SUCCESS"));
    skipped.typename = s("Other");
    n.rollup = Some(StatusCheckRollup {
        state: s("FAILURE"),
        contexts: vec![
            check_run(Some("lint"), Some("SUCCESS"), None),
            check_run(Some("e2e"), Some("FAILURE"), None),
            skipped,
            status(Some("deploy"), Some("PENDING")),
            check_run(Some("build"), Some("SUCCESS"), None),
            check_run(Some("audit"), Some("SKIPPED"), None),
            check_run(Some("Zeta"), Some("SUCCESS"), None),
            check_run(Some("cov"), Some("FAILURE"), None),
            check_run(Some("odd"), Some("???"), None),
        ],
    });
    let names: Vec<String> = map_ci_checks(&n).into_iter().map(|c| c.name).collect();
    assert_eq!(names, vec!["cov", "e2e", "deploy", "Zeta", "build", "lint", "audit", "odd"]);
    assert!(map_ci_checks(&node(2, "x")).is_empty());
}

#[test]
fn sorting_checks_keeps_ties_in_order() {
    let out = sort_checks(vec![
        named("b", CiCheckState::Success, "1"),
        named("a", CiCheckState::Success, "2"),
        named("b", CiCheckState::Success, "3"),
        named("ab", CiCheckState::Success, "4"),
        named("", CiCheckState::Success, "5"),
        named("b", CiCheckState::Failure, "6"),
    ]);
    let urls: Vec<String> = out.into_iter().map(|c| c.url.unwrap()).collect();
    assert_eq!(urls, vec!["6", "5", "2", "4", "1", "3"]);
}

#[test]
fn review_states() {
    let mut n = node(1, "2023-11-14T22:13:20Z");
    assert_eq!(map_review_state(&n, false), ReviewState::Absent);
    n.review_decision = s("APPROVED");
    assert_eq!(map_review_state(&n, false), ReviewState::Approved);
    assert_eq!(map_review_state(&n, true), ReviewState::Requested);
    n.review_decision = s("CHANGES_REQUESTED");
    assert_eq!(map_review_state(&n, false), ReviewState::Absent);
}

#[test]
fn review_requests_in_person() {
    let mut n = node(1, "2023-11-14T22:13:20Z");
    assert!(!is_review_requested_by_user(&n, "me"));
    n.review_requests = vec![
        None,
        Some(RequestedReviewer { typename: s("Team"), login: s("me") }),
        Some(RequestedReviewer { typename: s("User"), login: s("you") }),
        Some(RequestedReviewer { typename: s("User"), login: None }),
    ];
    assert!(!is_review_requested_by_user(&n, "me"));
    assert!(is_review_requested_by_user(&n, "you"));
    n.review_requests.push(Some(RequestedReviewer { typename: s("User"), login: s("me") }));
    assert!(is_review_requested_by_user(&n, "me"));
}

#[test]
fn nodes_become_pull_requests() {
    let mut n = node(17, "2023-11-14T22:13:20Z");
    n.author = None;
    n.review_decision = s("APPROVED");
    n.rollup = Some(StatusCheckRollup {
        state: s("PENDING"),
        contexts: vec![check_run(Some("build"), None, None)],
    });
    let pr = to_pr(&n, false, true).unwrap();
    assert_eq!(pr.pr_key, "acme/web#17");
    assert_eq!(pr.owner, "acme");
    assert_eq!(pr.repo, "web");
    assert_eq!(pr.number, 17);
    assert_eq!(pr.author, "unknown");
    assert_eq!(pr.title, "PR 17");
    assert_eq!(pr.updated_at_unix, 1_700_000_000);
    assert_eq!(pr.last_commit_sha, s("abc1234"));
    assert_eq!(pr.ci_state, CiState::Running);
    assert_eq!(pr.ci_checks.len(), 1);
    assert_eq!(pr.review_state, ReviewState::Approved);
    assert!(pr.is_viewer_author);
    assert!(!pr.is_draft);
    assert_eq!(to_pr(&n, true, false).unwrap().review_state, ReviewState::Requested);
    assert!(to_pr(&node(1, "last week"), false, false).is_none());
}

#[test]
fn search_results_that_are_pull_requests() {
    let ok = search(5, "2023-11-14T22:13:20Z", None).into_pull_request().unwrap();
    assert_eq!(ok.number, 5);
    assert_eq!(ok.repository.owner, "acme");
    let mut issue = search(5, "2023-11-14T22:13:20Z", None);
    issue.typename = s("Issue");
    assert!(issue.into_pull_request().is_none());
    let mut untyped = search(5, "2023-11-14T22:13:20Z", None);
    untyped.typename = None;
    assert!(untyped.into_pull_request().is_none());
    let mut partial = search(5, "2023-11-14T22:13:20Z", None);
    partial.url = None;
    assert!(partial.into_pull_request().is_none());
}

#[test]
fn authored_pages_stop_at_the_cutoff() {
    let cutoff = 1_700_000_000;
    let page = sift_authored(
        vec![
            node(1, "2023-11-15T00:00:00Z"),
            node(2, "2023-11-14T22:13:20Z"),
            node(3, "garbage"),
            node(4, "2023-11-14T22:13:19Z"),
            node(5, "2023-11-16T00:00:00Z"),
        ],
        cutoff,
    );
    let kept: Vec<i64> = page.keep.iter().map(|n| n.number).collect();
    assert_eq!(kept, vec![1, 2, 5]);
    assert!(page.crossed);
    let fresh = sift_authored(vec![node(1, "2023-11-15T00:00:00Z"), node(3, "garbage")], cutoff);
    assert_eq!(fresh.keep.len(), 1);
    assert!(!fresh.crossed);
    assert!(!sift_authored(Vec::new(), cutoff).crossed);
}

#[test]
fn search_pages_keep_requests_in_person() {
    let cutoff = 1_700_000_000;
    let nodes = || {
        let mut issue = search(9, "2023-11-15T00:00:00Z", Some(("User", "me")));
        issue.typename = s("Issue");
        vec![
            search(1, "2023-11-15T00:00:00Z", Some(("User", "me"))),
            search(2, "2023-11-15T00:00:00Z", Some(("Team", "me"))),
            search(3, "unreadable", Some(("User", "me"))),
            search(4, "2023-11-01T00:00:00Z", Some(("User", "me"))),
            search(5, "2023-11-15T00:00:00Z", None),
            issue,
        ]
    };
    let page = sift_requested(nodes(), cutoff, false, "me");
    let kept: Vec<i64> = page.keep.iter().map(|n| n.number).collect();
    assert_eq!(kept, vec![1, 3]);
    assert!(page.crossed);
    let teams = sift_requested(nodes(), cutoff, true, "me");
    let kept: Vec<i64> = teams.keep.iter().map(|n| n.number).collect();
    assert_eq!(kept, vec![1, 2, 3, 5]);
    let none = sift_requested(nodes(), 0, false, "someone");
    assert!(none.keep.is_empty());
    assert!(!none.crossed);
}

#[test]
fn paging_goes_on_only_while_there_is_more() {
    assert_eq!(next_cursor(false, true, s("c1")), s("c1"));
    assert_eq!(next_cursor(true, true, s("c1")), None);
    assert_eq!(next_cursor(false, false, s("c1")), None);
    assert_eq!(next_cursor(false, true, None), None);
}

#[test]
fn requested_form_replaces_the_authored_one() {
    let a1 = to_pr(&node(1, "2023-11-14T22:13:20Z"), false, true).unwrap();
    let a2 = to_pr(&node(2, "2023-11-14T22:13:20Z"), false, true).unwrap();
    let r2 = to_pr(&node(2, "2023-11-14T22:13:20Z"), true, true).unwrap();
    let r3 = to_pr(&node(3, "2023-11-14T22:13:20Z"), true, false).unwrap();
    let out = merge_prs(vec![a1, a2], vec![r2, r3]);
    let got: Vec<(i64, ReviewState)> = out.iter().map(|p| (p.number, p.review_state)).collect();
    assert_eq!(
        got,
        vec![(1, ReviewState::Absent), (2, ReviewState::Requested), (3, ReviewState::Requested)]
    );
    assert!(merge_prs(Vec::new(), Vec::new()).is_empty());
}

#[test]
fn nodes_are_converted_by_where_they_came_from() {
    let mut asked_in_person = node(2, "2023-11-14T22:13:20Z");
    asked_in_person.review_requests =
        vec![Some(RequestedReviewer { typename: s("User"), login: s("alice") })];
    let own = convert_nodes(
        &vec![node(1, "2023-11-14T22:13:20Z"), node(7, "unreadable"), asked_in_person],
        "alice",
        false,
    );
    let got: Vec<(i64, ReviewState, bool)> =
        own.iter().map(|p| (p.number, p.review_state, p.is_viewer_author)).collect();
    assert_eq!(got, vec![(1, ReviewState::Absent, true), (2, ReviewState::Requested, true)]);
    let mut foreign = node(3, "2023-11-14T22:13:20Z");
    foreign.author = s("bob");
    let mut anonymous = node(4, "2023-11-14T22:13:20Z");
    anonymous.author = None;
    let found = convert_nodes(
        &vec![foreign, node(5, "2023-11-14T22:13:20Z"), anonymous, node(8, "")],
        "alice",
        true,
    );
    let got: Vec<(i64, ReviewState, bool)> =
        found.iter().map(|p| (p.number, p.review_state, p.is_viewer_author)).collect();
    assert_eq!(
        got,
        vec![
            (3, ReviewState::Requested, false),
            (5, ReviewState::Requested, true),
            (4, ReviewState::Requested, false),
        ]
    );
}

#[test]
fn fetched_pull_requests_have_distinct_keys() {
    let authored = vec![
        node(1, "2023-11-14T22:13:20Z"),
        node(2, "2023-11-14T22:13:20Z"),
        node(1, "2023-11-15T00:00:00Z"),
        node(9, "unreadable"),
    ];
    let requested = vec![node(2, "2023-11-16T00:00:00Z"), node(3, "2023-11-14T22:13:20Z")];
    let out = collect_prs(&authored, &requested, "alice");
    let got: Vec<(String, ReviewState, i64)> =
        out.iter().map(|p| (p.pr_key.clone(), p.review_state, p.updated_at_unix)).collect();
    assert_eq!(
        got,
        vec![
            ("acme/web#1".to_string(), ReviewState::Absent, 1_700_006_400),
            ("acme/web#2".to_string(), ReviewState::Requested, 1_700_092_800),
            ("acme/web#3".to_string(), ReviewState::Requested, 1_700_000_000),
        ]
    );
    assert!(collect_prs(&Vec::new(), &Vec::new(), "alice").is_empty());
}
