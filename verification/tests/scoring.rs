use needle::db::DbPrRow;
use needle::model::{CiCheck, CiCheckState, CiState, MergeBlockers, Pr, ReviewState};
use needle::refresh::{
    categorize, category_for, human_age, is_new_ci_failure, is_new_review_request, minutes_of,
    running_for_secs, score_pr, status_text, Category, ScopeFilters,
};

fn mk_pr(
    now: i64,
    ci_state: CiState,
    review_state: ReviewState,
    updated_age_secs: i64,
    checks: Vec<CiCheck>,
) -> Pr {
    Pr {
        pr_key: "acme/repo#1".to_string(),
        owner: "acme".to_string(),
        repo: "repo".to_string(),
        number: 1,
        author: "alice".to_string(),
        title: "Test".to_string(),
        url: "https://example.com".to_string(),
        updated_at_unix: now.saturating_sub(updated_age_secs),
        last_commit_sha: Some("deadbeef".to_string()),
        ci_state,
        ci_checks: checks,
        review_state,
        is_draft: false,
        mergeable: None,
        merge_state_status: None,
        is_viewer_author: false,
        merge_blockers: None,
    }
}

fn mk_row(pr: &Pr, sha: &str, ci: &str, review: &str, now: i64) -> DbPrRow {
    DbPrRow {
        pr_key: pr.pr_key.clone(),
        owner: pr.owner.clone(),
        repo: pr.repo.clone(),
        number: pr.number,
        title: pr.title.clone(),
        url: pr.url.clone(),
        author: None,
        updated_at_unix: None,
        last_commit_sha: Some(sha.to_string()),
        last_ci_state: Some(ci.to_string()),
        last_review_state: Some(review.to_string()),
        ci_checks_json: None,
        is_draft: None,
        mergeable: None,
        merge_state_status: None,
        author_is_viewer: None,
        last_seen_at: Some(now - 10),
        last_opened_at: None,
    }
}

fn running_check(name: &str, started: Option<i64>) -> CiCheck {
    CiCheck {
        name: name.to_string(),
        state: CiCheckState::Running,
        url: None,
        started_at_unix: started,
    }
}

#[test]
fn scoring_review_requested_is_high() {
    let now = 1_700_000_000i64;
    let pr = mk_pr(now, CiState::Absent, ReviewState::Requested, 60, Vec::new());
    let score = score_pr(&pr, None, now, false);
    assert!(score >= 50);
}

#[test]
fn scoring_ci_failure_new_vs_unchanged() {
    let now = 1_700_000_000i64;
    let pr = mk_pr(now, CiState::Failure, ReviewState::Absent, 60, Vec::new());
    let s_new = score_pr(&pr, None, now, true);
    let s_old = score_pr(&pr, None, now, false);
    assert_eq!(s_new, 40);
    assert_eq!(s_old, -30);
}

#[test]
fn scoring_running_duration_uses_check_started_at() {
    let now = 1_700_000_000i64;
    let checks = vec![CiCheck {
        name: "integration".to_string(),
        state: CiCheckState::Running,
        url: None,
        started_at_unix: Some(now - 11 * 60),
    }];
    let pr = mk_pr(now, CiState::Running, ReviewState::Absent, 60, checks);
    let score = score_pr(&pr, None, now, false);
    assert_eq!(score, 20);
}

#[test]
fn scoring_approved_but_unmerged_after_24h() {
    let now = 1_700_000_000i64;
    let pr = mk_pr(now, CiState::Success, ReviewState::Approved, 25 * 3600, Vec::new());
    let score = score_pr(&pr, None, now, false);
    assert!(score >= 15);
}

#[test]
fn scoring_waiting_on_others_is_negative() {
    let now = 1_700_000_000i64;
    let pr = mk_pr(now, CiState::Success, ReviewState::Absent, 300, Vec::new());
    let score = score_pr(&pr, None, now, false);
    assert_eq!(score, -20);
}

#[test]
fn new_ci_failure_when_commit_sha_changes() {
    let now = 1_700_000_000i64;
    let mut pr = mk_pr(now, CiState::Failure, ReviewState::Absent, 60, Vec::new());
    pr.last_commit_sha = Some("bbbbbbb".to_string());

    let old = DbPrRow {
        pr_key: pr.pr_key.clone(),
        owner: pr.owner.clone(),
        repo: pr.repo.clone(),
        number: pr.number,
        title: pr.title.clone(),
        url: pr.url.clone(),
        author: None,
        updated_at_unix: None,
        last_commit_sha: Some("aaaaaaa".to_string()),
        last_ci_state: Some("failure".to_string()),
        last_review_state: Some("none".to_string()),
        ci_checks_json: None,
        is_draft: None,
        mergeable: None,
        merge_state_status: None,
        author_is_viewer: None,
        last_seen_at: Some(now - 10),
        last_opened_at: None,
    };

    assert!(is_new_ci_failure(&pr, Some(&old)));
}

#[test]
fn review_requested_without_prior_row_needs_you() {
    let now = 1_700_000_000i64;
    let pr = mk_pr(now, CiState::Absent, ReviewState::Requested, 60, Vec::new());
    assert!(is_new_review_request(&pr, None));
    let score = score_pr(&pr, None, now, false);
    assert_eq!(score, 50);
    assert_eq!(categorize(&pr, score), Category::NeedsYou);
}

#[test]
fn review_request_already_known_is_not_new() {
    let now = 1_700_000_000i64;
    let pr = mk_pr(now, CiState::Absent, ReviewState::Requested, 60, Vec::new());
    let known = mk_row(&pr, "deadbeef", "none", "requested", now);
    let other = mk_row(&pr, "deadbeef", "none", "approved", now);
    assert!(!is_new_review_request(&pr, Some(&known)));
    assert!(is_new_review_request(&pr, Some(&other)));
    let calm = mk_pr(now, CiState::Absent, ReviewState::Approved, 60, Vec::new());
    assert!(!is_new_review_request(&calm, None));
}

#[test]
fn failure_with_same_sha_is_stale() {
    let now = 1_700_000_000i64;
    let pr = mk_pr(now, CiState::Failure, ReviewState::Absent, 60, Vec::new());
    let old = mk_row(&pr, "deadbeef", "failure", "none", now);
    let is_new = is_new_ci_failure(&pr, Some(&old));
    assert!(!is_new);
    assert_eq!(score_pr(&pr, Some(&old), now, is_new), -30);
    assert_eq!(category_for(-30), Category::Stale);
}

#[test]
fn failure_after_new_push_scores_as_new() {
    let now = 1_700_000_000i64;
    let pr = mk_pr(now, CiState::Failure, ReviewState::Absent, 60, Vec::new());
    let old = mk_row(&pr, "0ldc0de", "failure", "none", now);
    let is_new = is_new_ci_failure(&pr, Some(&old));
    assert!(is_new);
    assert_eq!(score_pr(&pr, Some(&old), now, is_new), 40);
}

#[test]
fn failure_after_success_is_new() {
    let now = 1_700_000_000i64;
    let pr = mk_pr(now, CiState::Failure, ReviewState::Absent, 60, Vec::new());
    let old = mk_row(&pr, "deadbeef", "success", "none", now);
    assert!(is_new_ci_failure(&pr, Some(&old)));
    assert!(is_new_ci_failure(&pr, None));
    let green = mk_pr(now, CiState::Success, ReviewState::Absent, 60, Vec::new());
    assert!(!is_new_ci_failure(&green, None));
}

#[test]
fn novelty_does_not_depend_on_when_it_is_asked() {
    let pr = mk_pr(5, CiState::Failure, ReviewState::Requested, 0, Vec::new());
    let old = mk_row(&pr, "deadbeef", "failure", "requested", 1_700_000_000);
    let late = mk_row(&pr, "deadbeef", "failure", "requested", 9);
    assert_eq!(is_new_ci_failure(&pr, Some(&old)), is_new_ci_failure(&pr, Some(&late)));
    assert_eq!(is_new_review_request(&pr, Some(&old)), is_new_review_request(&pr, Some(&late)));
}

#[test]
fn running_four_minutes_is_not_long() {
    let now = 1_700_000_000i64;
    let checks = vec![running_check("build", Some(now - 4 * 60))];
    let pr = mk_pr(now, CiState::Running, ReviewState::Absent, 3600, checks);
    assert_eq!(running_for_secs(&pr, now), 240);
    assert_eq!(score_pr(&pr, None, now, false), 0);
}

#[test]
fn running_threshold_is_exclusive() {
    let now = 1_700_000_000i64;
    let at = mk_pr(now, CiState::Running, ReviewState::Absent, 600, Vec::new());
    let over = mk_pr(now, CiState::Running, ReviewState::Absent, 601, Vec::new());
    assert_eq!(score_pr(&at, None, now, false), 0);
    assert_eq!(score_pr(&over, None, now, false), 20);
}

#[test]
fn running_duration_takes_oldest_running_check() {
    let now = 1_700_000_000i64;
    let checks = vec![
        running_check("a", Some(now - 100)),
        running_check("b", Some(now - 900)),
        running_check("c", None),
        CiCheck {
            name: "done".to_string(),
            state: CiCheckState::Success,
            url: None,
            started_at_unix: Some(now - 5000),
        },
    ];
    let pr = mk_pr(now, CiState::Running, ReviewState::Absent, 60, checks);
    assert_eq!(running_for_secs(&pr, now), 900);
}

#[test]
fn running_duration_falls_back_to_updated_at() {
    let now = 1_700_000_000i64;
    let pr = mk_pr(now, CiState::Running, ReviewState::Absent, 777, vec![running_check("c", None)]);
    assert_eq!(running_for_secs(&pr, now), 777);
}

#[test]
fn approved_one_hour_ago_scores_nothing() {
    let now = 1_700_000_000i64;
    let pr = mk_pr(now, CiState::Absent, ReviewState::Approved, 3600, Vec::new());
    assert_eq!(score_pr(&pr, None, now, false), 0);
    let old = mk_pr(now, CiState::Absent, ReviewState::Approved, 25 * 3600, Vec::new());
    assert_eq!(score_pr(&old, None, now, false), 15);
    let edge = mk_pr(now, CiState::Absent, ReviewState::Approved, 24 * 3600, Vec::new());
    assert_eq!(score_pr(&edge, None, now, false), 0);
}

#[test]
fn approved_green_is_not_penalised() {
    let now = 1_700_000_000i64;
    let pr = mk_pr(now, CiState::Success, ReviewState::Approved, 60, Vec::new());
    assert_eq!(score_pr(&pr, None, now, false), 0);
}

#[test]
fn terms_add_up() {
    let now = 1_700_000_000i64;
    let pr = mk_pr(now, CiState::Failure, ReviewState::Requested, 60, Vec::new());
    assert_eq!(score_pr(&pr, None, now, true), 90);
    assert_eq!(score_pr(&pr, None, now, false), 20);
}

#[test]
fn only_age_terms_change_with_time() {
    let now = 1_700_000_000i64;
    let pr = mk_pr(now, CiState::Failure, ReviewState::Requested, 60, Vec::new());
    assert_eq!(score_pr(&pr, None, now, true), score_pr(&pr, None, now + 1_000_000, true));
    let aging = mk_pr(now, CiState::Running, ReviewState::Approved, 60, Vec::new());
    assert_eq!(score_pr(&aging, None, now, false), 0);
    assert_eq!(score_pr(&aging, None, now + 700, false), 20);
    assert_eq!(score_pr(&aging, None, now + 90_000, false), 35);
}

#[test]
fn categories_by_score() {
    assert_eq!(category_for(40), Category::NeedsYou);
    assert_eq!(category_for(90), Category::NeedsYou);
    assert_eq!(category_for(39), Category::Waiting);
    assert_eq!(category_for(0), Category::Waiting);
    assert_eq!(category_for(-1), Category::Stale);
}

#[test]
fn ready_to_merge_takes_precedence() {
    let now = 1_700_000_000i64;
    let mut pr = mk_pr(now, CiState::Success, ReviewState::Absent, 60, Vec::new());
    pr.is_viewer_author = true;
    let score = score_pr(&pr, None, now, false);
    assert_eq!(score, -20);
    assert_eq!(categorize(&pr, score), Category::ReadyToMerge);
    pr.merge_blockers = Some(MergeBlockers {
        has_conflicts: true,
        required_approvals: None,
        current_approvals: 0,
        required_checks: Vec::new(),
        failing_required_checks: Vec::new(),
        is_behind_base: false,
    });
    assert_eq!(categorize(&pr, score), Category::Stale);
    pr.merge_blockers = None;
    pr.ci_state = CiState::Running;
    assert_eq!(categorize(&pr, 0), Category::Waiting);
    pr.ci_state = CiState::Success;
    pr.is_viewer_author = false;
    assert_eq!(categorize(&pr, 45), Category::NeedsYou);
}

#[test]
fn merge_blockers_clear_and_described() {
    let mut b = MergeBlockers {
        has_conflicts: false,
        required_approvals: None,
        current_approvals: 0,
        required_checks: Vec::new(),
        failing_required_checks: Vec::new(),
        is_behind_base: false,
    };
    assert!(b.is_clear());
    assert!(b.to_descriptions().is_empty());
    b.required_approvals = Some(2);
    b.current_approvals = 1;
    assert!(!b.is_clear());
    b.current_approvals = 2;
    assert!(b.is_clear());
    b.current_approvals = 1;
    b.has_conflicts = true;
    b.is_behind_base = true;
    b.failing_required_checks = vec!["lint".to_string(), "test / unit".to_string()];
    assert_eq!(
        b.to_descriptions(),
        vec![
            "Merge conflicts".to_string(),
            "Branch behind base".to_string(),
            "Approvals: 1/2 required".to_string(),
            "Required checks failing: lint, test / unit".to_string(),
        ]
    );
}

#[test]
fn state_names() {
    assert_eq!(CiState::Success.as_str(), "success");
    assert_eq!(CiState::Failure.as_str(), "failure");
    assert_eq!(CiState::Running.as_str(), "running");
    assert_eq!(CiState::Absent.as_str(), "none");
    assert_eq!(ReviewState::Requested.as_str(), "requested");
    assert_eq!(ReviewState::Approved.as_str(), "approved");
    assert_eq!(ReviewState::Absent.as_str(), "none");
    assert!(CiCheckState::Failure.is_failure());
    assert!(!CiCheckState::Running.is_failure());
}

#[test]
fn ages_in_words() {
    assert_eq!(human_age(1000, 1000), "now");
    assert_eq!(human_age(1000, 941), "now");
    assert_eq!(human_age(1000, 940), "1m ago");
    assert_eq!(human_age(10_000, 10_000 - 3599), "59m ago");
    assert_eq!(human_age(10_000, 10_000 - 3600), "1h ago");
    assert_eq!(human_age(200_000, 200_000 - 86_399), "23h ago");
    assert_eq!(human_age(200_000, 200_000 - 86_400), "1d ago");
    assert_eq!(human_age(1_700_000_000, 1_700_000_000 - 3 * 3600), "3h ago");
    assert_eq!(human_age(5, 100), "now");
    assert_eq!(human_age(i64::MAX, i64::MIN), "106751991167300d ago");
}

#[test]
fn minutes_round_towards_zero() {
    assert_eq!(minutes_of(119), 1);
    assert_eq!(minutes_of(-119), -1);
    assert_eq!(minutes_of(-59), 0);
    assert_eq!(minutes_of(i64::MIN), i64::MIN / 60);
}

#[test]
fn status_lines() {
    let now = 1_700_000_000i64;
    let requested = mk_pr(now, CiState::Failure, ReviewState::Requested, 60, Vec::new());
    assert_eq!(status_text(&requested, now, true, true), "👀 review requested");
    assert_eq!(status_text(&requested, now, true, false), "❌ CI failed (new)");
    assert_eq!(status_text(&requested, now, false, false), "❌ CI failed");
    let running = mk_pr(
        now,
        CiState::Running,
        ReviewState::Absent,
        60,
        vec![running_check("x", Some(now - 125 * 60 - 30))],
    );
    assert_eq!(status_text(&running, now, false, false), "🟡 CI running (125m)");
    let green = mk_pr(now, CiState::Success, ReviewState::Absent, 3 * 3600, Vec::new());
    assert_eq!(status_text(&green, now, false, false), "✅ green 3h ago");
    let none = mk_pr(now, CiState::Absent, ReviewState::Absent, 2 * 86_400, Vec::new());
    assert_eq!(status_text(&none, now, false, true), "⏺ none 2d ago");
}

#[test]
fn scope_filters() {
    let now = 1_700_000_000i64;
    let pr = mk_pr(now, CiState::Absent, ReviewState::Absent, 0, Vec::new());
    let all = ScopeFilters { orgs: vec![], include_repos: vec![], exclude_repos: vec![] };
    assert!(all.matches(&pr));
    let org = ScopeFilters { orgs: vec!["acme".to_string()], include_repos: vec![], exclude_repos: vec![] };
    assert!(org.matches(&pr));
    let other = ScopeFilters { orgs: vec!["orbit".to_string()], include_repos: vec![], exclude_repos: vec![] };
    assert!(!other.matches(&pr));
    let inc = ScopeFilters {
        orgs: vec![],
        include_repos: vec!["acme/web".to_string(), "acme/repo".to_string()],
        exclude_repos: vec![],
    };
    assert!(inc.matches(&pr));
    let inc_other = ScopeFilters { orgs: vec![], include_repos: vec!["acme/web".to_string()], exclude_repos: vec![] };
    assert!(!inc_other.matches(&pr));
    let exc = ScopeFilters {
        orgs: vec!["acme".to_string()],
        include_repos: vec!["acme/repo".to_string()],
        exclude_repos: vec!["acme/repo".to_string()],
    };
    assert!(!exc.matches(&pr));
}
