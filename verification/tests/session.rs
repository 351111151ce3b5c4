use needle::config::{resolve, CliOptions, Config, DEFAULT_CONFIG};
use needle::demo::{
    actions_url, checks_for, fnv1a_64, generate_demo_prs, next_demo_tick, pr_url,
    seeded_last_opened_at, short_sha, wobble_for, CiProfile,
};
use needle::model::{CiCheck, CiCheckState, CiState, Pr, ReviewState};
use needle::notify::{
    notify_ci_failure, notify_needs_you, notify_new_draft, notify_new_repo, notify_random_demo,
    notify_ready_to_merge, notify_review_requested, truncate,
};
use needle::refresh::{Category, UiPr};
use needle::text::{decimal_string, join};
use needle::tui::{
    category_title, clamp_selection, column_widths, failed_line, filter_hits, filtered_indices,
    fitting_count, human_duration, matches_filter, measure_cells, pad_right, pad_to, plan_list,
    rows_of, section_for, shimmer, summary_line, tally_checks, truncate_ellipsis, visible_rows,
    Action, AppState, Key, ListLine, RefreshIntervals, Section, UiPrefs, ViewMode, Widest,
};

fn ui(owner: &str, repo: &str, number: i64, category: Category) -> UiPr {
    UiPr {
        pr: Pr {
            pr_key: format!("{}/{}#{}", owner, repo, number),
            owner: owner.to_string(),
            repo: repo.to_string(),
            number,
            author: "Alice".to_string(),
            title: format!("Fix Thing {}", number),
            url: format!("https://github.com/{}/{}/pull/{}", owner, repo, number),
            updated_at_unix: 0,
            last_commit_sha: None,
            ci_state: CiState::Absent,
            ci_checks: Vec::new(),
            review_state: ReviewState::Absent,
            is_draft: false,
            mergeable: None,
            merge_state_status: None,
            is_viewer_author: false,
            merge_blockers: None,
        },
        score: 0,
        category,
        display_status: String::new(),
        last_opened_at: None,
        is_new_review_request: false,
        is_new_ci_failure: false,
    }
}

fn check(name: &str, state: CiCheckState, url: Option<&str>) -> CiCheck {
    CiCheck {
        name: name.to_string(),
        state,
        url: url.map(|u| u.to_string()),
        started_at_unix: None,
    }
}

fn state(prs: Vec<UiPr>) -> AppState {
    AppState::new(prs, UiPrefs::default(), 1000)
}

fn intervals() -> RefreshIntervals {
    RefreshIntervals { list_secs: 180, details_secs: 30 }
}

fn press(s: &mut AppState, key: Key) -> Action {
    let visible = s.reproject();
    s.handle_key(key, &visible, 2000, 1_700_000_000)
}

#[test]
fn test_default_config_contains_all_options() {
    // Verify that DEFAULT_CONFIG documents all available options
    assert!(
        DEFAULT_CONFIG.contains("days"),
        "DEFAULT_CONFIG should document 'days' option"
    );
    assert!(
        DEFAULT_CONFIG.contains("org"),
        "DEFAULT_CONFIG should document 'org' option"
    );
    assert!(
        DEFAULT_CONFIG.contains("include"),
        "DEFAULT_CONFIG should document 'include' option"
    );
    assert!(
        DEFAULT_CONFIG.contains("exclude"),
        "DEFAULT_CONFIG should document 'exclude' option"
    );
    assert!(
        DEFAULT_CONFIG.contains("include_team_requests"),
        "DEFAULT_CONFIG should document 'include_team_requests' option"
    );
    assert!(
        DEFAULT_CONFIG.contains("bell"),
        "DEFAULT_CONFIG should document 'bell' option"
    );
    assert!(
        DEFAULT_CONFIG.contains("no_notifications"),
        "DEFAULT_CONFIG should document 'no_notifications' option"
    );
    assert!(
        DEFAULT_CONFIG.contains("hide_pr_numbers"),
        "DEFAULT_CONFIG should document 'hide_pr_numbers' option"
    );
    assert!(
        DEFAULT_CONFIG.contains("hide_repo"),
        "DEFAULT_CONFIG should document 'hide_repo' option"
    );
    assert!(
        DEFAULT_CONFIG.contains("hide_author"),
        "DEFAULT_CONFIG should document 'hide_author' option"
    );
    assert!(
        DEFAULT_CONFIG.contains("refresh_interval_list_secs"),
        "DEFAULT_CONFIG should document 'refresh_interval_list_secs' option"
    );
    assert!(
        DEFAULT_CONFIG.contains("refresh_interval_details_secs"),
        "DEFAULT_CONFIG should document 'refresh_interval_details_secs' option"
    );
}

#[test]
fn default_config_text_is_comments_only() {
    assert!(DEFAULT_CONFIG.starts_with("# Needle configuration file\n"));
    assert!(DEFAULT_CONFIG.ends_with("# 30 seconds for details view\n"));
    for line in DEFAULT_CONFIG.lines() {
        assert!(line.is_empty() || line.starts_with('#'));
    }
}

#[test]
fn settings_merge_by_precedence() {
    let cli = CliOptions {
        days: 30,
        org: vec![],
        include_repos: vec!["a/b".to_string()],
        exclude: vec![],
        include_team_requests: false,
        bell: true,
        no_notifications: false,
        hide_pr_numbers: false,
        hide_repo: false,
        hide_author: false,
    };
    let mut file = Config::default();
    file.days = Some(14);
    file.org = Some(vec!["acme".to_string()]);
    file.include_repos = Some(vec!["x/y".to_string()]);
    file.no_notifications = Some(true);
    file.hide_author = Some(true);
    file.bell = Some(false);
    file.refresh_interval_details_secs = Some(15);
    let s = resolve(cli, file);
    assert_eq!(s.days, 14);
    assert_eq!(s.scope.orgs, vec!["acme".to_string()]);
    assert_eq!(s.scope.include_repos, vec!["a/b".to_string()]);
    assert!(s.scope.exclude_repos.is_empty());
    assert!(!s.include_team_requests);
    assert!(s.bell_enabled);
    assert!(!s.notify_enabled);
    assert!(s.ui.hide_author);
    assert!(!s.ui.hide_repo);
    assert_eq!(s.intervals.list_secs, 180);
    assert_eq!(s.intervals.details_secs, 15);
}

#[test]
fn settings_defaults_and_cli_days() {
    let cli = CliOptions {
        days: 7,
        org: vec![],
        include_repos: vec![],
        exclude: vec![],
        include_team_requests: true,
        bell: false,
        no_notifications: false,
        hide_pr_numbers: true,
        hide_repo: false,
        hide_author: false,
    };
    let mut file = Config::default();
    file.days = Some(14);
    let s = resolve(cli, file);
    assert_eq!(s.days, 7);
    assert!(s.include_team_requests);
    assert!(s.notify_enabled);
    assert!(!s.bell_enabled);
    assert!(s.ui.hide_pr_numbers);
    assert_eq!(s.intervals.details_secs, 30);
    let none = CliOptions {
        days: 30,
        org: vec![],
        include_repos: vec![],
        exclude: vec![],
        include_team_requests: false,
        bell: false,
        no_notifications: false,
        hide_pr_numbers: false,
        hide_repo: false,
        hide_author: false,
    };
    assert_eq!(resolve(none, Config::default()).days, 30);
}

#[test]
fn decimal_forms() {
    assert_eq!(decimal_string(0), "0");
    assert_eq!(decimal_string(7), "7");
    assert_eq!(decimal_string(1932), "1932");
    assert_eq!(decimal_string(-45), "-45");
    assert_eq!(decimal_string(i64::MAX), "9223372036854775807");
    assert_eq!(decimal_string(i64::MIN), "-9223372036854775808");
    let parts = vec!["a".to_string(), "bc".to_string(), "".to_string()];
    assert_eq!(join(&parts, ", "), "a, bc, ");
    assert_eq!(join(&Vec::new(), ", "), "");
}

#[test]
fn hashing_and_seeding() {
    assert_eq!(fnv1a_64(""), 0xcbf29ce484222325);
    assert_eq!(fnv1a_64("a"), 0xaf63dc4c8601ec8c);
    assert_eq!(fnv1a_64("foobar"), 0x85944171f73967e8);
    let now = 1_700_000_000i64;
    for n in 0..60 {
        let key = format!("acme/repo#{}", n);
        let want = match fnv1a_64(&key) % 11 {
            0 => Some(now - 23 * 60),
            1 => Some(now - 3 * 3600),
            2 => Some(now - 2 * 86_400),
            _ => None,
        };
        assert_eq!(seeded_last_opened_at(&key, now), want);
    }
    assert_eq!(next_demo_tick(0), 1);
    assert_eq!(next_demo_tick(u64::MAX), 0);
}

#[test]
fn synthetic_commit_names() {
    let reference = |mut x: u64| {
        let mut out = String::new();
        for _ in 0..7 {
            x ^= x << 13;
            x ^= x >> 7;
            x ^= x << 17;
            out.push(char::from(b"0123456789abcdef"[(x & 0x0f) as usize]));
        }
        out
    };
    for seed in [0u64, 1, 42, 0xdead_beef, u64::MAX, 0x9e37_79b9_7f4a_7c15] {
        assert_eq!(short_sha(seed), reference(seed));
    }
    assert_eq!(short_sha(0), "0000000");
    assert_eq!(short_sha(1).len(), 7);
}

#[test]
fn synthetic_addresses() {
    assert_eq!(
        actions_url("acme", "web", 8_100_011),
        "https://github.com/acme/web/actions/runs/8100011"
    );
    assert_eq!(pr_url("orbit", "api", 1104), "https://github.com/orbit/api/pull/1104");
    assert_eq!(wobble_for(0), 0);
    assert_eq!(wobble_for(8), 60);
    assert_eq!(wobble_for(13), 360);
    assert_eq!(wobble_for(u64::MAX), ((u64::MAX as i64) % 7) * 60);
    assert_eq!(wobble_for(1u64 << 63), (((1u64 << 63) as i64) % 7) * 60);
}

#[test]
fn profile_checks() {
    let now = 1_700_000_000i64;
    let (state, checks) = checks_for(CiProfile::RunningLong, "acme", "web", 1, now, 900_005);
    assert_eq!(state, CiState::Running);
    assert_eq!(checks.len(), 4);
    assert_eq!(checks[1].name, "test / integration");
    assert_eq!(checks[1].state, CiCheckState::Running);
    assert_eq!(checks[1].started_at_unix, Some(now - 68 * 60));
    assert_eq!(
        checks[1].url,
        Some("https://github.com/acme/web/actions/runs/8100027".to_string())
    );
    assert_eq!(checks[3].started_at_unix, Some(now - 41 * 60));
    assert_eq!(checks[0].started_at_unix, None);
    let (none, empty) = checks_for(CiProfile::NoCi, "a", "b", 1, now, 0);
    assert_eq!(none, CiState::Absent);
    assert!(empty.is_empty());
    let (red, failing) = checks_for(CiProfile::RedStuck, "a", "b", 1, now, 0);
    assert_eq!(red, CiState::Failure);
    assert_eq!(failing.iter().filter(|c| c.state.is_failure()).count(), 2);
    let (short, three) = checks_for(CiProfile::RunningShort, "a", "b", 1, now, 0);
    assert_eq!(short, CiState::Running);
    assert_eq!(three.len(), 3);
    assert_eq!(three[1].state, CiCheckState::Absent);
}

#[test]
fn synthetic_pull_requests() {
    let now = 1_700_000_000i64;
    let prs = generate_demo_prs(now, 3);
    assert_eq!(prs.len(), 16);
    assert_eq!(prs[0].pr_key, "acme-inc/billing-api#842");
    assert_eq!(prs[0].url, "https://github.com/acme-inc/billing-api/pull/842");
    assert_eq!(prs[0].author, "anika");
    assert_eq!(prs[0].title, "Fix idempotency for retries on charge capture");
    assert_eq!(prs[0].review_state, ReviewState::Requested);
    assert_eq!(prs[0].ci_state, CiState::Success);
    assert_eq!(prs[0].updated_at_unix, now - 2 * 3600);
    assert_eq!(prs[1].pr_key, "orbit/web#1932");
    assert_eq!(prs[1].ci_state, CiState::Failure);
    assert_eq!(prs[1].updated_at_unix, now - (28 * 60 - 3 * 60));
    assert_eq!(prs[15].pr_key, "paperplane/mobile#523");
    assert_eq!(prs[15].ci_checks.len(), 4);
    let again = generate_demo_prs(now, 3);
    let later = generate_demo_prs(now, 4);
    for i in 0..16 {
        assert_eq!(prs[i].last_commit_sha, again[i].last_commit_sha);
        let stable = matches!(prs[i].ci_state, CiState::Success | CiState::Absent) || i == 2;
        if stable {
            assert_eq!(prs[i].last_commit_sha, later[i].last_commit_sha);
        }
    }
    assert_eq!(prs[2].pr_key, "windmill-labs/infra#317");
    assert_eq!(prs[2].last_commit_sha, Some(short_sha(fnv1a_64("windmill-labs/infra#317"))));
    let salt = fnv1a_64("orbit/web#1932") ^ 3u64.rotate_left(13);
    assert_eq!(
        prs[1].last_commit_sha,
        Some(short_sha(salt ^ 3u64.wrapping_mul(0x9e3779b97f4a7c15)))
    );
    assert_eq!(
        prs[1].ci_checks[0].url,
        Some(format!("https://github.com/orbit/web/actions/runs/{}", 8_100_000 + salt % 900_000 + 11))
    );
}

#[test]
fn notices() {
    let n = notify_ci_failure("Fix it", "acme/web", "https://x/1");
    assert_eq!(n.title, "❌ CI Failed");
    assert_eq!(n.subtitle, Some("acme/web".to_string()));
    assert_eq!(n.body, "Fix it");
    assert_eq!(n.url, Some("https://x/1".to_string()));
    assert_eq!(notify_review_requested("t", "r", "u").title, "👀 Review Requested");
    assert_eq!(notify_ready_to_merge("t", "r", "u").title, "✅ Ready to Merge");
    assert_eq!(notify_new_draft("t", "r", "u").title, "📝 New Draft PR");
    let repo = notify_new_repo("acme/web");
    assert_eq!(repo.title, "📁 New Repository");
    assert_eq!(repo.body, "PRs from acme/web now visible");
    assert_eq!(repo.url, None);
    assert_eq!(notify_needs_you(1).body, "1 PR needs your attention");
    assert_eq!(notify_needs_you(12).body, "12 PRs need your attention");
    assert_eq!(notify_needs_you(0).title, "⚠️ Needle: Action Required");
}

#[test]
fn notice_titles_are_cut() {
    let long = "x".repeat(60);
    let cut = truncate(&long, 50);
    assert_eq!(cut, format!("{}…", "x".repeat(49)));
    assert_eq!(truncate("short", 50), "short");
    assert_eq!(truncate(&"y".repeat(50), 50), "y".repeat(50));
    assert_eq!(truncate("abc", 0), "…");
    assert_eq!(notify_ci_failure(&long, "r", "u").body, cut);
    let wide = "é".repeat(30);
    assert_eq!(truncate(&wide, 50), format!("{}…", "é".repeat(24)));
}

#[test]
fn sample_notices_take_turns() {
    let a = notify_random_demo(0);
    assert_eq!(a.title, "❌ CI Failed");
    assert_eq!(a.subtitle, Some("acme/backend".to_string()));
    assert_eq!(a.body, "Fix authentication bug in login flow");
    assert_eq!(a.url, Some("https://github.com/acme/backend/pull/100".to_string()));
    let c = notify_random_demo(2);
    assert_eq!(c.body, "PRs from acme/mobile-app now visible");
    let f = notify_random_demo(5);
    assert_eq!(f.body, "3 PRs need your attention");
    let g = notify_random_demo(57);
    assert_eq!(g.title, "✅ Ready to Merge");
    assert_eq!(g.subtitle, Some("acme/mobile-app".to_string()));
    assert_eq!(g.body, "Add dark mode support");
    assert_eq!(g.url, Some("https://github.com/acme/mobile-app/pull/107".to_string()));
    assert_eq!(notify_random_demo(1).title, "👀 Review Requested");
    assert_eq!(notify_random_demo(4).title, "📝 New Draft PR");
}

#[test]
fn durations_in_words() {
    assert_eq!(human_duration(-5), "0s");
    assert_eq!(human_duration(59), "59s");
    assert_eq!(human_duration(60), "1m");
    assert_eq!(human_duration(3599), "59m");
    assert_eq!(human_duration(3600), "1h0m");
    assert_eq!(human_duration(68 * 60), "1h8m");
}

#[test]
fn text_is_cut_and_padded_by_columns() {
    assert_eq!(truncate_ellipsis("hello world", 5), "hell…");
    assert_eq!(truncate_ellipsis("hello", 5), "hello");
    assert_eq!(truncate_ellipsis("hello", 0), "");
    assert_eq!(truncate_ellipsis("hello", 1), "");
    assert_eq!(truncate_ellipsis("日本語テキスト", 5), "日本…");
    assert_eq!(truncate_ellipsis("日本語", 1), "…");
    assert_eq!(truncate_ellipsis("日本語", 2), "");
    assert_eq!(pad_right("ab", 4), "ab  ");
    assert_eq!(pad_right("abcd", 4), "abcd");
    assert_eq!(pad_right("abcde", 4), "abcde");
    assert_eq!(pad_right("日本", 6), "日本  ");
    assert_eq!(shimmer(0), "▓░░░░░░░░░");
    assert_eq!(shimmer(13), "░░░▓░░░░░░");
    assert_eq!(category_title(Category::NeedsYou), "🔥 NEEDS YOU");
    assert_eq!(category_title(Category::Stale), "⏳ WAITING ON OTHERS");
}

#[test]
fn clamped_selection() {
    let mut sel = 5usize;
    clamp_selection(&mut sel, 3);
    assert_eq!(sel, 2);
    clamp_selection(&mut sel, 10);
    assert_eq!(sel, 2);
    clamp_selection(&mut sel, 0);
    assert_eq!(sel, 0);
}

#[test]
fn free_text_filter() {
    let p = ui("Acme", "Web", 1932, Category::Waiting);
    assert!(matches_filter(&p, ""));
    assert!(matches_filter(&p, "   "));
    assert!(matches_filter(&p, "acme/web"));
    assert!(matches_filter(&p, "  ACME  "));
    assert!(matches_filter(&p, "alice"));
    assert!(matches_filter(&p, "fix thing"));
    assert!(matches_filter(&p, "#19"));
    assert!(matches_filter(&p, "932"));
    assert!(!matches_filter(&p, "orbit"));
    assert!(!matches_filter(&p, "#20"));
}

#[test]
fn filters_and_sections() {
    let mut draft = ui("acme", "web", 4, Category::NeedsYou);
    draft.pr.is_draft = true;
    let mut failing = ui("orbit", "api", 5, Category::Stale);
    failing.pr.ci_state = CiState::Failure;
    let mut asked = ui("orbit", "web", 6, Category::NeedsYou);
    asked.pr.review_state = ReviewState::Requested;
    let prs = vec![
        ui("acme", "web", 1, Category::Waiting),
        ui("acme", "api", 2, Category::ReadyToMerge),
        ui("acme", "web", 3, Category::NeedsYou),
        draft,
        failing,
        asked,
    ];
    assert_eq!(filtered_indices(&prs, "", false, false, false), vec![0, 1, 2, 3, 4, 5]);
    assert_eq!(filtered_indices(&prs, "", true, false, false), vec![2, 3, 5]);
    assert_eq!(filtered_indices(&prs, "", false, true, false), vec![4]);
    assert_eq!(filtered_indices(&prs, "", false, false, true), vec![5]);
    assert_eq!(filtered_indices(&prs, "orbit", true, false, false), vec![5]);
    assert_eq!(filtered_indices(&prs, "acme/web", false, false, false), vec![0, 2, 3]);
    let all = filtered_indices(&prs, "", false, false, false);
    assert_eq!(visible_rows(&prs, &all), vec![1, 2, 5, 0, 4, 3]);
    assert_eq!(visible_rows(&prs, &vec![5, 99, 0]), vec![5, 0]);
}

#[test]
fn startup_state() {
    let s = state(vec![ui("acme", "web", 1, Category::Waiting), ui("acme", "web", 2, Category::Waiting)]);
    assert_eq!(s.mode, ViewMode::List);
    assert_eq!(s.selected_idx, 0);
    assert!(!s.refreshing);
    assert_eq!(s.last_refresh_started, Some(1000));
    assert_eq!(s.seen_repos, vec!["acme/web".to_string()]);
    assert!(s.filter_query.is_empty());
    assert!(s.details_pr_key.is_none());
    assert!(!UiPrefs::default().hide_repo);
}

#[test]
fn automatic_refresh_follows_the_view_timers() {
    let mut s = state(vec![ui("acme", "web", 1, Category::Waiting)]);
    assert!(!s.auto_refresh_due(1179, &intervals()));
    assert!(s.auto_refresh_due(1180, &intervals()));
    assert!(!s.auto_refresh_due(5, &intervals()));
    assert!(!s.start_auto_refresh(1100, &intervals()));
    assert!(s.start_auto_refresh(1180, &intervals()));
    assert!(s.refreshing);
    assert_eq!(s.last_refresh_started, Some(1180));
    assert!(!s.auto_refresh_due(9999, &intervals()));
    assert!(!s.start_auto_refresh(9999, &intervals()));
    s.refresh_failed();
    assert!(!s.refreshing);
    assert_eq!(s.prs.len(), 1);
    assert!(matches!(press(&mut s, Key::Tab), Action::Nothing));
    assert_eq!(s.mode, ViewMode::Details);
    assert_eq!(s.details_last_auto_refresh, Some(2000));
    assert!(!s.auto_refresh_due(2029, &intervals()));
    assert!(s.start_auto_refresh(2030, &intervals()));
    assert_eq!(s.details_last_auto_refresh, Some(2030));
    assert_eq!(s.last_refresh_started, Some(2030));
}

#[test]
fn manual_refresh_is_a_no_op_while_one_is_in_flight() {
    let mut s = state(vec![]);
    assert!(matches!(press(&mut s, Key::Char('r')), Action::StartRefresh));
    assert!(s.refreshing);
    assert_eq!(s.shimmer_phase, 0);
    assert_eq!(s.last_refresh_started, Some(2000));
    s.advance_shimmer();
    s.advance_shimmer();
    assert_eq!(s.shimmer_phase, 2);
    assert!(matches!(press(&mut s, Key::Char('r')), Action::Nothing));
    assert_eq!(s.shimmer_phase, 2);
    assert!(!s.start_refresh(3000));
    assert_eq!(s.last_refresh_started, Some(2000));
    s.refresh_failed();
    s.advance_shimmer();
    assert_eq!(s.shimmer_phase, 2);
    assert!(s.start_refresh(3000));
}

#[test]
fn completed_refresh_replaces_the_list_and_alerts() {
    let mut s = state(vec![
        ui("acme", "web", 1, Category::NeedsYou),
        ui("acme", "web", 2, Category::Waiting),
    ]);
    s.start_refresh(1500);
    let mut failed = ui("orbit", "api", 9, Category::NeedsYou);
    failed.is_new_ci_failure = true;
    let mut asked = ui("acme", "web", 2, Category::NeedsYou);
    asked.is_new_review_request = true;
    let new_prs = vec![
        ui("acme", "web", 1, Category::NeedsYou),
        asked,
        failed,
        ui("orbit", "api", 10, Category::ReadyToMerge),
        ui("zed", "docs", 11, Category::Waiting),
    ];
    let alerts = s.refresh_completed(new_prs, true, true);
    assert!(alerts.bell);
    assert_eq!(alerts.entered_needs_you, 2);
    assert_eq!(alerts.ci_failures, vec![2]);
    assert_eq!(alerts.review_requests, vec![1]);
    assert_eq!(alerts.ready_to_merge, vec![3]);
    assert_eq!(alerts.new_repos, vec!["orbit/api".to_string(), "zed/docs".to_string()]);
    assert!(!s.refreshing);
    assert_eq!(s.prs.len(), 5);
    assert_eq!(
        s.seen_repos,
        vec!["acme/web".to_string(), "orbit/api".to_string(), "zed/docs".to_string()]
    );
    let quiet = s.refresh_completed(vec![ui("acme", "web", 1, Category::NeedsYou)], true, true);
    assert!(!quiet.bell);
    assert_eq!(quiet.entered_needs_you, 0);
    assert!(quiet.new_repos.is_empty());
    assert_eq!(s.prs.len(), 1);
}

#[test]
fn alerts_are_capped_and_can_be_switched_off() {
    let mut s = state(vec![]);
    let mut new_prs = Vec::new();
    for n in 0..5 {
        let mut p = ui("acme", "web", n, Category::ReadyToMerge);
        p.is_new_ci_failure = true;
        p.is_new_review_request = n % 2 == 0;
        new_prs.push(p);
    }
    let alerts = s.refresh_completed(new_prs, false, true);
    assert!(!alerts.bell);
    assert_eq!(alerts.ci_failures, vec![0, 1, 2]);
    assert_eq!(alerts.review_requests, vec![0, 2, 4]);
    assert_eq!(alerts.ready_to_merge, vec![0, 1, 2]);
    assert_eq!(alerts.entered_needs_you, 0);
    let mut t = state(vec![]);
    let mut p = ui("acme", "web", 1, Category::NeedsYou);
    p.is_new_ci_failure = true;
    let silent = t.refresh_completed(vec![p], true, false);
    assert!(silent.bell);
    assert!(silent.new_repos.is_empty());
    assert!(silent.ci_failures.is_empty());
    assert_eq!(silent.entered_needs_you, 0);
}

#[test]
fn navigation_wraps_in_the_list() {
    let mut s = state(vec![
        ui("acme", "web", 1, Category::Waiting),
        ui("acme", "web", 2, Category::Waiting),
        ui("acme", "web", 3, Category::Waiting),
    ]);
    press(&mut s, Key::Up);
    assert_eq!(s.selected_idx, 2);
    press(&mut s, Key::Down);
    assert_eq!(s.selected_idx, 0);
    press(&mut s, Key::Down);
    assert_eq!(s.selected_idx, 1);
    let mut empty = state(vec![]);
    press(&mut empty, Key::Down);
    assert_eq!(empty.selected_idx, 0);
    assert!(matches!(press(&mut empty, Key::Enter), Action::Nothing));
    assert!(matches!(press(&mut empty, Key::Tab), Action::Nothing));
    assert_eq!(empty.mode, ViewMode::List);
    assert!(matches!(press(&mut empty, Key::Char('q')), Action::Quit));
}

#[test]
fn typing_a_filter_applies_at_once() {
    let mut s = state(vec![
        ui("acme", "web", 1, Category::Waiting),
        ui("orbit", "api", 2, Category::Waiting),
    ]);
    s.selected_idx = 1;
    press(&mut s, Key::Char('/'));
    assert!(s.filter_editing);
    assert_eq!(s.selected_idx, 0);
    press(&mut s, Key::Char('o'));
    press(&mut s, Key::Char('r'));
    press(&mut s, Key::Char('\u{7}'));
    press(&mut s, Key::Char('x'));
    assert_eq!(s.filter_edit, "orx");
    assert_eq!(s.filter_query, "orx");
    assert_eq!(s.filter_banner(), Some("Filter: orx (Esc back)".to_string()));
    assert!(s.reproject().is_empty());
    press(&mut s, Key::Backspace);
    assert_eq!(s.filter_query, "or");
    assert_eq!(s.reproject(), vec![1]);
    assert!(!s.refreshing);
    press(&mut s, Key::Ctrl('n'));
    assert!(s.only_needs_you);
    assert!(s.reproject().is_empty());
    assert_eq!(s.selected_idx, 0);
    press(&mut s, Key::Ctrl('n'));
    press(&mut s, Key::Ctrl('c'));
    press(&mut s, Key::Ctrl('v'));
    assert!(s.only_failing_ci && s.only_review_requested && !s.only_needs_you);
    press(&mut s, Key::Ctrl('x'));
    assert!(!s.only_failing_ci && !s.only_review_requested);
    assert!(s.filter_query.is_empty() && s.filter_edit.is_empty());
    assert!(s.filter_editing);
    press(&mut s, Key::Char('a'));
    press(&mut s, Key::Esc);
    assert!(!s.filter_editing);
    assert!(s.filter_query.is_empty());
    assert_eq!(s.filter_banner(), None);
    press(&mut s, Key::Backspace);
    assert!(s.filter_query.is_empty());
}

#[test]
fn filter_banner_lists_what_is_in_force() {
    let mut s = state(vec![ui("acme", "web", 1, Category::Waiting)]);
    press(&mut s, Key::Char('/'));
    press(&mut s, Key::Char('w'));
    let opened = press(&mut s, Key::Enter);
    assert!(matches!(opened, Action::Open { .. }));
    assert!(!s.filter_editing);
    assert_eq!(s.filter_query, "w");
    assert!(s.filter_edit.is_empty());
    press(&mut s, Key::Char('n'));
    press(&mut s, Key::Char('v'));
    assert_eq!(s.filter_banner(), Some("Filter: q=\"w\"  needs  review".to_string()));
    press(&mut s, Key::Char('c'));
    assert_eq!(s.filter_banner(), Some("Filter: q=\"w\"  needs  failing  review".to_string()));
    press(&mut s, Key::Esc);
    assert_eq!(s.filter_banner(), None);
    assert!(!s.only_needs_you);
    press(&mut s, Key::Char('c'));
    assert_eq!(s.filter_banner(), Some("Filter: failing".to_string()));
    press(&mut s, Key::Char('x'));
    assert_eq!(s.filter_banner(), None);
}

#[test]
fn opening_stamps_the_pull_request() {
    let mut s = state(vec![
        ui("acme", "web", 1, Category::Waiting),
        ui("acme", "web", 2, Category::NeedsYou),
    ]);
    match press(&mut s, Key::Enter) {
        Action::Open { url, pr_key, opened_at } => {
            assert_eq!(url, "https://github.com/acme/web/pull/2");
            assert_eq!(pr_key, "acme/web#2");
            assert_eq!(opened_at, 1_700_000_000);
        }
        _ => panic!("expected the selected pull request to open"),
    }
    assert_eq!(s.prs[1].last_opened_at, Some(1_700_000_000));
    assert_eq!(s.prs[0].last_opened_at, None);
    assert_eq!(s.prs.len(), 2);
    assert_eq!(s.prs[1].pr.number, 2);
}

#[test]
fn details_view_selects_and_opens_checks() {
    let mut p = ui("acme", "web", 1, Category::Waiting);
    p.pr.ci_checks = vec![
        check("build", CiCheckState::Success, Some("https://ci/1")),
        check("lint", CiCheckState::Failure, None),
        check("test", CiCheckState::Failure, Some("https://ci/3")),
    ];
    let mut s = state(vec![p, ui("acme", "web", 2, Category::Waiting)]);
    press(&mut s, Key::Tab);
    assert_eq!(s.mode, ViewMode::Details);
    assert_eq!(s.details_pr_key, Some("acme/web#1".to_string()));
    assert_eq!(s.details_ci_selected, 0);
    press(&mut s, Key::Up);
    assert_eq!(s.details_ci_selected, 0);
    match press(&mut s, Key::Enter) {
        Action::Open { url, .. } => assert_eq!(url, "https://ci/1"),
        _ => panic!("expected the selected check to open"),
    }
    press(&mut s, Key::Down);
    match press(&mut s, Key::Enter) {
        Action::Open { url, pr_key, .. } => {
            assert_eq!(url, "https://github.com/acme/web/pull/1");
            assert_eq!(pr_key, "acme/web#1");
        }
        _ => panic!("expected the pull request to open"),
    }
    press(&mut s, Key::Down);
    press(&mut s, Key::Down);
    assert_eq!(s.details_ci_selected, 2);
    match press(&mut s, Key::Char('f')) {
        Action::Open { url, .. } => assert_eq!(url, "https://github.com/acme/web/pull/1"),
        _ => panic!("expected the first failing check to decide"),
    }
    press(&mut s, Key::Char('n'));
    assert!(!s.only_needs_you);
    press(&mut s, Key::Tab);
    assert_eq!(s.mode, ViewMode::List);
    assert_eq!(s.details_last_auto_refresh, None);
    assert!(matches!(press(&mut s, Key::Char('f')), Action::Nothing));
}

#[test]
fn details_of_a_vanished_pull_request_fall_back_to_the_list() {
    let mut s = state(vec![ui("acme", "web", 1, Category::Waiting)]);
    press(&mut s, Key::Tab);
    assert_eq!(s.mode, ViewMode::Details);
    s.start_refresh(10);
    s.refresh_completed(vec![ui("acme", "web", 2, Category::Waiting)], false, false);
    let visible = s.reproject();
    assert_eq!(s.mode, ViewMode::List);
    assert_eq!(visible, vec![0]);
}

#[test]
fn help_takes_every_key() {
    let mut s = state(vec![ui("acme", "web", 1, Category::Waiting)]);
    press(&mut s, Key::Char('?'));
    assert!(s.help_open);
    assert!(matches!(press(&mut s, Key::Char('r')), Action::Nothing));
    assert!(!s.refreshing);
    press(&mut s, Key::Down);
    assert_eq!(s.selected_idx, 0);
    assert!(matches!(press(&mut s, Key::Char('q')), Action::Nothing));
    assert!(!s.help_open);
    press(&mut s, Key::Char('?'));
    press(&mut s, Key::Esc);
    assert!(!s.help_open);
    press(&mut s, Key::Other);
    assert!(!s.help_open);
}

#[test]
fn selection_is_clamped_when_the_list_shrinks() {
    let mut s = state(vec![
        ui("acme", "web", 1, Category::Waiting),
        ui("acme", "web", 2, Category::Waiting),
        ui("orbit", "web", 3, Category::Waiting),
    ]);
    s.selected_idx = 2;
    s.filter_query = "acme".to_string();
    let visible = s.reproject();
    assert_eq!(visible, vec![0, 1]);
    assert_eq!(s.selected_idx, 1);
    s.filter_query = "nothing".to_string();
    assert!(s.reproject().is_empty());
    assert_eq!(s.selected_idx, 0);
}

#[test]
fn characters_that_fit() {
    let widths = vec![Some(1), Some(2), None, Some(1), Some(5)];
    assert_eq!(fitting_count(&widths, 4), 4);
    assert_eq!(fitting_count(&widths, 3), 3);
    assert_eq!(fitting_count(&widths, 2), 1);
    assert_eq!(fitting_count(&widths, 0), 0);
    assert_eq!(fitting_count(&widths, 100), 5);
    assert_eq!(fitting_count(&vec![None, Some(1)], 0), 1);
    assert_eq!(fitting_count(&vec![Some(usize::MAX), Some(1)], usize::MAX), 1);
    assert_eq!(fitting_count(&Vec::new(), 3), 0);
}

#[test]
fn padding_to_a_measured_width() {
    assert_eq!(pad_to("ab", 2, 5), "ab   ");
    assert_eq!(pad_to("ab", 4, 5), "ab ");
    assert_eq!(pad_to("ab", 5, 5), "ab");
    assert_eq!(pad_to("ab", 7, 5), "ab");
    assert_eq!(pad_to("", 0, 0), "");
}

#[test]
fn query_terms() {
    assert!(filter_hits("", "", "abc", "def", "ghi", "#1"));
    assert!(filter_hits("x", "x", "ax", "", "", "#1"));
    assert!(filter_hits("E", "e", "abc", "def", "ghi", "#1"));
    assert!(filter_hits("H", "h", "abc", "def", "ghi", "#1"));
    assert!(!filter_hits("X", "x", "abc", "def", "ghi", "#1"));
    assert!(filter_hits("#1", "#1", "abc", "def", "ghi", "#12"));
    assert!(!filter_hits("ABC", "zzz", "abc", "def", "ghi", "#12"));
    assert!(filter_hits("ghi", "other", "abc", "def", "x", "a ghi b"));
}

#[test]
fn each_pull_request_has_one_section() {
    let mut p = ui("acme", "web", 1, Category::NeedsYou);
    assert_eq!(section_for(&p), Section::NeedsYou);
    p.category = Category::ReadyToMerge;
    assert_eq!(section_for(&p), Section::ReadyToMerge);
    p.category = Category::Waiting;
    assert_eq!(section_for(&p), Section::Waiting);
    p.category = Category::Stale;
    assert_eq!(section_for(&p), Section::Stale);
    p.pr.is_draft = true;
    assert_eq!(section_for(&p), Section::Draft);
    let prs = vec![
        ui("a", "b", 1, Category::Stale),
        ui("a", "b", 2, Category::NeedsYou),
        ui("a", "b", 3, Category::Stale),
    ];
    let mut shown = visible_rows(&prs, &vec![2, 0, 1, 2, 7]);
    assert_eq!(shown, vec![1, 2, 0, 2]);
    shown.sort();
    assert_eq!(shown, vec![0, 1, 2, 2]);
}

#[test]
fn cells_are_measured_over_the_rows_shown() {
    let mut wide = ui("windmill-labs", "日本", 12345, Category::Waiting);
    wide.display_status = "❌ CI failed (new)".to_string();
    let prs = vec![ui("acme", "web", 1, Category::Waiting), wide];
    let all = measure_cells(&prs, &vec![0, 1, 9]);
    assert_eq!(all.repo, Some(18));
    assert_eq!(all.author, Some(5));
    assert_eq!(all.num, Some(6));
    assert_eq!(all.status, Some(18));
    let first = measure_cells(&prs, &vec![0]);
    assert_eq!(first.repo, Some(8));
    assert_eq!(first.num, Some(2));
    assert_eq!(first.status, Some(0));
    let none = measure_cells(&prs, &vec![5]);
    assert_eq!(none.repo, None);
    assert_eq!(none.status, None);
}

#[test]
fn columns_share_the_width() {
    let shown = UiPrefs::default();
    let widest = Widest { repo: Some(20), author: Some(5), num: Some(3), status: Some(40) };
    let c = column_widths(widest, 120, shown);
    assert_eq!((c.repo_w, c.author_w, c.num_w, c.status_w), (20, 6, 4, 34));
    assert_eq!(c.title_w, 120 - (2 + 22 + 8 + 6 + 34 + 2));
    let narrow = column_widths(widest, 80, shown);
    assert_eq!(narrow.title_w, 16);
    assert_eq!(narrow.repo_w, 10);
    let tiny = column_widths(widest, 40, shown);
    assert_eq!(tiny.repo_w, 4);
    assert_eq!(tiny.title_w, 8);
    let empty = Widest { repo: None, author: None, num: None, status: None };
    let d = column_widths(empty, 200, shown);
    assert_eq!((d.repo_w, d.author_w, d.num_w, d.status_w), (10, 6, 4, 12));
    assert_eq!(d.title_w, 200 - (2 + 12 + 8 + 6 + 12 + 2));
    let hidden = UiPrefs { hide_pr_numbers: true, hide_repo: true, hide_author: true };
    let h = column_widths(widest, 100, hidden);
    assert_eq!((h.repo_w, h.author_w, h.num_w, h.status_w), (0, 0, 0, 34));
    assert_eq!(h.title_w, 100 - (2 + 34 + 2));
    let long = Widest { repo: Some(99), author: Some(99), num: Some(99), status: Some(1) };
    let l = column_widths(long, 300, shown);
    assert_eq!((l.repo_w, l.author_w, l.num_w, l.status_w), (35, 16, 8, 12));
}

#[test]
fn checks_are_summed_up() {
    let checks = vec![
        check("build", CiCheckState::Success, None),
        check("lint", CiCheckState::Failure, None),
        check("e2e", CiCheckState::Failure, None),
        check("deploy", CiCheckState::Running, None),
        check("audit", CiCheckState::Neutral, None),
        check("cov", CiCheckState::Failure, None),
        check("docs", CiCheckState::Absent, None),
        check("fuzz", CiCheckState::Failure, None),
    ];
    let t = tally_checks(&checks);
    assert_eq!((t.failed, t.running, t.ok, t.other), (4, 1, 1, 2));
    assert_eq!(summary_line(&t), "Summary: 4 failed, 1 running, 1 ok, 2 other");
    assert_eq!(failed_line(&checks), Some("Failed: lint, e2e, cov".to_string()));
    let calm = vec![check("build", CiCheckState::Success, None)];
    assert_eq!(failed_line(&calm), None);
    assert_eq!(failed_line(&Vec::new()), None);
    assert_eq!(summary_line(&tally_checks(&Vec::new())), "Summary: 0 failed, 0 running, 0 ok, 0 other");
    let one = vec![check("only", CiCheckState::Failure, None)];
    assert_eq!(failed_line(&one), Some("Failed: only".to_string()));
}

#[test]
fn the_list_is_laid_out_section_by_section() {
    let mut draft = ui("a", "b", 3, Category::NeedsYou);
    draft.pr.is_draft = true;
    let prs = vec![
        ui("a", "b", 0, Category::Waiting),
        ui("a", "b", 1, Category::ReadyToMerge),
        ui("a", "b", 2, Category::Waiting),
        draft,
    ];
    let all = filtered_indices(&prs, "", false, false, false);
    let visible = visible_rows(&prs, &all);
    assert_eq!(visible, vec![1, 0, 2, 3]);
    let full = plan_list(&prs, &visible, true, 100);
    assert_eq!(
        full,
        vec![
            ListLine::Banner,
            ListLine::Blank,
            ListLine::Heading(Section::ReadyToMerge),
            ListLine::Divider,
            ListLine::ColumnHeader,
            ListLine::Row(1),
            ListLine::Blank,
            ListLine::Heading(Section::Waiting),
            ListLine::Divider,
            ListLine::ColumnHeader,
            ListLine::Row(0),
            ListLine::Row(2),
            ListLine::Blank,
            ListLine::Heading(Section::Draft),
            ListLine::Divider,
            ListLine::ColumnHeader,
            ListLine::Row(3),
        ]
    );
    assert_eq!(rows_of(&full), vec![1, 0, 2, 3]);
    let plain = plan_list(&prs, &visible, false, 100);
    assert_eq!(plain.len(), 15);
    assert_eq!(plain[0], ListLine::Heading(Section::ReadyToMerge));
}

#[test]
fn the_list_is_cut_to_the_window() {
    let prs = vec![
        ui("a", "b", 0, Category::Waiting),
        ui("a", "b", 1, Category::ReadyToMerge),
        ui("a", "b", 2, Category::Waiting),
    ];
    let visible = vec![1, 0, 2, 9];
    for height in 0..14 {
        let cut = plan_list(&prs, &visible, false, height);
        let full = plan_list(&prs, &visible, false, 100);
        assert_eq!(full.len(), 10);
        assert_eq!(cut.len(), height.min(10));
        assert_eq!(cut[..], full[..cut.len()]);
        let rows = rows_of(&cut);
        assert!(rows.len() <= height);
        assert_eq!(rows[..], [1usize, 0, 2][..rows.len()]);
    }
    assert_eq!(rows_of(&plan_list(&prs, &visible, false, 3)), Vec::<usize>::new());
    assert_eq!(rows_of(&plan_list(&prs, &visible, false, 4)), vec![1]);
    assert_eq!(rows_of(&plan_list(&prs, &visible, false, 8)), vec![1]);
    assert_eq!(rows_of(&plan_list(&prs, &visible, false, 9)), vec![1, 0]);
    assert_eq!(rows_of(&plan_list(&prs, &visible, true, 6)), vec![1]);
    assert!(plan_list(&prs, &Vec::new(), false, 10).is_empty());
    assert_eq!(plan_list(&prs, &Vec::new(), true, 10), vec![ListLine::Banner, ListLine::Blank]);
    assert_eq!(plan_list(&prs, &visible, true, 1), vec![ListLine::Banner]);
}

#[test]
fn an_empty_query_lets_everything_through() {
    let p = ui("acme", "web", 1, Category::Waiting);
    assert!(matches_filter(&p, ""));
    assert_eq!(filtered_indices(&vec![p], "", false, false, false), vec![0]);
}
