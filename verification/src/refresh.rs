//! Novelty detection, scoring, categorisation and the refresh pipeline.

use vstd::prelude::*;
use vstd::string::*;
use crate::db::{delete_prs_not_in, stored_row, upsert_pr, upserted, CacheTable, DbPrRow};
use crate::model::{
    clone_checks, clone_pr, same_pr, CiCheck, CiCheckState, CiState, Pr, ReviewState,
};
use crate::text::{
    clone_opt_string, contains_string, decimal, opt_eq, opt_is, opt_same, push_decimal, sat_sub,
    saturating_sub, string_set,
};

verus! {

/// Points for a review requested from the viewer.
pub const SCORE_REVIEW_REQUESTED: i32 = 50;

/// Points for a CI failure that is new.
pub const SCORE_CI_FAILED_NEW: i32 = 40;

/// Points for CI that has been running for long.
pub const SCORE_CI_RUNNING_LONG: i32 = 20;

/// Points for an approval that has gone unmerged for long.
pub const SCORE_APPROVED_UNMERGED_OLD: i32 = 15;

/// Points for a green pull request that waits on others.
pub const SCORE_WAITING_ON_OTHERS_GREEN: i32 = -20;

/// Points for a CI failure that was already known.
pub const SCORE_CI_FAILED_UNCHANGED: i32 = -30;

/// Least score of the category that needs the viewer.
pub const CATEGORY_NEEDS_YOU_MIN: i32 = 40;

/// Least score of the category that needs no action.
pub const CATEGORY_NO_ACTION_MIN: i32 = 0;

/// Seconds after which running CI counts as running for long.
pub const CI_RUNNING_LONG_SECS: i64 = 600;

/// Seconds after which an unmerged approval counts as old.
pub const APPROVED_UNMERGED_OLD_SECS: i64 = 86400;

/// Which owners and repositories are in scope.
#[derive(Debug, Clone)]
pub struct ScopeFilters {
    pub orgs: Vec<String>,
    /// `owner/repo`
    pub include_repos: Vec<String>,
    /// `owner/repo`
    pub exclude_repos: Vec<String>,
}

/// `owner/repo`.
pub open spec fn repo_slug(owner: Seq<char>, repo: Seq<char>) -> Seq<char> {
    owner + "/"@ + repo
}

/// `owner/repo` as a string.
pub fn repo_slug_string(owner: &str, repo: &str) -> (r: String)
    ensures
        r@ == repo_slug(owner@, repo@),
{
    let mut full = owner.to_string();
    full.append("/");
    full.append(repo);
    full
}

impl ScopeFilters {
    /// A pull request is in scope when its owner is among `orgs` (or `orgs`
    /// is empty), its repository is among `include_repos` (or that list is
    /// empty), and its repository is not among `exclude_repos`.
    pub open spec fn in_scope(&self, pr: &Pr) -> bool {
        self.admits(pr.owner@, pr.repo@)
    }

    /// Whether the repository `owner/repo` is in scope.
    pub open spec fn admits(&self, owner: Seq<char>, repo: Seq<char>) -> bool {
        &&& self.orgs@.len() == 0 || string_set(self.orgs@).contains(owner)
        &&& self.include_repos@.len() == 0 || string_set(self.include_repos@).contains(
            repo_slug(owner, repo),
        )
        &&& !string_set(self.exclude_repos@).contains(repo_slug(owner, repo))
    }

    pub fn matches(&self, pr: &Pr) -> (r: bool)
        ensures
            r == self.in_scope(pr),
    {
        if self.orgs.len() != 0 && !contains_string(&self.orgs, pr.owner.as_str()) {
            return false;
        }
        let full = repo_slug_string(pr.owner.as_str(), pr.repo.as_str());
        if self.include_repos.len() != 0 && !contains_string(&self.include_repos, full.as_str()) {
            return false;
        }
        if contains_string(&self.exclude_repos, full.as_str()) {
            return false;
        }
        true
    }
}

/// The bucket a pull request is shown in.
#[derive(Debug, Clone, Copy, PartialEq, Eq, Structural)]
pub enum Category {
    NeedsYou,
    ReadyToMerge,
    Waiting,
    Stale,
}

/// A pull request as the engine hands it out: scored, categorised, with its
/// status line and the novelty flags of the cycle that produced it.
#[derive(Debug, Clone)]
pub struct UiPr {
    pub pr: Pr,
    pub score: i32,
    pub category: Category,
    pub display_status: String,
    pub last_opened_at: Option<i64>,
    pub is_new_review_request: bool,
    pub is_new_ci_failure: bool,
}

/// The CI state that a cached name stands for; an unknown or missing name
/// stands for no CI.
pub open spec fn ci_state_of(s: Option<String>) -> CiState {
    match s {
        Some(n) => if n@ == "success"@ {
            CiState::Success
        } else if n@ == "failure"@ {
            CiState::Failure
        } else if n@ == "running"@ {
            CiState::Running
        } else {
            CiState::Absent
        },
        None => CiState::Absent,
    }
}

pub fn parse_ci_state(s: &Option<String>) -> (r: CiState)
    ensures
        r == ci_state_of(*s),
{
    if opt_is(s, "success") {
        CiState::Success
    } else if opt_is(s, "failure") {
        CiState::Failure
    } else if opt_is(s, "running") {
        CiState::Running
    } else {
        CiState::Absent
    }
}

/// The review state that a cached name stands for; an unknown or missing
/// name stands for none.
pub open spec fn review_state_of(s: Option<String>) -> ReviewState {
    match s {
        Some(n) => if n@ == "requested"@ {
            ReviewState::Requested
        } else if n@ == "approved"@ {
            ReviewState::Approved
        } else {
            ReviewState::Absent
        },
        None => ReviewState::Absent,
    }
}

pub fn parse_review_state(s: &Option<String>) -> (r: ReviewState)
    ensures
        r == review_state_of(*s),
{
    if opt_is(s, "requested") {
        ReviewState::Requested
    } else if opt_is(s, "approved") {
        ReviewState::Approved
    } else {
        ReviewState::Absent
    }
}

pub fn ci_to_db(ci: &CiState) -> (r: &'static str)
    ensures
        r@ == ci.name(),
{
    ci.as_str()
}

pub fn review_to_db(r: &ReviewState) -> (s: &'static str)
    ensures
        s@ == r.name(),
{
    r.as_str()
}

pub fn draft_to_db(v: bool) -> (r: i64)
    ensures
        r == (if v { 1i64 } else { 0i64 }),
{
    if v {
        1
    } else {
        0
    }
}

/// A running check that reports when it started.
pub open spec fn running_since(c: CiCheck) -> bool {
    c.state == CiCheckState::Running && c.started_at_unix.is_some()
}

/// The earliest start among the running checks that report one.
pub open spec fn oldest_running_start(checks: Seq<CiCheck>) -> Option<i64>
    decreases checks.len(),
{
    if checks.len() == 0 {
        None
    } else {
        let rest = oldest_running_start(checks.drop_last());
        let c = checks.last();
        if running_since(c) {
            match rest {
                Some(m) => if c.started_at_unix.unwrap() < m { c.started_at_unix } else { rest },
                None => c.started_at_unix,
            }
        } else {
            rest
        }
    }
}

/// The earliest start is the start of some running check, and no running
/// check that reports a start began before it; there is none exactly when no
/// running check reports a start.
pub proof fn lemma_oldest_running_start(checks: Seq<CiCheck>)
    ensures
        oldest_running_start(checks).is_none() <==> forall|i: int|
            0 <= i < checks.len() ==> !running_since(#[trigger] checks[i]),
        oldest_running_start(checks).is_some() ==> {
            &&& exists|i: int|
                0 <= i < checks.len() && running_since(#[trigger] checks[i])
                    && checks[i].started_at_unix == oldest_running_start(checks)
            &&& forall|i: int|
                0 <= i < checks.len() && running_since(#[trigger] checks[i])
                    ==> oldest_running_start(checks).unwrap() <= checks[i].started_at_unix.unwrap()
        },
    decreases checks.len(),
{
    if checks.len() > 0 {
        let rest = checks.drop_last();
        lemma_oldest_running_start(rest);
        assert(forall|i: int| 0 <= i < rest.len() ==> rest[i] == checks[i]);
        let last = checks.len() - 1;
        if oldest_running_start(checks).is_some() {
            if running_since(checks[last]) && checks[last].started_at_unix == oldest_running_start(
                checks,
            ) {
                assert(running_since(checks[last]));
            } else {
                let i = choose|i: int|
                    0 <= i < rest.len() && running_since(#[trigger] rest[i])
                        && rest[i].started_at_unix == oldest_running_start(rest);
                assert(running_since(checks[i]));
            }
        }
        if oldest_running_start(checks).is_none() {
            assert forall|i: int| 0 <= i < checks.len() implies !running_since(
                #[trigger] checks[i],
            ) by {
                if i < rest.len() {
                    assert(rest[i] == checks[i]);
                }
            }
        }
    }
}

/// For how long CI has been running at `now`: since the oldest running
/// check started, where a running check reports its start, else since the
/// pull request was last updated.
pub open spec fn running_secs(pr: &Pr, now: i64) -> i64 {
    match oldest_running_start(pr.ci_checks@) {
        Some(start) => sat_sub(now, start),
        None => sat_sub(now, pr.updated_at_unix),
    }
}

pub fn running_for_secs(pr: &Pr, now: i64) -> (r: i64)
    ensures
        r == running_secs(pr, now),
{
    let mut oldest: Option<i64> = None;
    let mut i: usize = 0;
    while i < pr.ci_checks.len()
        invariant
            i <= pr.ci_checks.len(),
            oldest == oldest_running_start(pr.ci_checks@.take(i as int)),
        decreases pr.ci_checks.len() - i,
    {
        proof {
            assert(pr.ci_checks@.take(i + 1).drop_last() =~= pr.ci_checks@.take(i as int));
        }
        let c = &pr.ci_checks[i];
        if matches!(c.state, CiCheckState::Running) {
            if let Some(s) = c.started_at_unix {
                oldest = match oldest {
                    Some(m) => if s < m { Some(s) } else { Some(m) },
                    None => Some(s),
                };
            }
        }
        i = i + 1;
    }
    proof {
        assert(pr.ci_checks@.take(pr.ci_checks.len() as int) =~= pr.ci_checks@);
    }
    match oldest {
        Some(start) => saturating_sub(now, start),
        None => saturating_sub(now, pr.updated_at_unix),
    }
}

/// Points for a requested review.
pub open spec fn review_term(pr: &Pr) -> int {
    if pr.review_state == ReviewState::Requested { SCORE_REVIEW_REQUESTED as int } else { 0 }
}

/// Points for failed CI: the points of a new failure when it is new, those
/// of a known one otherwise.
pub open spec fn ci_failure_term(pr: &Pr, is_new_ci_failure: bool) -> int {
    if pr.ci_state == CiState::Failure {
        if is_new_ci_failure { SCORE_CI_FAILED_NEW as int } else { SCORE_CI_FAILED_UNCHANGED as int }
    } else {
        0
    }
}

/// Points for CI that has been running for longer than the threshold.
pub open spec fn running_term(pr: &Pr, now: i64) -> int {
    if pr.ci_state == CiState::Running && running_secs(pr, now) > CI_RUNNING_LONG_SECS {
        SCORE_CI_RUNNING_LONG as int
    } else {
        0
    }
}

/// Points for an approval that has gone unmerged for longer than the
/// threshold.
pub open spec fn approved_term(pr: &Pr, now: i64) -> int {
    if pr.review_state == ReviewState::Approved && sat_sub(now, pr.updated_at_unix)
        > APPROVED_UNMERGED_OLD_SECS {
        SCORE_APPROVED_UNMERGED_OLD as int
    } else {
        0
    }
}

/// Points for a green pull request with no review asked of or given by the
/// viewer.
pub open spec fn waiting_term(pr: &Pr) -> int {
    if pr.review_state == ReviewState::Absent && pr.ci_state == CiState::Success {
        SCORE_WAITING_ON_OTHERS_GREEN as int
    } else {
        0
    }
}

/// The urgency score: the sum of the five terms.
pub open spec fn score(pr: &Pr, is_new_ci_failure: bool, now: i64) -> int {
    review_term(pr) + ci_failure_term(pr, is_new_ci_failure) + running_term(pr, now)
        + approved_term(pr, now) + waiting_term(pr)
}

/// Scores a pull request. The cached row is not read: what it tells is in
/// `is_new_ci_failure`.
pub fn score_pr(pr: &Pr, old: Option<&DbPrRow>, now: i64, is_new_ci_failure: bool) -> (r: i32)
    ensures
        r as int == score(pr, is_new_ci_failure, now),
{
    let mut total: i32 = 0;
    if matches!(pr.review_state, ReviewState::Requested) {
        total = total + SCORE_REVIEW_REQUESTED;
    }
    if matches!(pr.ci_state, CiState::Failure) {
        if is_new_ci_failure {
            total = total + SCORE_CI_FAILED_NEW;
        } else {
            total = total + SCORE_CI_FAILED_UNCHANGED;
        }
    }
    if matches!(pr.ci_state, CiState::Running) {
        if running_for_secs(pr, now) > CI_RUNNING_LONG_SECS {
            total = total + SCORE_CI_RUNNING_LONG;
        }
    }
    if matches!(pr.review_state, ReviewState::Approved) {
        if saturating_sub(now, pr.updated_at_unix) > APPROVED_UNMERGED_OLD_SECS {
            total = total + SCORE_APPROVED_UNMERGED_OLD;
        }
    }
    if matches!(pr.review_state, ReviewState::Absent) && matches!(pr.ci_state, CiState::Success) {
        total = total + SCORE_WAITING_ON_OTHERS_GREEN;
    }
    total
}

/// The terms may be added in any order, and of the five only the two age
/// terms read the time: with them taken out, the score is the same at any
/// two times.
pub proof fn lemma_score_terms(pr: &Pr, is_new_ci_failure: bool, now: i64, later: i64)
    ensures
        score(pr, is_new_ci_failure, now) == waiting_term(pr) + approved_term(pr, now)
            + running_term(pr, now) + ci_failure_term(pr, is_new_ci_failure) + review_term(pr),
        score(pr, is_new_ci_failure, now) - running_term(pr, now) - approved_term(pr, now)
            == score(pr, is_new_ci_failure, later) - running_term(pr, later) - approved_term(
            pr,
            later,
        ),
        -50 <= score(pr, is_new_ci_failure, now) <= 90,
{
}

/// The bucket that a score alone puts a pull request in.
pub open spec fn score_category(score: int) -> Category {
    if score >= CATEGORY_NEEDS_YOU_MIN {
        Category::NeedsYou
    } else if score >= CATEGORY_NO_ACTION_MIN {
        Category::Waiting
    } else {
        Category::Stale
    }
}

pub fn category_for(score: i32) -> (c: Category)
    ensures
        c == score_category(score as int),
{
    if score >= CATEGORY_NEEDS_YOU_MIN {
        Category::NeedsYou
    } else if score >= CATEGORY_NO_ACTION_MIN {
        Category::Waiting
    } else {
        Category::Stale
    }
}

/// The viewer's own pull request is green and nothing that is known blocks
/// its merge.
pub open spec fn ready_to_merge(pr: &Pr) -> bool {
    &&& pr.is_viewer_author
    &&& pr.ci_state == CiState::Success
    &&& match pr.merge_blockers {
        Some(b) => b.clear(),
        None => true,
    }
}

/// The bucket of a pull request: ready to merge where that holds, whatever
/// the score; else the bucket of the score.
pub open spec fn category_of(pr: &Pr, score: int) -> Category {
    if ready_to_merge(pr) {
        Category::ReadyToMerge
    } else {
        score_category(score)
    }
}

pub fn is_ready_to_merge(pr: &Pr) -> (r: bool)
    ensures
        r == ready_to_merge(pr),
{
    let unblocked = match &pr.merge_blockers {
        Some(b) => b.is_clear(),
        None => true,
    };
    pr.is_viewer_author && matches!(pr.ci_state, CiState::Success) && unblocked
}

pub fn categorize(pr: &Pr, score: i32) -> (c: Category)
    ensures
        c == category_of(pr, score as int),
{
    if is_ready_to_merge(pr) {
        Category::ReadyToMerge
    } else {
        category_for(score)
    }
}

/// Every pull request has exactly one bucket: each of the four conditions
/// below picks its bucket, they exclude one another, and one of them holds.
pub proof fn lemma_category_total(pr: &Pr, score: int)
    ensures
        category_of(pr, score) == Category::ReadyToMerge <==> ready_to_merge(pr),
        category_of(pr, score) == Category::NeedsYou <==> !ready_to_merge(pr) && score >= 40,
        category_of(pr, score) == Category::Waiting <==> !ready_to_merge(pr) && 0 <= score < 40,
        category_of(pr, score) == Category::Stale <==> !ready_to_merge(pr) && score < 0,
{
}

/// How long ago `then` was at `now`, in the largest unit that has passed.
pub open spec fn age_text(now: i64, then: i64) -> Seq<char> {
    let d = sat_sub(now, then);
    if d < 60 {
        "now"@
    } else if d < 3600 {
        decimal(d / 60) + "m ago"@
    } else if d < 86400 {
        decimal(d / 3600) + "h ago"@
    } else {
        decimal(d / 86400) + "d ago"@
    }
}

pub fn human_age(now: i64, then: i64) -> (r: String)
    ensures
        r@ == age_text(now, then),
{
    let d = saturating_sub(now, then);
    let mut out = String::new();
    proof {
        assert(forall|s: Seq<char>| Seq::<char>::empty() + s =~= s);
    }
    if d < 60 {
        out.append("now");
    } else if d < 3600 {
        push_decimal(&mut out, d / 60);
        out.append("m ago");
    } else if d < 86400 {
        push_decimal(&mut out, d / 3600);
        out.append("h ago");
    } else {
        push_decimal(&mut out, d / 86400);
        out.append("d ago");
    }
    out
}

/// Whole minutes in `secs`, rounded towards zero.
pub open spec fn whole_minutes(secs: i64) -> int {
    if secs >= 0 {
        secs / 60
    } else {
        -((-secs) / 60)
    }
}

/// Whole minutes in `secs`, rounded towards zero.
pub fn minutes_of(secs: i64) -> (r: i64)
    ensures
        r == whole_minutes(secs),
{
    if secs >= 0 {
        secs / 60
    } else if secs == i64::MIN {
        -153722867280912930
    } else {
        -((-secs) / 60)
    }
}

/// The one-line status of a pull request.
pub open spec fn status_line(
    pr: &Pr,
    now: i64,
    is_new_ci_failure: bool,
    is_new_review_request: bool,
) -> Seq<char> {
    if is_new_review_request && pr.review_state == ReviewState::Requested {
        "👀 review requested"@
    } else {
        match pr.ci_state {
            CiState::Failure => if is_new_ci_failure {
                "❌ CI failed (new)"@
            } else {
                "❌ CI failed"@
            },
            CiState::Running => "🟡 CI running ("@ + decimal(whole_minutes(running_secs(pr, now))) + "m)"@,
            CiState::Success => "✅ green "@ + age_text(now, pr.updated_at_unix),
            CiState::Absent => "⏺ none "@ + age_text(now, pr.updated_at_unix),
        }
    }
}

pub fn status_text(pr: &Pr, now: i64, is_new_ci_failure: bool, is_new_review_request: bool) -> (r:
    String)
    ensures
        r@ == status_line(pr, now, is_new_ci_failure, is_new_review_request),
{
    if is_new_review_request && matches!(pr.review_state, ReviewState::Requested) {
        return "👀 review requested".to_string();
    }
    match pr.ci_state {
        CiState::Failure => {
            if is_new_ci_failure {
                "❌ CI failed (new)".to_string()
            } else {
                "❌ CI failed".to_string()
            }
        },
        CiState::Running => {
            let mins = minutes_of(running_for_secs(pr, now));
            let mut out = "🟡 CI running (".to_string();
            push_decimal(&mut out, mins);
            out.append("m)");
            out
        },
        CiState::Success => {
            let mut out = "✅ green ".to_string();
            out.append(human_age(now, pr.updated_at_unix).as_str());
            out
        },
        CiState::Absent => {
            let mut out = "⏺ none ".to_string();
            out.append(human_age(now, pr.updated_at_unix).as_str());
            out
        },
    }
}

/// The row behind an optional reference.
pub open spec fn row_value(old: Option<&DbPrRow>) -> Option<DbPrRow> {
    match old {
        Some(row) => Some(*row),
        None => None,
    }
}

/// A review request is new when the review is requested now and the cached
/// row, if there is one, did not record it as requested.
pub open spec fn new_review_request(pr: &Pr, old: Option<DbPrRow>) -> bool {
    pr.review_state == ReviewState::Requested && match old {
        Some(row) => !(row.last_review_state.is_some() && row.last_review_state.unwrap()@
            == "requested"@),
        None => true,
    }
}

pub fn is_new_review_request(pr: &Pr, old: Option<&DbPrRow>) -> (r: bool)
    ensures
        r == new_review_request(pr, row_value(old)),
{
    if !matches!(pr.review_state, ReviewState::Requested) {
        return false;
    }
    match old {
        Some(row) => !opt_is(&row.last_review_state, "requested"),
        None => true,
    }
}

/// A CI failure is new when CI fails now and there is no cached row, or the
/// row did not record a failure, or the head commit has changed since.
pub open spec fn new_ci_failure(pr: &Pr, old: Option<DbPrRow>) -> bool {
    pr.ci_state == CiState::Failure && match old {
        Some(row) => !(row.last_ci_state.is_some() && row.last_ci_state.unwrap()@ == "failure"@)
            || !opt_same(row.last_commit_sha, pr.last_commit_sha),
        None => true,
    }
}

pub fn is_new_ci_failure(pr: &Pr, old: Option<&DbPrRow>) -> (r: bool)
    ensures
        r == new_ci_failure(pr, row_value(old)),
{
    if !matches!(pr.ci_state, CiState::Failure) {
        return false;
    }
    match old {
        Some(row) => {
            let commit_changed = !opt_eq(&row.last_commit_sha, &pr.last_commit_sha);
            !opt_is(&row.last_ci_state, "failure") || commit_changed
        },
        None => true,
    }
}

/// What the novelty flags read of a pull request and its cached row: the
/// two states, the head commit, and what the row recorded of each.
pub open spec fn novelty_inputs_agree(
    a: &Pr,
    a_old: Option<DbPrRow>,
    b: &Pr,
    b_old: Option<DbPrRow>,
) -> bool {
    &&& a.review_state == b.review_state
    &&& a.ci_state == b.ci_state
    &&& opt_same(a.last_commit_sha, b.last_commit_sha)
    &&& a_old.is_some() == b_old.is_some()
    &&& a_old.is_some() ==> {
        &&& opt_same(a_old.unwrap().last_review_state, b_old.unwrap().last_review_state)
        &&& opt_same(a_old.unwrap().last_ci_state, b_old.unwrap().last_ci_state)
        &&& opt_same(a_old.unwrap().last_commit_sha, b_old.unwrap().last_commit_sha)
    }
}

/// The novelty flags are functions of the pull request and its cached row
/// alone: inputs that agree in what the flags read give the same flags, at
/// whatever time they are asked for.
pub proof fn lemma_novelty_is_pure(a: &Pr, a_old: Option<DbPrRow>, b: &Pr, b_old: Option<DbPrRow>)
    requires
        novelty_inputs_agree(a, a_old, b, b_old),
    ensures
        new_review_request(a, a_old) == new_review_request(b, b_old),
        new_ci_failure(a, a_old) == new_ci_failure(b, b_old),
{
}

/// A pull request as fetched, with the stored form of its checks.
pub struct FetchedPr {
    pub pr: Pr,
    /// The checks of `pr` as the text that the cache stores; none where
    /// they could not be written as text.
    pub ci_checks_json: Option<String>,
}

/// The text stored for the checks of a fetched pull request: nothing for a
/// pull request without checks.
pub open spec fn stored_checks(f: &FetchedPr) -> Option<String> {
    if f.pr.ci_checks@.len() == 0 {
        None
    } else {
        f.ci_checks_json
    }
}

/// What a refresh cycle hands out: the ranked pull requests, the rows it
/// wrote to the cache and the keys it kept there.
pub struct RefreshOutcome {
    pub prs: Vec<UiPr>,
    pub rows: Vec<DbPrRow>,
    pub keep_keys: Vec<String>,
}

/// Seconds in `days` days, held within the range of `i64`.
pub open spec fn days_secs(days: i64) -> i64 {
    if days * 86400 > i64::MAX {
        i64::MAX
    } else if days * 86400 < i64::MIN {
        i64::MIN
    } else {
        (days * 86400) as i64
    }
}

/// The time before which a pull request has left the attention window.
pub open spec fn cutoff_ts(now: i64, cutoff_days: i64) -> i64 {
    sat_sub(now, days_secs(cutoff_days))
}

pub fn cutoff_for(now: i64, cutoff_days: i64) -> (r: i64)
    ensures
        r == cutoff_ts(now, cutoff_days),
{
    let secs: i64 = if cutoff_days > 106751991167300 {
        i64::MAX
    } else if cutoff_days < -106751991167300 {
        i64::MIN
    } else {
        cutoff_days * 86400
    };
    saturating_sub(now, secs)
}

/// A fetched pull request is in the attention window when it was updated at
/// or after the cutoff and is in scope.
pub open spec fn in_window(pr: &Pr, cutoff: i64, scope: &ScopeFilters) -> bool {
    pr.updated_at_unix >= cutoff && scope.in_scope(pr)
}

/// Those of `fetched` that are in the attention window, in their order.
pub open spec fn kept(fetched: Seq<FetchedPr>, cutoff: i64, scope: &ScopeFilters) -> Seq<FetchedPr>
    decreases fetched.len(),
{
    if fetched.len() == 0 {
        Seq::empty()
    } else if in_window(&fetched.last().pr, cutoff, scope) {
        kept(fetched.drop_last(), cutoff, scope).push(fetched.last())
    } else {
        kept(fetched.drop_last(), cutoff, scope)
    }
}

/// The row stored under `key`, if there is one.
pub open spec fn lookup(m: Map<Seq<char>, DbPrRow>, key: Seq<char>) -> Option<DbPrRow> {
    if m.contains_key(key) {
        Some(m[key])
    } else {
        None
    }
}

/// The `last_opened_at` that a cycle carries forward for a pull request:
/// that of its cached row, none where there is no row. A cycle never sets
/// the time itself: only the user's opening a pull request does.
pub open spec fn carried_opened_at(old: Option<DbPrRow>) -> Option<i64> {
    match old {
        Some(row) => row.last_opened_at,
        None => None,
    }
}

/// `row` is the cache row of the fetched pull request `f`, seen at `now`.
pub open spec fn row_matches(row: &DbPrRow, f: &FetchedPr, now: i64, last_opened_at: Option<i64>) -> bool {
    &&& row.pr_key == f.pr.pr_key
    &&& row.owner == f.pr.owner
    &&& row.repo == f.pr.repo
    &&& row.number == f.pr.number
    &&& row.title == f.pr.title
    &&& row.url == f.pr.url
    &&& row.author == Some(f.pr.author)
    &&& row.updated_at_unix == Some(f.pr.updated_at_unix)
    &&& row.last_commit_sha == f.pr.last_commit_sha
    &&& row.last_ci_state.is_some() && row.last_ci_state.unwrap()@ == f.pr.ci_state.name()
    &&& row.last_review_state.is_some() && row.last_review_state.unwrap()@
        == f.pr.review_state.name()
    &&& row.ci_checks_json == stored_checks(f)
    &&& row.is_draft == Some(if f.pr.is_draft { 1i64 } else { 0i64 })
    &&& row.mergeable == f.pr.mergeable
    &&& row.merge_state_status == f.pr.merge_state_status
    &&& row.author_is_viewer == Some(if f.pr.is_viewer_author { 1i64 } else { 0i64 })
    &&& row.last_seen_at == Some(now)
    &&& row.last_opened_at == last_opened_at
}

/// `ui` is the pull request `pr` as scored at `now` against the cached row
/// `old`, with the novelty flags and `last_opened_at` given.
pub open spec fn ui_matches(
    ui: &UiPr,
    pr: &Pr,
    now: i64,
    new_review: bool,
    new_failure: bool,
    last_opened_at: Option<i64>,
) -> bool {
    &&& same_pr(&ui.pr, pr)
    &&& ui.is_new_review_request == new_review
    &&& ui.is_new_ci_failure == new_failure
    &&& ui.score as int == score(pr, new_failure, now)
    &&& ui.category == category_of(pr, score(pr, new_failure, now))
    &&& ui.display_status@ == status_line(pr, now, new_failure, new_review)
    &&& ui.last_opened_at == last_opened_at
}

/// `scored` and `rows` hold, item by item, the fetched pull requests
/// `items` as scored at `now` against the cache contents `m`, and the rows
/// to store for them.
pub open spec fn is_scoring_of(
    scored: Seq<UiPr>,
    rows: Seq<DbPrRow>,
    items: Seq<FetchedPr>,
    m: Map<Seq<char>, DbPrRow>,
    now: i64,
) -> bool {
    &&& scored.len() == items.len()
    &&& rows.len() == items.len()
    &&& forall|i: int|
        #![trigger scored[i]]
        #![trigger rows[i]]
        0 <= i < items.len() ==> {
            let old = lookup(m, items[i].pr.pr_key@);
            let opened = carried_opened_at(old);
            &&& ui_matches(
                &scored[i],
                &items[i].pr,
                now,
                new_review_request(&items[i].pr, old),
                new_ci_failure(&items[i].pr, old),
                opened,
            )
            &&& row_matches(&rows[i], &items[i], now, opened)
        }
}

/// `a` ranks at or before `b`: by score, higher first, then by time of
/// update, later first.
pub open spec fn ranks_before(a: &UiPr, b: &UiPr) -> bool {
    a.score > b.score || (a.score == b.score && a.pr.updated_at_unix >= b.pr.updated_at_unix)
}

/// Every item ranks at or before those that follow it.
pub open spec fn ranked(s: Seq<UiPr>) -> bool {
    forall|i: int, j: int| 0 <= i < j < s.len() ==> ranks_before(&s[i], &s[j])
}

/// Sorts by score, higher first, and among equal scores by time of update,
/// later first.
pub fn sort_ranked(v: Vec<UiPr>) -> (out: Vec<UiPr>)
    ensures
        ranked(out@),
        out@.to_multiset() == v@.to_multiset(),
{
    broadcast use {
        vstd::seq_lib::group_to_multiset_ensures,
        vstd::seq_lib::to_multiset_insert,
        vstd::multiset::group_multiset_axioms,
    };

    let mut rest = v;
    let mut out: Vec<UiPr> = Vec::new();
    assert(out@.to_multiset().add(rest@.to_multiset()) =~= v@.to_multiset());
    while rest.len() > 0
        invariant
            ranked(out@),
            out@.to_multiset().add(rest@.to_multiset()) == v@.to_multiset(),
        decreases rest.len(),
    {
        let ghost before = rest@;
        let x = rest.pop().unwrap();
        proof {
            assert(before =~= rest@.push(x));
            vstd::seq_lib::to_multiset_build(rest@, x);
        }
        let mut j: usize = 0;
        while j < out.len() && (out[j].score > x.score || (out[j].score == x.score
            && out[j].pr.updated_at_unix > x.pr.updated_at_unix))
            invariant
                j <= out.len(),
                ranked(out@),
                forall|k: int| 0 <= k < j ==> ranks_before(&out@[k], &x),
            decreases out.len() - j,
        {
            j = j + 1;
        }
        let ghost prev = out@;
        out.insert(j, x);
        proof {
            assert(out@ == prev.insert(j as int, x));
            vstd::seq_lib::to_multiset_insert(prev, j as int, x);
            assert(out@.to_multiset() =~= prev.to_multiset().insert(x));
            assert(out@.to_multiset().add(rest@.to_multiset()) =~= v@.to_multiset());
            assert forall|a: int, b: int| 0 <= a < b < out@.len() implies ranks_before(
                &out@[a],
                &out@[b],
            ) by {
                if b < j {
                } else if b == j {
                } else if a < j {
                    assert(out@[b] == prev[b - 1]);
                } else if a == j {
                    assert(out@[b] == prev[b - 1]);
                    assert(ranks_before(&x, &prev[j as int]));
                    if b - 1 > j {
                        assert(ranks_before(&prev[j as int], &prev[b - 1]));
                    }
                } else {
                    assert(out@[a] == prev[a - 1]);
                    assert(out@[b] == prev[b - 1]);
                }
            }
        }
    }
    proof {
        assert(rest@.to_multiset() =~= vstd::multiset::Multiset::empty());
        assert(out@.to_multiset().add(rest@.to_multiset()) =~= out@.to_multiset());
    }
    out
}

/// The cache row of a fetched pull request seen at `now`.
pub fn row_for(f: &FetchedPr, now: i64, last_opened_at: Option<i64>) -> (row: DbPrRow)
    ensures
        row_matches(&row, f, now, last_opened_at),
{
    DbPrRow {
        pr_key: f.pr.pr_key.clone(),
        owner: f.pr.owner.clone(),
        repo: f.pr.repo.clone(),
        number: f.pr.number,
        title: f.pr.title.clone(),
        url: f.pr.url.clone(),
        author: Some(f.pr.author.clone()),
        updated_at_unix: Some(f.pr.updated_at_unix),
        last_commit_sha: clone_opt_string(&f.pr.last_commit_sha),
        last_ci_state: Some(ci_to_db(&f.pr.ci_state).to_string()),
        last_review_state: Some(review_to_db(&f.pr.review_state).to_string()),
        ci_checks_json: if f.pr.ci_checks.len() == 0 {
            None
        } else {
            clone_opt_string(&f.ci_checks_json)
        },
        is_draft: Some(draft_to_db(f.pr.is_draft)),
        mergeable: clone_opt_string(&f.pr.mergeable),
        merge_state_status: clone_opt_string(&f.pr.merge_state_status),
        author_is_viewer: Some(draft_to_db(f.pr.is_viewer_author)),
        last_seen_at: Some(now),
        last_opened_at,
    }
}

/// Scores one pull request at `now` with the novelty flags given.
pub fn score_one(
    pr: &Pr,
    old: Option<&DbPrRow>,
    now: i64,
    new_review: bool,
    new_failure: bool,
    last_opened_at: Option<i64>,
) -> (ui: UiPr)
    ensures
        ui_matches(&ui, pr, now, new_review, new_failure, last_opened_at),
{
    let score = score_pr(pr, old, now, new_failure);
    let category = categorize(pr, score);
    let display_status = status_text(pr, now, new_failure, new_review);
    UiPr {
        pr: clone_pr(pr),
        score,
        category,
        display_status,
        last_opened_at,
        is_new_review_request: new_review,
        is_new_ci_failure: new_failure,
    }
}

/// The contents of a table with contents `m` after each of `rows` was
/// written at `now`, first to last.
pub open spec fn upserted_all(m: Map<Seq<char>, DbPrRow>, rows: Seq<DbPrRow>, now: i64) -> Map<
    Seq<char>,
    DbPrRow,
>
    decreases rows.len(),
{
    if rows.len() == 0 {
        m
    } else {
        upserted(upserted_all(m, rows.drop_last(), now), rows.last(), now)
    }
}

/// What a cycle over `fetched` at `now` hands out and leaves in a cache that
/// held `before`: the pull requests in the attention window, each scored
/// against its row in `before` and ranked; one row for each of them, all
/// written to the cache; and a cache pruned to their keys.
pub open spec fn cycle_result(
    out: &RefreshOutcome,
    before: Map<Seq<char>, DbPrRow>,
    after: Map<Seq<char>, DbPrRow>,
    fetched: Seq<FetchedPr>,
    now: i64,
    cutoff_days: i64,
    scope: &ScopeFilters,
) -> bool {
    let items = kept(fetched, cutoff_ts(now, cutoff_days), scope);
    &&& ranked(out.prs@)
    &&& exists|scored: Seq<UiPr>|
        #[trigger] is_scoring_of(scored, out.rows@, items, before, now)
            && out.prs@.to_multiset() == scored.to_multiset()
    &&& out.keep_keys@.len() == items.len()
    &&& forall|i: int| 0 <= i < items.len() ==> (#[trigger] out.keep_keys@[i]) == items[i].pr.pr_key
    &&& after == upserted_all(before, out.rows@, now).restrict(string_set(out.keep_keys@))
}

/// One cycle over what was fetched: reconcile with the cache, detect what
/// is new, score, write every scored pull request to the cache, prune the
/// cache to the keys of this cycle, and rank.
pub fn run_cycle(
    table: &mut CacheTable,
    fetched: &Vec<FetchedPr>,
    now: i64,
    cutoff_days: i64,
    scope: &ScopeFilters,
) -> (out: RefreshOutcome)
    ensures
        cycle_result(&out, old(table)@, final(table)@, fetched@, now, cutoff_days, scope),
{
    let cutoff = cutoff_for(now, cutoff_days);
    let mut scored: Vec<UiPr> = Vec::new();
    let mut rows: Vec<DbPrRow> = Vec::new();
    let mut keys: Vec<String> = Vec::new();
    let mut i: usize = 0;
    while i < fetched.len()
        invariant
            i <= fetched.len(),
            cutoff == cutoff_ts(now, cutoff_days),
            *table == *old(table),
            is_scoring_of(scored@, rows@, kept(fetched@.take(i as int), cutoff, scope), table@, now),
            keys@.len() == scored@.len(),
            forall|j: int|
                0 <= j < keys@.len() ==> (#[trigger] keys@[j]) == kept(
                    fetched@.take(i as int),
                    cutoff,
                    scope,
                )[j].pr.pr_key,
        decreases fetched.len() - i,
    {
        let ghost prev = kept(fetched@.take(i as int), cutoff, scope);
        proof {
            assert(fetched@.take(i + 1).drop_last() =~= fetched@.take(i as int));
        }
        let f = &fetched[i];
        if f.pr.updated_at_unix >= cutoff && scope.matches(&f.pr) {
            let old_row = table.get(f.pr.pr_key.as_str());
            let new_review = is_new_review_request(&f.pr, old_row);
            let new_failure = is_new_ci_failure(&f.pr, old_row);
            let last_opened_at = match old_row {
                Some(r) => r.last_opened_at,
                None => None,
            };
            let row = row_for(f, now, last_opened_at);
            let ui = score_one(&f.pr, old_row, now, new_review, new_failure, last_opened_at);
            scored.push(ui);
            rows.push(row);
            keys.push(f.pr.pr_key.clone());
            proof {
                let next = kept(fetched@.take(i + 1), cutoff, scope);
                assert(next == prev.push(*f));
                assert(row_value(old_row) == lookup(table@, f.pr.pr_key@));
            }
        }
        i = i + 1;
    }
    proof {
        assert(fetched@.take(fetched.len() as int) =~= fetched@);
    }
    let ghost items = kept(fetched@, cutoff, scope);
    let ghost witness = scored@;
    let mut j: usize = 0;
    while j < rows.len()
        invariant
            j <= rows.len(),
            table@ == upserted_all(old(table)@, rows@.take(j as int), now),
        decreases rows.len() - j,
    {
        proof {
            assert(rows@.take(j + 1).drop_last() =~= rows@.take(j as int));
        }
        upsert_pr(table, &rows[j], now);
        j = j + 1;
    }
    proof {
        assert(rows@.take(rows.len() as int) =~= rows@);
    }
    delete_prs_not_in(table, &keys);
    let prs = sort_ranked(scored);
    let out = RefreshOutcome { prs, rows, keep_keys: keys };
    proof {
        assert(is_scoring_of(witness, out.rows@, items, old(table)@, now));
    }
    out
}

/// A refresh cycle over what the remote returned.
pub fn refresh(
    table: &mut CacheTable,
    fetched: &Vec<FetchedPr>,
    now: i64,
    cutoff_days: i64,
    scope: &ScopeFilters,
) -> (out: RefreshOutcome)
    ensures
        cycle_result(&out, old(table)@, final(table)@, fetched@, now, cutoff_days, scope),
{
    run_cycle(table, fetched, now, cutoff_days, scope)
}

/// A refresh cycle over synthetic pull requests: the same pipeline.
pub fn refresh_demo(
    table: &mut CacheTable,
    fetched: &Vec<FetchedPr>,
    now: i64,
    cutoff_days: i64,
    scope: &ScopeFilters,
) -> (out: RefreshOutcome)
    ensures
        cycle_result(&out, old(table)@, final(table)@, fetched@, now, cutoff_days, scope),
{
    run_cycle(table, fetched, now, cutoff_days, scope)
}

/// After a cycle the cache holds a row exactly for the keys of the pull
/// requests that the cycle kept: a key that the cache held before and that
/// this cycle did not return is gone.
pub proof fn lemma_cycle_prunes(
    out: &RefreshOutcome,
    before: Map<Seq<char>, DbPrRow>,
    after: Map<Seq<char>, DbPrRow>,
    fetched: Seq<FetchedPr>,
    now: i64,
    cutoff_days: i64,
    scope: &ScopeFilters,
    key: Seq<char>,
)
    requires
        cycle_result(out, before, after, fetched, now, cutoff_days, scope),
    ensures
        after.contains_key(key) <==> exists|i: int|
            0 <= i < kept(fetched, cutoff_ts(now, cutoff_days), scope).len() && (#[trigger] kept(
                fetched,
                cutoff_ts(now, cutoff_days),
                scope,
            )[i]).pr.pr_key@ == key,
{
    let items = kept(fetched, cutoff_ts(now, cutoff_days), scope);
    let scored = choose|scored: Seq<UiPr>|
        #[trigger] is_scoring_of(scored, out.rows@, items, before, now)
            && out.prs@.to_multiset() == scored.to_multiset();
    lemma_upserted_all_keys(before, out.rows@, now);
    if after.contains_key(key) {
        let i = choose|i: int| 0 <= i < out.keep_keys@.len() && (#[trigger] out.keep_keys@[i])@ == key;
        assert(items[i].pr.pr_key@ == key);
    }
    if exists|i: int| 0 <= i < items.len() && (#[trigger] items[i]).pr.pr_key@ == key {
        let i = choose|i: int| 0 <= i < items.len() && (#[trigger] items[i]).pr.pr_key@ == key;
        assert(out.keep_keys@[i]@ == key);
        assert(out.rows@[i].pr_key@ == key);
    }
}

/// Writing rows adds their keys to those already held.
pub proof fn lemma_upserted_all_keys(m: Map<Seq<char>, DbPrRow>, rows: Seq<DbPrRow>, now: i64)
    ensures
        forall|k: Seq<char>|
            #[trigger] upserted_all(m, rows, now).contains_key(k) <==> (m.contains_key(k) || exists|i: int|
                0 <= i < rows.len() && (#[trigger] rows[i]).pr_key@ == k),
    decreases rows.len(),
{
    if rows.len() > 0 {
        let rest = rows.drop_last();
        lemma_upserted_all_keys(m, rest, now);
        let prev = upserted_all(m, rest, now);
        let last = rows.last();
        assert(upserted_all(m, rows, now) == prev.insert(last.pr_key@, stored_row(prev, last, now)));
        assert forall|k: Seq<char>|
            #[trigger] upserted_all(m, rows, now).contains_key(k) <==> (m.contains_key(k) || exists|i: int|
                0 <= i < rows.len() && (#[trigger] rows[i]).pr_key@ == k) by {
            let in_rows = exists|i: int| 0 <= i < rows.len() && (#[trigger] rows[i]).pr_key@ == k;
            let in_rest = exists|i: int| 0 <= i < rest.len() && (#[trigger] rest[i]).pr_key@ == k;
            assert(upserted_all(m, rows, now).contains_key(k) <==> (k == last.pr_key@
                || prev.contains_key(k)));
            assert(prev.contains_key(k) <==> (m.contains_key(k) || in_rest));
            if in_rest {
                let i = choose|i: int| 0 <= i < rest.len() && (#[trigger] rest[i]).pr_key@ == k;
                assert(rows[i] == rest[i]);
                assert(in_rows);
            }
            if k == last.pr_key@ {
                assert(rows[rows.len() - 1].pr_key@ == k);
                assert(in_rows);
            }
            if in_rows {
                let i = choose|i: int| 0 <= i < rows.len() && (#[trigger] rows[i]).pr_key@ == k;
                if i < rest.len() {
                    assert(rest[i] == rows[i]);
                    assert(in_rest);
                } else {
                    assert(k == last.pr_key@);
                }
            }
        }
    }
}

/// A cached row with its checks decoded.
pub struct CachedPr {
    pub row: DbPrRow,
    /// The checks that `row.ci_checks_json` stands for; none where it is
    /// missing or cannot be decoded.
    pub ci_checks: Option<Vec<CiCheck>>,
}

/// The checks of a cached row: those decoded, none where the stored text
/// is missing or malformed.
pub open spec fn cached_checks(c: &CachedPr) -> Seq<CiCheck> {
    match c.ci_checks {
        Some(v) => v@,
        None => Seq::empty(),
    }
}

/// The time of the last update that a cached row stands for: the one it
/// recorded, else the time it was last seen, else `now`.
pub open spec fn cached_updated_at(row: &DbPrRow, now: i64) -> i64 {
    match row.updated_at_unix {
        Some(t) => t,
        None => match row.last_seen_at {
            Some(t) => t,
            None => now,
        },
    }
}

/// A cached row is shown at startup when it was updated at or after the
/// cutoff and its repository is in scope.
pub open spec fn cached_in_window(c: &CachedPr, now: i64, cutoff: i64, scope: &ScopeFilters) -> bool {
    cached_updated_at(&c.row, now) >= cutoff && scope.admits(c.row.owner@, c.row.repo@)
}

/// Those of `cached` that are shown at startup, in their order.
pub open spec fn cached_kept(cached: Seq<CachedPr>, now: i64, cutoff: i64, scope: &ScopeFilters) -> Seq<
    CachedPr,
>
    decreases cached.len(),
{
    if cached.len() == 0 {
        Seq::empty()
    } else if cached_in_window(&cached.last(), now, cutoff, scope) {
        cached_kept(cached.drop_last(), now, cutoff, scope).push(cached.last())
    } else {
        cached_kept(cached.drop_last(), now, cutoff, scope)
    }
}

/// `pr` is the pull request that the cached row of `c` stands for at `now`.
pub open spec fn pr_matches_cached(pr: &Pr, c: &CachedPr, now: i64) -> bool {
    &&& pr.pr_key == c.row.pr_key
    &&& pr.owner == c.row.owner
    &&& pr.repo == c.row.repo
    &&& pr.number == c.row.number
    &&& pr.author@ == (match c.row.author {
        Some(a) => a@,
        None => "unknown"@,
    })
    &&& pr.title == c.row.title
    &&& pr.url == c.row.url
    &&& pr.updated_at_unix == cached_updated_at(&c.row, now)
    &&& pr.last_commit_sha == c.row.last_commit_sha
    &&& pr.ci_state == ci_state_of(c.row.last_ci_state)
    &&& pr.ci_checks@ == cached_checks(c)
    &&& pr.review_state == review_state_of(c.row.last_review_state)
    &&& pr.is_draft == (c.row.is_draft.is_some() && c.row.is_draft.unwrap() != 0)
    &&& pr.mergeable == c.row.mergeable
    &&& pr.merge_state_status == c.row.merge_state_status
    &&& pr.is_viewer_author == (c.row.author_is_viewer.is_some() && c.row.author_is_viewer.unwrap()
        != 0)
    &&& pr.merge_blockers.is_none()
}

/// The pull request that a cached row stands for at `now`.
pub fn pr_from_cached(c: &CachedPr, now: i64) -> (pr: Pr)
    ensures
        pr_matches_cached(&pr, c, now),
{
    let updated_at_unix = match c.row.updated_at_unix {
        Some(t) => t,
        None => match c.row.last_seen_at {
            Some(t) => t,
            None => now,
        },
    };
    Pr {
        pr_key: c.row.pr_key.clone(),
        owner: c.row.owner.clone(),
        repo: c.row.repo.clone(),
        number: c.row.number,
        author: match &c.row.author {
            Some(a) => a.clone(),
            None => "unknown".to_string(),
        },
        title: c.row.title.clone(),
        url: c.row.url.clone(),
        updated_at_unix,
        last_commit_sha: clone_opt_string(&c.row.last_commit_sha),
        ci_state: parse_ci_state(&c.row.last_ci_state),
        ci_checks: match &c.ci_checks {
            Some(v) => clone_checks(v),
            None => Vec::new(),
        },
        review_state: parse_review_state(&c.row.last_review_state),
        is_draft: match c.row.is_draft {
            Some(v) => v != 0,
            None => false,
        },
        mergeable: clone_opt_string(&c.row.mergeable),
        merge_state_status: clone_opt_string(&c.row.merge_state_status),
        is_viewer_author: match c.row.author_is_viewer {
            Some(v) => v != 0,
            None => false,
        },
        merge_blockers: None,
    }
}

/// `scored` holds, item by item, the cached rows `items` as pull requests
/// scored at `now`, with nothing new about them and each with the
/// `last_opened_at` of its row.
pub open spec fn is_cached_scoring_of(scored: Seq<UiPr>, items: Seq<CachedPr>, now: i64) -> bool {
    &&& scored.len() == items.len()
    &&& forall|i: int|
        0 <= i < items.len() ==> {
            &&& pr_matches_cached(&(#[trigger] scored[i]).pr, &items[i], now)
            &&& ui_matches(&scored[i], &scored[i].pr, now, false, false, items[i].row.last_opened_at)
        }
}

/// The cached pull requests to show at startup, without the network: those
/// in the window and in scope, scored at `now` with nothing counted as new,
/// and ranked.
pub fn load_cached(cached: &Vec<CachedPr>, now: i64, cutoff_days: i64, scope: &ScopeFilters) -> (out:
    Vec<UiPr>)
    ensures
        ranked(out@),
        exists|scored: Seq<UiPr>|
            #[trigger] is_cached_scoring_of(
                scored,
                cached_kept(cached@, now, cutoff_ts(now, cutoff_days), scope),
                now,
            ) && out@.to_multiset() == scored.to_multiset(),
{
    let cutoff = cutoff_for(now, cutoff_days);
    let mut scored: Vec<UiPr> = Vec::new();
    let mut i: usize = 0;
    while i < cached.len()
        invariant
            i <= cached.len(),
            cutoff == cutoff_ts(now, cutoff_days),
            is_cached_scoring_of(scored@, cached_kept(cached@.take(i as int), now, cutoff, scope), now),
        decreases cached.len() - i,
    {
        let ghost prev = cached_kept(cached@.take(i as int), now, cutoff, scope);
        proof {
            assert(cached@.take(i + 1).drop_last() =~= cached@.take(i as int));
        }
        let c = &cached[i];
        let pr = pr_from_cached(c, now);
        if pr.updated_at_unix >= cutoff && scope.matches(&pr) {
            let ui = score_one(&pr, None, now, false, false, c.row.last_opened_at);
            scored.push(ui);
            proof {
                assert(cached_kept(cached@.take(i + 1), now, cutoff, scope) == prev.push(*c));
            }
        }
        i = i + 1;
    }
    proof {
        assert(cached@.take(cached.len() as int) =~= cached@);
    }
    let ghost witness = scored@;
    let out = sort_ranked(scored);
    proof {
        assert(is_cached_scoring_of(
            witness,
            cached_kept(cached@, now, cutoff_ts(now, cutoff_days), scope),
            now,
        ));
    }
    out
}

/// Rows that carry forward what the cache recorded of a key leave that
/// record as it was: after they are written, the row under the key is one
/// of them where any has that key, else the row held before; and its
/// `last_opened_at` is the one held before, none where no row was held.
pub proof fn lemma_upserted_all_row(
    m: Map<Seq<char>, DbPrRow>,
    rows: Seq<DbPrRow>,
    now: i64,
    key: Seq<char>,
)
    requires
        forall|i: int|
            0 <= i < rows.len() && (#[trigger] rows[i]).pr_key@ == key ==> rows[i].last_opened_at
                == carried_opened_at(lookup(m, key)) && rows[i].last_seen_at == Some(now),
    ensures
        upserted_all(m, rows, now).contains_key(key) ==> upserted_all(
            m,
            rows,
            now,
        )[key].last_opened_at == carried_opened_at(lookup(m, key)),
        (exists|i: int| 0 <= i < rows.len() && (#[trigger] rows[i]).pr_key@ == key) ==> upserted_all(
            m,
            rows,
            now,
        ).contains_key(key) && exists|j: int|
            0 <= j < rows.len() && (#[trigger] rows[j]).pr_key@ == key && upserted_all(
                m,
                rows,
                now,
            )[key] == rows[j],
        !(exists|i: int| 0 <= i < rows.len() && (#[trigger] rows[i]).pr_key@ == key) ==> upserted_all(
            m,
            rows,
            now,
        ).contains_key(key) == m.contains_key(key) && (m.contains_key(key) ==> upserted_all(
            m,
            rows,
            now,
        )[key] == m[key]),
    decreases rows.len(),
{
    if rows.len() > 0 {
        let rest = rows.drop_last();
        let last = rows.last();
        assert forall|i: int| 0 <= i < rest.len() && (#[trigger] rest[i]).pr_key@ == key implies rest[i].last_opened_at
            == carried_opened_at(lookup(m, key)) && rest[i].last_seen_at == Some(now) by {
            assert(rows[i] == rest[i]);
        }
        lemma_upserted_all_row(m, rest, now, key);
        let prev = upserted_all(m, rest, now);
        assert(upserted_all(m, rows, now) == prev.insert(last.pr_key@, stored_row(prev, last, now)));
        if last.pr_key@ == key {
            assert(rows[rows.len() - 1].pr_key@ == key);
            assert(stored_row(prev, last, now) == last);
        } else {
            if exists|i: int| 0 <= i < rows.len() && (#[trigger] rows[i]).pr_key@ == key {
                let i = choose|i: int| 0 <= i < rows.len() && (#[trigger] rows[i]).pr_key@ == key;
                assert(rest[i].pr_key@ == key);
                let j = choose|j: int|
                    0 <= j < rest.len() && (#[trigger] rest[j]).pr_key@ == key && prev[key]
                        == rest[j];
                assert(rows[j].pr_key@ == key && upserted_all(m, rows, now)[key] == rows[j]);
            } else {
                assert forall|i: int| 0 <= i < rest.len() implies (#[trigger] rest[i]).pr_key@
                    != key by {
                    assert(rows[i] == rest[i]);
                }
            }
        }
    }
}

/// A cycle never sets `last_opened_at` itself. Each pull request that it
/// hands out has the `last_opened_at` that the cache held for its key
/// before, none where the cache held no row; and afterwards the cache holds
/// under that key one of the rows of this cycle, with that same
/// `last_opened_at` and with `last_seen_at` at the time of the cycle.
pub proof fn lemma_cycle_keeps_opened_at(
    out: &RefreshOutcome,
    before: Map<Seq<char>, DbPrRow>,
    after: Map<Seq<char>, DbPrRow>,
    fetched: Seq<FetchedPr>,
    now: i64,
    cutoff_days: i64,
    scope: &ScopeFilters,
    i: int,
)
    requires
        cycle_result(out, before, after, fetched, now, cutoff_days, scope),
        0 <= i < out.prs@.len(),
    ensures
        out.prs@[i].last_opened_at == carried_opened_at(lookup(before, out.prs@[i].pr.pr_key@)),
        !before.contains_key(out.prs@[i].pr.pr_key@) ==> out.prs@[i].last_opened_at.is_none(),
        after.contains_key(out.prs@[i].pr.pr_key@),
        after[out.prs@[i].pr.pr_key@].last_opened_at == out.prs@[i].last_opened_at,
        after[out.prs@[i].pr.pr_key@].last_seen_at == Some(now),
        exists|j: int|
            0 <= j < out.rows@.len() && (#[trigger] out.rows@[j]).pr_key@ == out.prs@[i].pr.pr_key@
                && after[out.prs@[i].pr.pr_key@] == out.rows@[j],
{
    broadcast use {
        vstd::seq_lib::group_to_multiset_ensures,
        vstd::multiset::group_multiset_axioms,
    };

    let items = kept(fetched, cutoff_ts(now, cutoff_days), scope);
    let scored = choose|scored: Seq<UiPr>|
        #[trigger] is_scoring_of(scored, out.rows@, items, before, now) && out.prs@.to_multiset()
            == scored.to_multiset();
    let u = out.prs@[i];
    let key = u.pr.pr_key@;
    assert(out.prs@.contains(u));
    assert(scored.to_multiset().count(u) > 0);
    assert(scored.contains(u));
    let j = choose|j: int| 0 <= j < scored.len() && scored[j] == u;
    assert(items[j].pr.pr_key@ == key);
    assert(out.rows@[j].pr_key@ == key);
    assert(out.keep_keys@[j]@ == key);
    assert forall|k: int|
        0 <= k < out.rows@.len() && (#[trigger] out.rows@[k]).pr_key@ == key implies out.rows@[k].last_opened_at
            == carried_opened_at(lookup(before, key)) && out.rows@[k].last_seen_at == Some(now) by {
        assert(items[k].pr.pr_key@ == key);
    }
    lemma_upserted_all_row(before, out.rows@, now, key);
}

} // verus!
