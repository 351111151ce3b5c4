//! What the remote returns, as plain values, and how it maps to pull
//! requests.

use vstd::prelude::*;
use vstd::string::*;
use crate::demo::{pr_key_of, pr_key_string};
use crate::model::{CiCheck, CiCheckState, CiState, Pr, ReviewState};
use crate::text::{
    clone_opt_string, lemma_lex_total, lemma_lex_transitive, opt_is, str_eq, str_le, text_le,
};
use crate::timeutil::{
    date_text, days_before_year, parse_github_datetime_to_unix, timestamp_value, unix_to_ymd,
    ymd_string,
};

verus! {

/// Someone a review is requested from.
pub struct RequestedReviewer {
    /// `User` or `Team`.
    pub typename: Option<String>,
    /// The login, where it is a user.
    pub login: Option<String>,
}

/// One entry of a commit's status rollup: a check run or a status context.
pub struct StatusContextNode {
    /// `CheckRun` or `StatusContext`.
    pub typename: Option<String>,
    pub name: Option<String>,
    pub conclusion: Option<String>,
    pub details_url: Option<String>,
    pub started_at: Option<String>,
    pub context: Option<String>,
    pub state: Option<String>,
    pub target_url: Option<String>,
}

/// The status rollup of a pull request's head commit.
pub struct StatusCheckRollup {
    pub state: Option<String>,
    pub contexts: Vec<StatusContextNode>,
}

/// The repository of a pull request.
pub struct Repository {
    pub name: String,
    pub owner: String,
}

/// A pull request as the remote returns it.
pub struct PullRequestNode {
    pub number: i64,
    pub title: String,
    pub url: String,
    pub updated_at: String,
    pub repository: Repository,
    pub author: Option<String>,
    pub review_requests: Vec<Option<RequestedReviewer>>,
    pub head_ref_oid: Option<String>,
    pub review_decision: Option<String>,
    pub rollup: Option<StatusCheckRollup>,
}

/// A search result, which need not be a pull request.
pub struct SearchNode {
    pub typename: Option<String>,
    pub number: Option<i64>,
    pub title: Option<String>,
    pub url: Option<String>,
    pub updated_at: Option<String>,
    pub repository: Option<Repository>,
    pub author: Option<String>,
    pub review_requests: Vec<Option<RequestedReviewer>>,
    pub head_ref_oid: Option<String>,
    pub review_decision: Option<String>,
    pub rollup: Option<StatusCheckRollup>,
}

impl SearchNode {
    /// A search result is a pull request when it says so and names its
    /// number, title, address, time of update and repository.
    pub open spec fn is_pull_request(&self) -> bool {
        &&& self.typename.is_some() && self.typename.unwrap()@ == "PullRequest"@
        &&& self.number.is_some()
        &&& self.title.is_some()
        &&& self.url.is_some()
        &&& self.updated_at.is_some()
        &&& self.repository.is_some()
    }

    pub fn into_pull_request(self) -> (r: Option<PullRequestNode>)
        ensures
            r.is_some() == self.is_pull_request(),
            r.is_some() ==> r.unwrap() == (PullRequestNode {
                number: self.number.unwrap(),
                title: self.title.unwrap(),
                url: self.url.unwrap(),
                updated_at: self.updated_at.unwrap(),
                repository: self.repository.unwrap(),
                author: self.author,
                review_requests: self.review_requests,
                head_ref_oid: self.head_ref_oid,
                review_decision: self.review_decision,
                rollup: self.rollup,
            }),
    {
        if !opt_is(&self.typename, "PullRequest") {
            return None;
        }
        match (self.number, self.title, self.url, self.updated_at, self.repository) {
            (Some(number), Some(title), Some(url), Some(updated_at), Some(repository)) => Some(
                PullRequestNode {
                    number,
                    title,
                    url,
                    updated_at,
                    repository,
                    author: self.author,
                    review_requests: self.review_requests,
                    head_ref_oid: self.head_ref_oid,
                    review_decision: self.review_decision,
                    rollup: self.rollup,
                },
            ),
            _ => None,
        }
    }
}

/// The CI state that a rollup state stands for.
pub open spec fn rollup_ci_state(state: Option<String>) -> CiState {
    match state {
        Some(s) => if s@ == "SUCCESS"@ {
            CiState::Success
        } else if s@ == "FAILURE"@ || s@ == "ERROR"@ {
            CiState::Failure
        } else if s@ == "PENDING"@ || s@ == "EXPECTED"@ {
            CiState::Running
        } else {
            CiState::Absent
        },
        None => CiState::Absent,
    }
}

/// The aggregate CI state of a pull request: that of its rollup, none
/// where it has no rollup.
pub fn map_ci_state(node: &PullRequestNode) -> (r: CiState)
    ensures
        r == (match node.rollup {
            Some(rollup) => rollup_ci_state(rollup.state),
            None => CiState::Absent,
        }),
{
    match &node.rollup {
        Some(rollup) => {
            let s = &rollup.state;
            if opt_is(s, "SUCCESS") {
                CiState::Success
            } else if opt_is(s, "FAILURE") || opt_is(s, "ERROR") {
                CiState::Failure
            } else if opt_is(s, "PENDING") || opt_is(s, "EXPECTED") {
                CiState::Running
            } else {
                CiState::Absent
            }
        },
        None => CiState::Absent,
    }
}

/// The state of a check run by its conclusion: a run without a conclusion
/// is still running.
pub open spec fn check_run_state(conclusion: Option<String>) -> CiCheckState {
    match conclusion {
        None => CiCheckState::Running,
        Some(c) => if c@ == "SUCCESS"@ {
            CiCheckState::Success
        } else if c@ == "FAILURE"@ || c@ == "ERROR"@ || c@ == "TIMED_OUT"@ || c@
            == "STARTUP_FAILURE"@ {
            CiCheckState::Failure
        } else if c@ == "NEUTRAL"@ || c@ == "SKIPPED"@ || c@ == "STALE"@ || c@ == "CANCELLED"@
            || c@ == "ACTION_REQUIRED"@ {
            CiCheckState::Neutral
        } else {
            CiCheckState::Absent
        },
    }
}

/// The state of a status context.
pub open spec fn status_context_state(state: Option<String>) -> CiCheckState {
    match state {
        Some(s) => if s@ == "SUCCESS"@ {
            CiCheckState::Success
        } else if s@ == "FAILURE"@ || s@ == "ERROR"@ {
            CiCheckState::Failure
        } else if s@ == "PENDING"@ || s@ == "EXPECTED"@ {
            CiCheckState::Running
        } else {
            CiCheckState::Absent
        },
        None => CiCheckState::Absent,
    }
}

/// Which kind of entry of the rollup a node is.
pub open spec fn is_check_run(n: &StatusContextNode) -> bool {
    n.typename.is_some() && n.typename.unwrap()@ == "CheckRun"@
}

/// Which kind of entry of the rollup a node is.
pub open spec fn is_status_context(n: &StatusContextNode) -> bool {
    n.typename.is_some() && n.typename.unwrap()@ == "StatusContext"@
}

/// The time at which a check run started, where it says so readably.
pub open spec fn started_at_of(n: &StatusContextNode) -> Option<i64> {
    match n.started_at {
        Some(s) => match timestamp_value(s@) {
            Some(t) => Some(t as i64),
            None => None,
        },
        None => None,
    }
}

/// `check` is the check that the rollup entry `n` stands for.
pub open spec fn check_matches(check: &CiCheck, n: &StatusContextNode) -> bool {
    if is_check_run(n) {
        &&& check.name@ == (match n.name {
            Some(name) => name@,
            None => "check"@,
        })
        &&& check.state == check_run_state(n.conclusion)
        &&& check.url == n.details_url
        &&& check.started_at_unix == started_at_of(n)
    } else {
        &&& is_status_context(n)
        &&& check.name@ == (match n.context {
            Some(name) => name@,
            None => "status"@,
        })
        &&& check.state == status_context_state(n.state)
        &&& check.url == n.target_url
        &&& check.started_at_unix.is_none()
    }
}

/// The check that a rollup entry stands for; none for an entry that is
/// neither a check run nor a status context.
pub fn map_check(n: &StatusContextNode) -> (r: Option<CiCheck>)
    ensures
        r.is_some() == (is_check_run(n) || is_status_context(n)),
        r.is_some() ==> check_matches(&r.unwrap(), n),
{
    if opt_is(&n.typename, "CheckRun") {
        let name = match &n.name {
            Some(s) => s.clone(),
            None => "check".to_string(),
        };
        let c = &n.conclusion;
        let state = if c.is_none() {
            CiCheckState::Running
        } else if opt_is(c, "SUCCESS") {
            CiCheckState::Success
        } else if opt_is(c, "FAILURE") || opt_is(c, "ERROR") || opt_is(c, "TIMED_OUT") || opt_is(
            c,
            "STARTUP_FAILURE",
        ) {
            CiCheckState::Failure
        } else if opt_is(c, "NEUTRAL") || opt_is(c, "SKIPPED") || opt_is(c, "STALE") || opt_is(
            c,
            "CANCELLED",
        ) || opt_is(c, "ACTION_REQUIRED") {
            CiCheckState::Neutral
        } else {
            CiCheckState::Absent
        };
        let started_at_unix = match &n.started_at {
            Some(s) => parse_github_datetime_to_unix(s.as_str()),
            None => None,
        };
        Some(CiCheck { name, state, url: clone_opt_string(&n.details_url), started_at_unix })
    } else if opt_is(&n.typename, "StatusContext") {
        let name = match &n.context {
            Some(s) => s.clone(),
            None => "status".to_string(),
        };
        let s = &n.state;
        let state = if opt_is(s, "SUCCESS") {
            CiCheckState::Success
        } else if opt_is(s, "FAILURE") || opt_is(s, "ERROR") {
            CiCheckState::Failure
        } else if opt_is(s, "PENDING") || opt_is(s, "EXPECTED") {
            CiCheckState::Running
        } else {
            CiCheckState::Absent
        };
        Some(CiCheck { name, state, url: clone_opt_string(&n.target_url), started_at_unix: None })
    } else {
        None
    }
}

/// Where a check of a state stands in the list: failed first, then
/// running, passed, neutral, unknown.
pub open spec fn state_rank(s: CiCheckState) -> int {
    match s {
        CiCheckState::Failure => 0,
        CiCheckState::Running => 1,
        CiCheckState::Success => 2,
        CiCheckState::Neutral => 3,
        CiCheckState::Absent => 4,
    }
}

fn rank_of(s: CiCheckState) -> (r: u8)
    ensures
        r == state_rank(s),
{
    match s {
        CiCheckState::Failure => 0,
        CiCheckState::Running => 1,
        CiCheckState::Success => 2,
        CiCheckState::Neutral => 3,
        CiCheckState::Absent => 4,
    }
}

/// `a` is listed at or before `b`: by state, then by name.
pub open spec fn listed_before(a: &CiCheck, b: &CiCheck) -> bool {
    state_rank(a.state) < state_rank(b.state) || (state_rank(a.state) == state_rank(b.state)
        && text_le(a.name@, b.name@))
}

/// Every check is listed at or before those that follow it.
pub open spec fn checks_ordered(s: Seq<CiCheck>) -> bool {
    forall|i: int, j: int| 0 <= i < j < s.len() ==> listed_before(&s[i], &s[j])
}

/// Orders checks by state, then by name.
pub fn sort_checks(v: Vec<CiCheck>) -> (out: Vec<CiCheck>)
    ensures
        checks_ordered(out@),
        out@.to_multiset() == v@.to_multiset(),
{
    broadcast use {
        vstd::seq_lib::group_to_multiset_ensures,
        vstd::seq_lib::to_multiset_insert,
        vstd::multiset::group_multiset_axioms,
    };

    let mut rest = v;
    let mut out: Vec<CiCheck> = Vec::new();
    assert(out@.to_multiset().add(rest@.to_multiset()) =~= v@.to_multiset());
    while rest.len() > 0
        invariant
            checks_ordered(out@),
            out@.to_multiset().add(rest@.to_multiset()) == v@.to_multiset(),
        decreases rest.len(),
    {
        let ghost before = rest@;
        let x = rest.pop().unwrap();
        proof {
            assert(before =~= rest@.push(x));
            vstd::seq_lib::to_multiset_build(rest@, x);
        }
        let rx = rank_of(x.state);
        let mut j: usize = 0;
        while j < out.len() && (rank_of(out[j].state) < rx || (rank_of(out[j].state) == rx && !str_le(
            x.name.as_str(),
            out[j].name.as_str(),
        )))
            invariant
                j <= out.len(),
                rx == state_rank(x.state),
                checks_ordered(out@),
                forall|k: int| 0 <= k < j ==> listed_before(&out@[k], &x),
            decreases out.len() - j,
        {
            proof {
                lemma_lex_total(
                    vstd::utf8::encode_utf8(x.name@),
                    vstd::utf8::encode_utf8(out@[j as int].name@),
                );
            }
            j = j + 1;
        }
        let ghost prev = out@;
        out.insert(j, x);
        proof {
            assert(out@ == prev.insert(j as int, x));
            vstd::seq_lib::to_multiset_insert(prev, j as int, x);
            assert(out@.to_multiset() =~= prev.to_multiset().insert(x));
            assert(out@.to_multiset().add(rest@.to_multiset()) =~= v@.to_multiset());
            assert forall|a: int, b: int| 0 <= a < b < out@.len() implies listed_before(
                &out@[a],
                &out@[b],
            ) by {
                if b < j {
                } else if b == j {
                } else if a < j {
                    assert(out@[b] == prev[b - 1]);
                } else if a == j {
                    assert(out@[b] == prev[b - 1]);
                    assert(listed_before(&x, &prev[j as int]));
                    if b - 1 > j {
                        assert(listed_before(&prev[j as int], &prev[b - 1]));
                        if state_rank(x.state) == state_rank(prev[j as int].state) && state_rank(
                            x.state,
                        ) == state_rank(prev[b - 1].state) {
                            lemma_lex_transitive(
                                vstd::utf8::encode_utf8(x.name@),
                                vstd::utf8::encode_utf8(prev[j as int].name@),
                                vstd::utf8::encode_utf8(prev[b - 1].name@),
                            );
                        }
                    }
                } else {
                    assert(out@[a] == prev[a - 1]);
                    assert(out@[b] == prev[b - 1]);
                }
            }
        }
    }
    proof {
        assert(rest@.to_multiset() =~= vstd::multiset::Multiset::empty());
        assert(out@.to_multiset().add(rest@.to_multiset()) =~= out@.to_multiset());
    }
    out
}

/// Those of the rollup's entries that stand for a check.
pub open spec fn check_nodes(nodes: Seq<StatusContextNode>) -> Seq<StatusContextNode>
    decreases nodes.len(),
{
    if nodes.len() == 0 {
        Seq::empty()
    } else if is_check_run(&nodes.last()) || is_status_context(&nodes.last()) {
        check_nodes(nodes.drop_last()).push(nodes.last())
    } else {
        check_nodes(nodes.drop_last())
    }
}

/// `checks` holds, item by item, the checks that `nodes` stand for.
pub open spec fn is_mapping_of(checks: Seq<CiCheck>, nodes: Seq<StatusContextNode>) -> bool {
    &&& checks.len() == nodes.len()
    &&& forall|i: int| 0 <= i < nodes.len() ==> check_matches(&#[trigger] checks[i], &nodes[i])
}

/// The entries of a pull request's rollup.
pub open spec fn contexts_of(node: &PullRequestNode) -> Seq<StatusContextNode> {
    match node.rollup {
        Some(rollup) => rollup.contexts@,
        None => Seq::empty(),
    }
}

/// The checks of a pull request: one for each check run and status context
/// of its rollup, failed first, then running, passed, neutral and unknown,
/// and by name within each.
pub fn map_ci_checks(node: &PullRequestNode) -> (out: Vec<CiCheck>)
    ensures
        checks_ordered(out@),
        exists|mapped: Seq<CiCheck>|
            #[trigger] is_mapping_of(mapped, check_nodes(contexts_of(node))) && out@.to_multiset()
                == mapped.to_multiset(),
{
    let mut mapped: Vec<CiCheck> = Vec::new();
    match &node.rollup {
        Some(rollup) => {
            let mut i: usize = 0;
            while i < rollup.contexts.len()
                invariant
                    i <= rollup.contexts.len(),
                    is_mapping_of(mapped@, check_nodes(rollup.contexts@.take(i as int))),
                decreases rollup.contexts.len() - i,
            {
                proof {
                    assert(rollup.contexts@.take(i + 1).drop_last() =~= rollup.contexts@.take(
                        i as int,
                    ));
                }
                match map_check(&rollup.contexts[i]) {
                    Some(c) => mapped.push(c),
                    None => {},
                }
                i = i + 1;
            }
            proof {
                assert(rollup.contexts@.take(rollup.contexts.len() as int) =~= rollup.contexts@);
            }
        },
        None => {},
    }
    let ghost witness = mapped@;
    let out = sort_checks(mapped);
    proof {
        assert(is_mapping_of(witness, check_nodes(contexts_of(node))));
    }
    out
}

/// A requested review takes precedence over an approval.
pub fn map_review_state(node: &PullRequestNode, is_requested: bool) -> (r: ReviewState)
    ensures
        r == (if is_requested {
            ReviewState::Requested
        } else if node.review_decision.is_some() && node.review_decision.unwrap()@ == "APPROVED"@ {
            ReviewState::Approved
        } else {
            ReviewState::Absent
        }),
{
    if is_requested {
        ReviewState::Requested
    } else if opt_is(&node.review_decision, "APPROVED") {
        ReviewState::Approved
    } else {
        ReviewState::Absent
    }
}

/// The request names the user `login` in person.
pub open spec fn names_user(r: Option<RequestedReviewer>, login: Seq<char>) -> bool {
    match r {
        Some(who) => who.typename.is_some() && who.typename.unwrap()@ == "User"@
            && who.login.is_some() && who.login.unwrap()@ == login,
        None => false,
    }
}

/// One of the requests names the user `login` in person.
pub open spec fn asks_user(requests: Seq<Option<RequestedReviewer>>, login: Seq<char>) -> bool {
    exists|i: int| 0 <= i < requests.len() && names_user(#[trigger] requests[i], login)
}

/// Whether a review of the pull request is requested from the user
/// `viewer_login` in person, not through a team.
pub fn is_review_requested_by_user(node: &PullRequestNode, viewer_login: &str) -> (r: bool)
    ensures
        r == asks_user(node.review_requests@, viewer_login@),
{
    let mut i: usize = 0;
    while i < node.review_requests.len()
        invariant
            i <= node.review_requests.len(),
            forall|k: int| 0 <= k < i ==> !names_user(#[trigger] node.review_requests@[k], viewer_login@),
        decreases node.review_requests.len() - i,
    {
        match &node.review_requests[i] {
            Some(who) => {
                if opt_is(&who.typename, "User") && opt_is(&who.login, viewer_login) {
                    return true;
                }
            },
            None => {},
        }
        i = i + 1;
    }
    false
}

/// `pr` is the pull request that `node` stands for.
pub open spec fn pr_matches_node(pr: &Pr, node: &PullRequestNode, is_requested: bool, is_viewer_author: bool) -> bool {
    &&& pr.pr_key@ == pr_key_of(node.repository.owner@, node.repository.name@, node.number)
    &&& pr.owner == node.repository.owner
    &&& pr.repo == node.repository.name
    &&& pr.number == node.number
    &&& pr.author@ == (match node.author {
        Some(a) => a@,
        None => "unknown"@,
    })
    &&& pr.title == node.title
    &&& pr.url == node.url
    &&& timestamp_value(node.updated_at@) == Some(pr.updated_at_unix as int)
    &&& pr.last_commit_sha == node.head_ref_oid
    &&& pr.ci_state == (match node.rollup {
        Some(rollup) => rollup_ci_state(rollup.state),
        None => CiState::Absent,
    })
    &&& checks_ordered(pr.ci_checks@)
    &&& exists|mapped: Seq<CiCheck>|
        #[trigger] is_mapping_of(mapped, check_nodes(contexts_of(node)))
            && pr.ci_checks@.to_multiset() == mapped.to_multiset()
    &&& pr.review_state == (if is_requested {
        ReviewState::Requested
    } else if node.review_decision.is_some() && node.review_decision.unwrap()@ == "APPROVED"@ {
        ReviewState::Approved
    } else {
        ReviewState::Absent
    })
    &&& !pr.is_draft
    &&& pr.mergeable.is_none()
    &&& pr.merge_state_status.is_none()
    &&& pr.is_viewer_author == is_viewer_author
    &&& pr.merge_blockers.is_none()
}

/// The pull request that `node` stands for; none where its time of update
/// cannot be read.
pub fn to_pr(node: &PullRequestNode, is_requested: bool, is_viewer_author: bool) -> (r: Option<Pr>)
    ensures
        r.is_some() == timestamp_value(node.updated_at@).is_some(),
        r.is_some() ==> pr_matches_node(&r.unwrap(), node, is_requested, is_viewer_author),
{
    let updated_at_unix = match parse_github_datetime_to_unix(node.updated_at.as_str()) {
        Some(t) => t,
        None => {
            return None;
        },
    };
    let ci_state = map_ci_state(node);
    let ci_checks = map_ci_checks(node);
    let review_state = map_review_state(node, is_requested);
    let author = match &node.author {
        Some(a) => a.clone(),
        None => "unknown".to_string(),
    };
    let pr_key = pr_key_string(
        node.repository.owner.as_str(),
        node.repository.name.as_str(),
        node.number,
    );
    Some(
        Pr {
            pr_key,
            owner: node.repository.owner.clone(),
            repo: node.repository.name.clone(),
            number: node.number,
            author,
            title: node.title.clone(),
            url: node.url.clone(),
            updated_at_unix,
            last_commit_sha: clone_opt_string(&node.head_ref_oid),
            ci_state,
            ci_checks,
            review_state,
            is_draft: false,
            mergeable: None,
            merge_state_status: None,
            is_viewer_author,
            merge_blockers: None,
        },
    )
}

/// The date from which the search looks, for a cutoff time: the date of
/// the cutoff, or the first day of 1970 where the cutoff has no date.
pub open spec fn cutoff_date_ok(ts: i64) -> bool {
    0 <= ts && ts / 86400 < days_before_year(10000)
}

/// The search for open pull requests whose review is requested from the
/// viewer, latest update first, updated on or after the date of `cutoff_ts`.
pub fn search_query(cutoff_ts: i64) -> (r: String)
    ensures
        !cutoff_date_ok(cutoff_ts) ==> r@
            == "is:pr is:open review-requested:@me sort:updated-desc updated:>="@ + "1970-01-01"@,
        cutoff_date_ok(cutoff_ts) ==> exists|y: i64, m: i64, d: i64|
            crate::timeutil::valid_date(y as int, m as int, d as int) && crate::timeutil::unix_days(
                y as int,
                m as int,
                d as int,
            ) == cutoff_ts / 86400 && r@
                == "is:pr is:open review-requested:@me sort:updated-desc updated:>="@ + #[trigger] date_text(
                y,
                m,
                d,
            ),
{
    let mut out = "is:pr is:open review-requested:@me sort:updated-desc updated:>=".to_string();
    match unix_to_ymd(cutoff_ts) {
        Some((y, m, d)) => {
            out.append(ymd_string(y, m, d).as_str());
        },
        None => {
            out.append("1970-01-01");
        },
    }
    out
}

/// The pull request was updated before the cutoff.
pub open spec fn is_older(updated_at: Seq<char>, cutoff_ts: i64) -> bool {
    timestamp_value(updated_at).is_some() && timestamp_value(updated_at).unwrap() < cutoff_ts
}

/// The pull request was updated at or after the cutoff.
pub open spec fn is_recent(updated_at: Seq<char>, cutoff_ts: i64) -> bool {
    timestamp_value(updated_at).is_some() && timestamp_value(updated_at).unwrap() >= cutoff_ts
}

/// Those of a page of the viewer's own pull requests that were updated at
/// or after the cutoff, in their order.
pub open spec fn recent_authored(nodes: Seq<PullRequestNode>, cutoff_ts: i64) -> Seq<PullRequestNode>
    decreases nodes.len(),
{
    if nodes.len() == 0 {
        Seq::empty()
    } else if is_recent(nodes.last().updated_at@, cutoff_ts) {
        recent_authored(nodes.drop_last(), cutoff_ts).push(nodes.last())
    } else {
        recent_authored(nodes.drop_last(), cutoff_ts)
    }
}

/// The page holds a pull request that was updated before the cutoff.
pub open spec fn crosses_cutoff(updated: Seq<Seq<char>>, cutoff_ts: i64) -> bool {
    exists|i: int| 0 <= i < updated.len() && is_older(#[trigger] updated[i], cutoff_ts)
}

/// The times of update of a page.
pub open spec fn updates_of(nodes: Seq<PullRequestNode>) -> Seq<Seq<char>> {
    Seq::new(nodes.len(), |i: int| nodes[i].updated_at@)
}

/// What a page of results adds.
pub struct SiftedPage {
    /// The pull requests to keep.
    pub keep: Vec<PullRequestNode>,
    /// The page reaches behind the cutoff: no further page is needed.
    pub crossed: bool,
}

/// Sifts a page of the viewer's own pull requests, which come latest
/// update first: those updated at or after the cutoff are kept, and a page
/// that reaches behind the cutoff is the last one to ask for.
pub fn sift_authored(nodes: Vec<PullRequestNode>, cutoff_ts: i64) -> (page: SiftedPage)
    ensures
        page.keep@ == recent_authored(nodes@, cutoff_ts),
        page.crossed == crosses_cutoff(updates_of(nodes@), cutoff_ts),
{
    let mut rest = nodes;
    let mut keep: Vec<PullRequestNode> = Vec::new();
    let mut crossed = false;
    let ghost mut done: int = 0;
    assert(nodes@.take(0) =~= Seq::empty());
    while rest.len() > 0
        invariant
            0 <= done <= nodes@.len(),
            rest@ == nodes@.skip(done),
            keep@ == recent_authored(nodes@.take(done), cutoff_ts),
            crossed == crosses_cutoff(updates_of(nodes@.take(done)), cutoff_ts),
        decreases rest.len(),
    {
        let n = rest.remove(0);
        proof {
            assert(n == nodes@[done]);
            assert(rest@ =~= nodes@.skip(done + 1));
            assert(nodes@.take(done + 1).drop_last() =~= nodes@.take(done));
            let before = updates_of(nodes@.take(done));
            let after = updates_of(nodes@.take(done + 1));
            assert(after =~= before.push(n.updated_at@));
            lemma_crosses_push(before, n.updated_at@, cutoff_ts);
            done = done + 1;
        }
        match parse_github_datetime_to_unix(n.updated_at.as_str()) {
            Some(u) => {
                if u >= cutoff_ts {
                    keep.push(n);
                } else {
                    crossed = true;
                }
            },
            None => {},
        }
    }
    proof {
        assert(nodes@.take(nodes@.len() as int) =~= nodes@);
    }
    SiftedPage { keep, crossed }
}

proof fn lemma_crosses_push(before: Seq<Seq<char>>, item: Seq<char>, cutoff_ts: i64)
    ensures
        crosses_cutoff(before.push(item), cutoff_ts) == (crosses_cutoff(before, cutoff_ts)
            || is_older(item, cutoff_ts)),
{
    let after = before.push(item);
    if crosses_cutoff(after, cutoff_ts) {
        let i = choose|i: int| 0 <= i < after.len() && is_older(#[trigger] after[i], cutoff_ts);
        if i < before.len() {
            assert(is_older(before[i], cutoff_ts));
        }
    }
    if crosses_cutoff(before, cutoff_ts) {
        let i = choose|i: int| 0 <= i < before.len() && is_older(#[trigger] before[i], cutoff_ts);
        assert(is_older(after[i], cutoff_ts));
    }
    if is_older(item, cutoff_ts) {
        assert(is_older(after[before.len() as int], cutoff_ts));
    }
}

/// Whether another page is to be asked for, and from where: only while the
/// pages have not reached behind the cutoff and the remote has more, from
/// the cursor it gave.
pub fn next_cursor(crossed: bool, has_next_page: bool, end_cursor: Option<String>) -> (r: Option<
    String,
>)
    ensures
        r == (if !crossed && has_next_page { end_cursor } else { None }),
{
    if crossed || !has_next_page {
        None
    } else {
        end_cursor
    }
}

/// The position in `prs` of the pull request with key `key`.
pub open spec fn position_of(prs: Seq<Pr>, key: Seq<char>) -> Option<int>
    decreases prs.len(),
{
    if prs.len() == 0 {
        None
    } else {
        let before = position_of(prs.drop_last(), key);
        if before.is_some() {
            before
        } else if prs.last().pr_key@ == key {
            Some(prs.len() - 1)
        } else {
            None
        }
    }
}

/// `list` with each pull request once: a later one takes the place of an
/// earlier one with the same key.
pub open spec fn merged(list: Seq<Pr>) -> Seq<Pr>
    decreases list.len(),
{
    if list.len() == 0 {
        Seq::empty()
    } else {
        let rest = merged(list.drop_last());
        match position_of(rest, list.last().pr_key@) {
            Some(i) => rest.update(i, list.last()),
            None => rest.push(list.last()),
        }
    }
}

proof fn lemma_position_prefix(prs: Seq<Pr>, key: Seq<char>, n: int)
    requires
        0 <= n <= prs.len(),
        position_of(prs.take(n), key).is_some(),
    ensures
        position_of(prs, key) == position_of(prs.take(n), key),
        0 <= position_of(prs, key).unwrap() < n,
    decreases prs.len() - n,
{
    if n < prs.len() {
        assert(prs.take(n + 1).drop_last() =~= prs.take(n));
        lemma_position_prefix(prs, key, n + 1);
    } else {
        assert(prs.take(n) =~= prs);
    }
    lemma_position_range(prs.take(n), key);
}

proof fn lemma_position_range(prs: Seq<Pr>, key: Seq<char>)
    ensures
        position_of(prs, key).is_some() ==> 0 <= position_of(prs, key).unwrap() < prs.len(),
    decreases prs.len(),
{
    if prs.len() > 0 {
        lemma_position_range(prs.drop_last(), key);
    }
}

fn find_key(prs: &Vec<Pr>, key: &str) -> (r: Option<usize>)
    ensures
        r.is_some() == position_of(prs@, key@).is_some(),
        r.is_some() ==> r.unwrap() as int == position_of(prs@, key@).unwrap() && r.unwrap()
            < prs@.len(),
{
    let mut i: usize = 0;
    while i < prs.len()
        invariant
            i <= prs.len(),
            position_of(prs@.take(i as int), key@).is_none(),
        decreases prs.len() - i,
    {
        proof {
            assert(prs@.take(i + 1).drop_last() =~= prs@.take(i as int));
        }
        if str_eq(prs[i].pr_key.as_str(), key) {
            proof {
                lemma_position_prefix(prs@, key@, i + 1);
            }
            return Some(i);
        }
        i = i + 1;
    }
    proof {
        assert(prs@.take(prs.len() as int) =~= prs@);
    }
    None
}

/// Merges the viewer's own pull requests with those whose review is
/// requested from the viewer: each pull request once, the requested form
/// in place of the authored one.
pub fn merge_prs(authored: Vec<Pr>, requested: Vec<Pr>) -> (out: Vec<Pr>)
    ensures
        out@ == merged(authored@ + requested@),
{
    let ghost all = authored@ + requested@;
    let mut rest = authored;
    let mut tail = requested;
    rest.append(&mut tail);
    let mut out: Vec<Pr> = Vec::new();
    let ghost mut done: int = 0;
    assert(all.take(0) =~= Seq::empty());
    while rest.len() > 0
        invariant
            0 <= done <= all.len(),
            rest@ == all.skip(done),
            out@ == merged(all.take(done)),
        decreases rest.len(),
    {
        let pr = rest.remove(0);
        proof {
            assert(pr == all[done]);
            assert(rest@ =~= all.skip(done + 1));
            assert(all.take(done + 1).drop_last() =~= all.take(done));
            done = done + 1;
        }
        match find_key(&out, pr.pr_key.as_str()) {
            Some(i) => {
                out.set(i, pr);
            },
            None => {
                out.push(pr);
            },
        }
    }
    proof {
        assert(all.take(all.len() as int) =~= all);
    }
    out
}

/// The pull request that a search result is, where it is one.
pub open spec fn as_pull_request(n: SearchNode) -> PullRequestNode {
    PullRequestNode {
        number: n.number.unwrap(),
        title: n.title.unwrap(),
        url: n.url.unwrap(),
        updated_at: n.updated_at.unwrap(),
        repository: n.repository.unwrap(),
        author: n.author,
        review_requests: n.review_requests,
        head_ref_oid: n.head_ref_oid,
        review_decision: n.review_decision,
        rollup: n.rollup,
    }
}

/// A search result is kept when it is a pull request, was not updated
/// before the cutoff, and asks the viewer in person; one that asks a team
/// only where team requests are wanted.
pub open spec fn wanted(n: SearchNode, cutoff_ts: i64, include_team_requests: bool, viewer: Seq<char>) -> bool {
    &&& n.is_pull_request()
    &&& !is_older(n.updated_at.unwrap()@, cutoff_ts)
    &&& include_team_requests || asks_user(n.review_requests@, viewer)
}

/// Those of a page of search results that are kept, in their order.
pub open spec fn recent_requested(
    nodes: Seq<SearchNode>,
    cutoff_ts: i64,
    include_team_requests: bool,
    viewer: Seq<char>,
) -> Seq<PullRequestNode>
    decreases nodes.len(),
{
    if nodes.len() == 0 {
        Seq::empty()
    } else {
        let rest = recent_requested(nodes.drop_last(), cutoff_ts, include_team_requests, viewer);
        if wanted(nodes.last(), cutoff_ts, include_team_requests, viewer) {
            rest.push(as_pull_request(nodes.last()))
        } else {
            rest
        }
    }
}

/// The page holds a pull request that was updated before the cutoff.
pub open spec fn search_crosses_cutoff(nodes: Seq<SearchNode>, cutoff_ts: i64) -> bool {
    exists|i: int|
        0 <= i < nodes.len() && (#[trigger] nodes[i]).is_pull_request() && is_older(
            nodes[i].updated_at.unwrap()@,
            cutoff_ts,
        )
}

proof fn lemma_search_crosses_push(before: Seq<SearchNode>, item: SearchNode, cutoff_ts: i64)
    ensures
        search_crosses_cutoff(before.push(item), cutoff_ts) == (search_crosses_cutoff(
            before,
            cutoff_ts,
        ) || (item.is_pull_request() && is_older(item.updated_at.unwrap()@, cutoff_ts))),
{
    let after = before.push(item);
    if search_crosses_cutoff(after, cutoff_ts) {
        let i = choose|i: int|
            0 <= i < after.len() && (#[trigger] after[i]).is_pull_request() && is_older(
                after[i].updated_at.unwrap()@,
                cutoff_ts,
            );
        if i < before.len() {
            assert(before[i].is_pull_request());
        }
    }
    if search_crosses_cutoff(before, cutoff_ts) {
        let i = choose|i: int|
            0 <= i < before.len() && (#[trigger] before[i]).is_pull_request() && is_older(
                before[i].updated_at.unwrap()@,
                cutoff_ts,
            );
        assert(after[i].is_pull_request());
    }
    if item.is_pull_request() && is_older(item.updated_at.unwrap()@, cutoff_ts) {
        assert(after[before.len() as int].is_pull_request());
    }
}

/// Sifts a page of search results, which come latest update first: see
/// `wanted` for what is kept; a page that reaches behind the cutoff is the
/// last one to ask for.
pub fn sift_requested(
    nodes: Vec<SearchNode>,
    cutoff_ts: i64,
    include_team_requests: bool,
    viewer_login: &str,
) -> (page: SiftedPage)
    ensures
        page.keep@ == recent_requested(nodes@, cutoff_ts, include_team_requests, viewer_login@),
        page.crossed == search_crosses_cutoff(nodes@, cutoff_ts),
{
    let mut rest = nodes;
    let mut keep: Vec<PullRequestNode> = Vec::new();
    let mut crossed = false;
    let ghost mut done: int = 0;
    assert(nodes@.take(0) =~= Seq::empty());
    while rest.len() > 0
        invariant
            0 <= done <= nodes@.len(),
            rest@ == nodes@.skip(done),
            keep@ == recent_requested(
                nodes@.take(done),
                cutoff_ts,
                include_team_requests,
                viewer_login@,
            ),
            crossed == search_crosses_cutoff(nodes@.take(done), cutoff_ts),
        decreases rest.len(),
    {
        let n = rest.remove(0);
        proof {
            assert(n == nodes@[done]);
            assert(rest@ =~= nodes@.skip(done + 1));
            assert(nodes@.take(done + 1).drop_last() =~= nodes@.take(done));
            assert(nodes@.take(done + 1) =~= nodes@.take(done).push(n));
            lemma_search_crosses_push(nodes@.take(done), n, cutoff_ts);
            done = done + 1;
        }
        match n.into_pull_request() {
            Some(pr) => {
                let older = match parse_github_datetime_to_unix(pr.updated_at.as_str()) {
                    Some(u) => u < cutoff_ts,
                    None => false,
                };
                if older {
                    crossed = true;
                } else if include_team_requests || is_review_requested_by_user(&pr, viewer_login) {
                    keep.push(pr);
                }
            },
            None => {},
        }
    }
    proof {
        assert(nodes@.take(nodes@.len() as int) =~= nodes@);
    }
    SiftedPage { keep, crossed }
}

/// Those of `nodes` whose time of update can be read, in their order.
pub open spec fn readable(nodes: Seq<PullRequestNode>) -> Seq<PullRequestNode>
    decreases nodes.len(),
{
    if nodes.len() == 0 {
        Seq::empty()
    } else if timestamp_value(nodes.last().updated_at@).is_some() {
        readable(nodes.drop_last()).push(nodes.last())
    } else {
        readable(nodes.drop_last())
    }
}

/// `pr` is the pull request that `node` stands for. Of the viewer's own
/// pull requests, a review counts as requested where it is asked of the
/// viewer in person. Of those found by the search for requested reviews it
/// always does, and such a pull request is the viewer's own where the
/// viewer is its author.
pub open spec fn pr_of_node(pr: &Pr, node: &PullRequestNode, viewer: Seq<char>, requested: bool) -> bool {
    if requested {
        pr_matches_node(pr, node, true, node.author.is_some() && node.author.unwrap()@ == viewer)
    } else {
        pr_matches_node(pr, node, asks_user(node.review_requests@, viewer), true)
    }
}

/// `list` holds, item by item, the pull requests that the readable ones of
/// `nodes` stand for.
pub open spec fn converted(
    list: Seq<Pr>,
    nodes: Seq<PullRequestNode>,
    viewer: Seq<char>,
    requested: bool,
) -> bool {
    &&& list.len() == readable(nodes).len()
    &&& forall|i: int|
        0 <= i < list.len() ==> pr_of_node(&#[trigger] list[i], &readable(nodes)[i], viewer, requested)
}

/// The pull requests that `nodes` stand for, leaving out those whose time
/// of update cannot be read. `requested` tells that the nodes were found by
/// the search for requested reviews.
pub fn convert_nodes(nodes: &Vec<PullRequestNode>, viewer_login: &str, requested: bool) -> (out: Vec<
    Pr,
>)
    ensures
        converted(out@, nodes@, viewer_login@, requested),
{
    let mut out: Vec<Pr> = Vec::new();
    let mut i: usize = 0;
    while i < nodes.len()
        invariant
            i <= nodes.len(),
            converted(out@, nodes@.take(i as int), viewer_login@, requested),
        decreases nodes.len() - i,
    {
        let ghost before = readable(nodes@.take(i as int));
        proof {
            assert(nodes@.take(i + 1).drop_last() =~= nodes@.take(i as int));
        }
        let n = &nodes[i];
        let pr = if requested {
            let own = opt_is(&n.author, viewer_login);
            to_pr(n, true, own)
        } else {
            let asked = is_review_requested_by_user(n, viewer_login);
            to_pr(n, asked, true)
        };
        match pr {
            Some(p) => {
                out.push(p);
                proof {
                    assert(readable(nodes@.take(i + 1)) == before.push(*n));
                }
            },
            None => {},
        }
        i = i + 1;
    }
    proof {
        assert(nodes@.take(nodes.len() as int) =~= nodes@);
    }
    out
}

/// Turns what was fetched into pull requests: the viewer's own and those
/// whose review is requested, each pull request once, the requested form in
/// place of the authored one.
pub fn collect_prs(
    authored: &Vec<PullRequestNode>,
    requested: &Vec<PullRequestNode>,
    viewer_login: &str,
) -> (out: Vec<Pr>)
    ensures
        exists|own: Seq<Pr>, asked: Seq<Pr>|
            #![trigger merged(own + asked)]
            converted(own, authored@, viewer_login@, false) && converted(
                asked,
                requested@,
                viewer_login@,
                true,
            ) && out@ == merged(own + asked),
{
    let own = convert_nodes(authored, viewer_login, false);
    let asked = convert_nodes(requested, viewer_login, true);
    let ghost own_view = own@;
    let ghost asked_view = asked@;
    let out = merge_prs(own, asked);
    proof {
        assert(out@ == merged(own_view + asked_view));
    }
    out
}

/// Where the position of a key is, there is a pull request with that key;
/// where there is none, no pull request has it.
pub proof fn lemma_position_of(prs: Seq<Pr>, key: Seq<char>)
    ensures
        position_of(prs, key).is_some() ==> 0 <= position_of(prs, key).unwrap() < prs.len()
            && prs[position_of(prs, key).unwrap()].pr_key@ == key,
        position_of(prs, key).is_none() ==> forall|i: int|
            0 <= i < prs.len() ==> (#[trigger] prs[i]).pr_key@ != key,
    decreases prs.len(),
{
    if prs.len() > 0 {
        lemma_position_of(prs.drop_last(), key);
        if position_of(prs, key).is_none() {
            assert forall|i: int| 0 <= i < prs.len() implies (#[trigger] prs[i]).pr_key@ != key by {
                if i < prs.len() - 1 {
                    assert(prs.drop_last()[i] == prs[i]);
                }
            }
        }
    }
}

/// What is merged holds each key once, and holds only pull requests of the
/// list that was merged.
pub proof fn lemma_merged(list: Seq<Pr>)
    ensures
        forall|a: int, b: int|
            0 <= a < b < merged(list).len() ==> (#[trigger] merged(list)[a]).pr_key@
                != (#[trigger] merged(list)[b]).pr_key@,
        forall|k: int| 0 <= k < merged(list).len() ==> list.contains(#[trigger] merged(list)[k]),
    decreases list.len(),
{
    if list.len() > 0 {
        let front = list.drop_last();
        let x = list.last();
        let rest = merged(front);
        lemma_merged(front);
        lemma_position_of(rest, x.pr_key@);
        let m = merged(list);
        assert(list[list.len() - 1] == x);
        assert forall|k: int| 0 <= k < m.len() implies list.contains(#[trigger] m[k]) by {
            if m[k] != x {
                assert(rest.contains(m[k])) by {
                    match position_of(rest, x.pr_key@) {
                        Some(i) => {
                            assert(k != i);
                            assert(rest[k] == m[k]);
                        },
                        None => {
                            assert(rest[k] == m[k]);
                        },
                    }
                }
                let q = choose|q: int| 0 <= q < rest.len() && rest[q] == m[k];
                assert(front.contains(rest[q]));
                let j = choose|j: int| 0 <= j < front.len() && front[j] == rest[q];
                assert(list[j] == m[k]);
            }
        }
        assert forall|a: int, b: int| 0 <= a < b < m.len() implies (#[trigger] m[a]).pr_key@
            != (#[trigger] m[b]).pr_key@ by {
            match position_of(rest, x.pr_key@) {
                Some(i) => {
                    assert(m[a].pr_key@ == rest[a].pr_key@);
                    assert(m[b].pr_key@ == rest[b].pr_key@);
                },
                None => {
                    if b < rest.len() {
                        assert(m[a] == rest[a] && m[b] == rest[b]);
                    } else {
                        assert(m[a] == rest[a]);
                    }
                },
            }
        }
    }
}

/// What a sifted page keeps was not updated before the cutoff.
pub proof fn lemma_sifted_are_recent(
    authored: Seq<PullRequestNode>,
    found: Seq<SearchNode>,
    cutoff_ts: i64,
    include_team_requests: bool,
    viewer: Seq<char>,
)
    ensures
        forall|i: int|
            0 <= i < recent_authored(authored, cutoff_ts).len() ==> !is_older(
                (#[trigger] recent_authored(authored, cutoff_ts)[i]).updated_at@,
                cutoff_ts,
            ),
        forall|i: int|
            0 <= i < recent_requested(found, cutoff_ts, include_team_requests, viewer).len()
                ==> !is_older(
                (#[trigger] recent_requested(
                    found,
                    cutoff_ts,
                    include_team_requests,
                    viewer,
                )[i]).updated_at@,
                cutoff_ts,
            ),
    decreases authored.len() + found.len(),
{
    if authored.len() > 0 {
        lemma_sifted_are_recent(authored.drop_last(), found, cutoff_ts, include_team_requests, viewer);
    } else if found.len() > 0 {
        lemma_sifted_are_recent(authored, found.drop_last(), cutoff_ts, include_team_requests, viewer);
    }
}

/// The readable nodes are nodes of the list.
proof fn lemma_readable(nodes: Seq<PullRequestNode>)
    ensures
        forall|i: int|
            0 <= i < readable(nodes).len() ==> nodes.contains(#[trigger] readable(nodes)[i])
                && timestamp_value(readable(nodes)[i].updated_at@).is_some(),
    decreases nodes.len(),
{
    if nodes.len() > 0 {
        let front = nodes.drop_last();
        lemma_readable(front);
        assert(nodes[nodes.len() - 1] == nodes.last());
        assert forall|i: int| 0 <= i < readable(nodes).len() implies nodes.contains(
            #[trigger] readable(nodes)[i],
        ) && timestamp_value(readable(nodes)[i].updated_at@).is_some() by {
            if i < readable(front).len() {
                let n = readable(front)[i];
                assert(front.contains(n));
                let j = choose|j: int| 0 <= j < front.len() && front[j] == n;
                assert(nodes[j] == n);
            }
        }
    }
}

/// The pull requests fetched have pairwise distinct keys, and where no
/// node was updated before the cutoff, none of them was.
pub proof fn lemma_fetched_distinct_and_recent(
    out: Seq<Pr>,
    own: Seq<Pr>,
    asked: Seq<Pr>,
    authored: Seq<PullRequestNode>,
    requested: Seq<PullRequestNode>,
    viewer: Seq<char>,
    cutoff_ts: i64,
)
    requires
        converted(own, authored, viewer, false),
        converted(asked, requested, viewer, true),
        out == merged(own + asked),
        forall|i: int| 0 <= i < authored.len() ==> !is_older((#[trigger] authored[i]).updated_at@, cutoff_ts),
        forall|i: int|
            0 <= i < requested.len() ==> !is_older((#[trigger] requested[i]).updated_at@, cutoff_ts),
    ensures
        forall|a: int, b: int|
            0 <= a < b < out.len() ==> (#[trigger] out[a]).pr_key@ != (#[trigger] out[b]).pr_key@,
        forall|k: int| 0 <= k < out.len() ==> (#[trigger] out[k]).updated_at_unix >= cutoff_ts,
{
    let list = own + asked;
    lemma_merged(list);
    lemma_readable(authored);
    lemma_readable(requested);
    assert forall|k: int| 0 <= k < out.len() implies (#[trigger] out[k]).updated_at_unix
        >= cutoff_ts by {
        assert(list.contains(out[k]));
        let j = choose|j: int| 0 <= j < list.len() && list[j] == out[k];
        if j < own.len() {
            assert(list[j] == own[j]);
            let n = readable(authored)[j];
            assert(pr_of_node(&own[j], &n, viewer, false));
            assert(authored.contains(n));
            let q = choose|q: int| 0 <= q < authored.len() && authored[q] == n;
            assert(!is_older(authored[q].updated_at@, cutoff_ts));
        } else {
            assert(list[j] == asked[j - own.len()]);
            let n = readable(requested)[j - own.len()];
            assert(pr_of_node(&asked[j - own.len()], &n, viewer, true));
            assert(requested.contains(n));
            let q = choose|q: int| 0 <= q < requested.len() && requested[q] == n;
            assert(!is_older(requested[q].updated_at@, cutoff_ts));
        }
    }
}

} // verus!
