//! The entities shared by every component: pull requests, their checks,
//! review and CI states, and merge blockers.

use vstd::prelude::*;
use vstd::string::*;
use crate::text::{clone_opt_string, clone_strings, decimal, join, joined, push_decimal};

verus! {

/// Aggregate CI state of a pull request.
#[derive(Debug, Clone, Copy, PartialEq, Eq, Structural)]
pub enum CiState {
    Success,
    Failure,
    Running,
    /// No CI is known for the pull request.
    Absent,
}

impl CiState {
    /// The name under which the state is stored in the cache.
    pub open spec fn name(self) -> Seq<char> {
        match self {
            CiState::Success => "success"@,
            CiState::Failure => "failure"@,
            CiState::Running => "running"@,
            CiState::Absent => "none"@,
        }
    }

    pub fn as_str(&self) -> (r: &'static str)
        ensures
            r@ == self.name(),
    {
        match self {
            CiState::Success => "success",
            CiState::Failure => "failure",
            CiState::Running => "running",
            CiState::Absent => "none",
        }
    }
}

/// Review state of a pull request as it pertains to the viewer.
#[derive(Debug, Clone, Copy, PartialEq, Eq, Structural)]
pub enum ReviewState {
    Requested,
    Approved,
    /// Neither requested from the viewer nor approved.
    Absent,
}

impl ReviewState {
    /// The name under which the state is stored in the cache.
    pub open spec fn name(self) -> Seq<char> {
        match self {
            ReviewState::Requested => "requested"@,
            ReviewState::Approved => "approved"@,
            ReviewState::Absent => "none"@,
        }
    }

    pub fn as_str(&self) -> (r: &'static str)
        ensures
            r@ == self.name(),
    {
        match self {
            ReviewState::Requested => "requested",
            ReviewState::Approved => "approved",
            ReviewState::Absent => "none",
        }
    }
}

/// State of one check run.
#[derive(Debug, Clone, Copy, PartialEq, Eq, Structural)]
pub enum CiCheckState {
    Success,
    Failure,
    Running,
    Neutral,
    /// The check reported no state that is known.
    Absent,
}

impl CiCheckState {
    pub fn is_failure(&self) -> (r: bool)
        ensures
            r == (*self == CiCheckState::Failure),
    {
        matches!(self, CiCheckState::Failure)
    }
}

/// One named check run.
#[derive(Debug, Clone)]
pub struct CiCheck {
    pub name: String,
    pub state: CiCheckState,
    pub url: Option<String>,
    pub started_at_unix: Option<i64>,
}

/// Why a pull request cannot be merged.
#[derive(Debug, Clone)]
pub struct MergeBlockers {
    /// The pull request conflicts with its base branch.
    pub has_conflicts: bool,
    /// Approving reviews that branch protection asks for, where known.
    pub required_approvals: Option<u32>,
    /// Approving reviews so far.
    pub current_approvals: u32,
    /// Status checks that branch protection asks for.
    pub required_checks: Vec<String>,
    /// Those of the required checks that fail or are missing.
    pub failing_required_checks: Vec<String>,
    /// The base branch is ahead of the pull request's branch.
    pub is_behind_base: bool,
}

impl MergeBlockers {
    /// Approvals are short of what is required.
    pub open spec fn approvals_short(&self) -> bool {
        match self.required_approvals {
            Some(r) => self.current_approvals < r,
            None => false,
        }
    }

    /// Nothing blocks the merge: no conflicts, not behind base, no failing
    /// required check, and enough approvals where a requirement is known.
    pub open spec fn clear(&self) -> bool {
        &&& !self.has_conflicts
        &&& !self.is_behind_base
        &&& self.failing_required_checks@.len() == 0
        &&& !self.approvals_short()
    }

    /// The line that reports missing approvals.
    pub open spec fn approvals_line(current: u32, required: u32) -> Seq<char> {
        "Approvals: "@ + decimal(current as int) + "/"@ + decimal(required as int) + " required"@
    }

    /// The line that lists the failing required checks.
    pub open spec fn checks_line(&self) -> Seq<char> {
        "Required checks failing: "@ + joined(self.failing_required_checks.deep_view(), ", "@)
    }

    /// One line per blocker, in the order conflicts, behind base, approvals,
    /// required checks.
    pub open spec fn descriptions(&self) -> Seq<Seq<char>> {
        (if self.has_conflicts { seq!["Merge conflicts"@] } else { Seq::empty() })
        + (if self.is_behind_base { seq!["Branch behind base"@] } else { Seq::empty() })
        + (if self.approvals_short() {
            seq![Self::approvals_line(self.current_approvals, self.required_approvals.unwrap())]
        } else {
            Seq::empty()
        })
        + (if self.failing_required_checks@.len() > 0 { seq![self.checks_line()] } else { Seq::empty() })
    }

    pub fn is_clear(&self) -> (r: bool)
        ensures
            r == self.clear(),
    {
        let enough = match self.required_approvals {
            Some(r) => self.current_approvals >= r,
            None => true,
        };
        !self.has_conflicts && !self.is_behind_base && self.failing_required_checks.len() == 0
            && enough
    }

    pub fn to_descriptions(&self) -> (out: Vec<String>)
        ensures
            out.deep_view() == self.descriptions(),
    {
        let mut out: Vec<String> = Vec::new();
        let ghost e = Seq::<Seq<char>>::empty();
        assert(out.deep_view() =~= e);
        if self.has_conflicts {
            out.push("Merge conflicts".to_string());
        }
        let ghost s1 = if self.has_conflicts { seq!["Merge conflicts"@] } else { e };
        assert(out.deep_view() =~= s1);
        if self.is_behind_base {
            out.push("Branch behind base".to_string());
        }
        let ghost s2 = s1 + (if self.is_behind_base { seq!["Branch behind base"@] } else { e });
        assert(out.deep_view() =~= s2);
        if let Some(required) = self.required_approvals {
            if self.current_approvals < required {
                let mut line = "Approvals: ".to_string();
                push_decimal(&mut line, self.current_approvals as i64);
                line.append("/");
                push_decimal(&mut line, required as i64);
                line.append(" required");
                out.push(line);
            }
        }
        let ghost s3 = s2 + (if self.approvals_short() {
            seq![Self::approvals_line(self.current_approvals, self.required_approvals.unwrap())]
        } else {
            e
        });
        assert(out.deep_view() =~= s3);
        if self.failing_required_checks.len() > 0 {
            let checks = join(&self.failing_required_checks, ", ");
            let mut line = "Required checks failing: ".to_string();
            line.append(checks.as_str());
            out.push(line);
        }
        assert(out.deep_view() =~= self.descriptions());
        out
    }
}

/// One pull request. `pr_key` is `"{owner}/{repo}#{number}"` and identifies
/// the pull request across refreshes.
#[derive(Debug, Clone)]
pub struct Pr {
    pub pr_key: String,
    pub owner: String,
    pub repo: String,
    pub number: i64,
    pub author: String,
    pub title: String,
    pub url: String,
    /// Modification time reported by the remote, unix seconds.
    pub updated_at_unix: i64,
    /// Head commit; a change resets the relevance of the CI state.
    pub last_commit_sha: Option<String>,
    pub ci_state: CiState,
    pub ci_checks: Vec<CiCheck>,
    pub review_state: ReviewState,
    pub is_draft: bool,
    /// Remote enum, such as `MERGEABLE`, `CONFLICTING`, `UNKNOWN`.
    pub mergeable: Option<String>,
    /// Remote enum, such as `CLEAN`, `BLOCKED`.
    pub merge_state_status: Option<String>,
    /// The signed-in user wrote this pull request.
    pub is_viewer_author: bool,
    pub merge_blockers: Option<MergeBlockers>,
}

/// A copy of a check.
pub fn clone_check(c: &CiCheck) -> (r: CiCheck)
    ensures
        r == *c,
{
    CiCheck {
        name: c.name.clone(),
        state: c.state,
        url: clone_opt_string(&c.url),
        started_at_unix: c.started_at_unix,
    }
}

/// A copy of a list of checks.
pub fn clone_checks(v: &Vec<CiCheck>) -> (r: Vec<CiCheck>)
    ensures
        r@ == v@,
{
    let mut out: Vec<CiCheck> = Vec::new();
    let mut i: usize = 0;
    while i < v.len()
        invariant
            i <= v.len(),
            out@ == v@.take(i as int),
        decreases v.len() - i,
    {
        out.push(clone_check(&v[i]));
        proof {
            assert(v@.take(i as int).push(v@[i as int]) =~= v@.take(i + 1));
        }
        i = i + 1;
    }
    proof {
        assert(v@.take(v.len() as int) =~= v@);
    }
    out
}

/// A copy of a set of merge blockers, equal to it in every field.
pub fn clone_blockers(b: &MergeBlockers) -> (r: MergeBlockers)
    ensures
        r.has_conflicts == b.has_conflicts,
        r.required_approvals == b.required_approvals,
        r.current_approvals == b.current_approvals,
        r.required_checks@ == b.required_checks@,
        r.failing_required_checks@ == b.failing_required_checks@,
        r.is_behind_base == b.is_behind_base,
        r.clear() == b.clear(),
{
    MergeBlockers {
        has_conflicts: b.has_conflicts,
        required_approvals: b.required_approvals,
        current_approvals: b.current_approvals,
        required_checks: clone_strings(&b.required_checks),
        failing_required_checks: clone_strings(&b.failing_required_checks),
        is_behind_base: b.is_behind_base,
    }
}

/// Two pull requests that agree in every field, lists compared item by item.
pub open spec fn same_pr(a: &Pr, b: &Pr) -> bool {
    &&& a.pr_key == b.pr_key
    &&& a.owner == b.owner
    &&& a.repo == b.repo
    &&& a.number == b.number
    &&& a.author == b.author
    &&& a.title == b.title
    &&& a.url == b.url
    &&& a.updated_at_unix == b.updated_at_unix
    &&& a.last_commit_sha == b.last_commit_sha
    &&& a.ci_state == b.ci_state
    &&& a.ci_checks@ == b.ci_checks@
    &&& a.review_state == b.review_state
    &&& a.is_draft == b.is_draft
    &&& a.mergeable == b.mergeable
    &&& a.merge_state_status == b.merge_state_status
    &&& a.is_viewer_author == b.is_viewer_author
    &&& a.merge_blockers.is_some() == b.merge_blockers.is_some()
    &&& a.merge_blockers.is_some() ==> {
        let x = a.merge_blockers.unwrap();
        let y = b.merge_blockers.unwrap();
        &&& x.has_conflicts == y.has_conflicts
        &&& x.required_approvals == y.required_approvals
        &&& x.current_approvals == y.current_approvals
        &&& x.required_checks@ == y.required_checks@
        &&& x.failing_required_checks@ == y.failing_required_checks@
        &&& x.is_behind_base == y.is_behind_base
    }
}

/// A copy of a pull request.
pub fn clone_pr(pr: &Pr) -> (r: Pr)
    ensures
        same_pr(&r, pr),
{
    Pr {
        pr_key: pr.pr_key.clone(),
        owner: pr.owner.clone(),
        repo: pr.repo.clone(),
        number: pr.number,
        author: pr.author.clone(),
        title: pr.title.clone(),
        url: pr.url.clone(),
        updated_at_unix: pr.updated_at_unix,
        last_commit_sha: clone_opt_string(&pr.last_commit_sha),
        ci_state: pr.ci_state,
        ci_checks: clone_checks(&pr.ci_checks),
        review_state: pr.review_state,
        is_draft: pr.is_draft,
        mergeable: clone_opt_string(&pr.mergeable),
        merge_state_status: clone_opt_string(&pr.merge_state_status),
        is_viewer_author: pr.is_viewer_author,
        merge_blockers: match &pr.merge_blockers {
            Some(b) => Some(clone_blockers(b)),
            None => None,
        },
    }
}

} // verus!
