//! The desktop notifications for important events: what each says. Sending
//! them is left to the caller.

use vstd::prelude::*;
use vstd::string::*;
use vstd::utf8::*;
use crate::text::{decimal_nat, push_decimal_nat};

verus! {

/// One notification to send.
pub struct Notice {
    pub title: String,
    /// The repository concerned, where there is one.
    pub subtitle: Option<String>,
    pub body: String,
    /// The address to open when the notification is clicked.
    pub url: Option<String>,
}

/// The model of a notification.
pub struct NoticeView {
    pub title: Seq<char>,
    pub subtitle: Option<Seq<char>>,
    pub body: Seq<char>,
    pub url: Option<Seq<char>>,
}

impl View for Notice {
    type V = NoticeView;

    open spec fn view(&self) -> NoticeView {
        NoticeView {
            title: self.title@,
            subtitle: match self.subtitle {
                Some(s) => Some(s@),
                None => None,
            },
            body: self.body@,
            url: match self.url {
                Some(u) => Some(u@),
                None => None,
            },
        }
    }
}

/// Most bytes of a pull request's title shown in a notification.
pub const TITLE_MAX_LEN: usize = 50;

/// The largest character boundary of `bytes` that is at most `limit`.
pub open spec fn cut_point(bytes: Seq<u8>, limit: int) -> int
    decreases limit,
{
    if limit <= 0 {
        0
    } else if is_char_boundary(bytes, limit) {
        limit
    } else {
        cut_point(bytes, limit - 1)
    }
}

/// `s` cut to at most `max_len` bytes: left as it is where it fits, else
/// cut at the last character boundary before `max_len`, with an ellipsis
/// in place of what was cut.
pub open spec fn truncated(s: Seq<char>, max_len: usize) -> Seq<char> {
    let bytes = encode_utf8(s);
    if bytes.len() <= max_len {
        s
    } else {
        decode_utf8(bytes.subrange(0, cut_point(bytes, max_len - 1))) + "…"@
    }
}

pub fn truncate(s: &str, max_len: usize) -> (r: String)
    ensures
        r@ == truncated(s@, max_len),
{
    broadcast use {is_char_boundary_start_end_of_seq, encode_utf8_valid_utf8, encode_utf8_decode_utf8};

    if s.as_bytes().len() <= max_len {
        return s.to_string();
    }
    let mut cut: usize = if max_len == 0 {
        0
    } else {
        max_len - 1
    };
    while cut > 0 && !s.is_char_boundary(cut)
        invariant
            cut < s.spec_bytes().len(),
            cut_point(s.spec_bytes(), cut as int) == cut_point(s.spec_bytes(), max_len - 1),
        decreases cut,
    {
        cut = cut - 1;
    }
    assert(is_char_boundary(s.spec_bytes(), cut as int));
    let (head, _) = s.split_at(cut);
    let mut out = head.to_string();
    proof {
        assert(head@ == decode_utf8(encode_utf8(head@)));
    }
    out.append("…");
    out
}

/// A notification about a pull request: the repository as subtitle, the
/// title cut to size as body, and the address to open.
pub open spec fn pr_notice(heading: Seq<char>, pr_title: Seq<char>, repo: Seq<char>, url: Seq<char>) -> NoticeView {
    NoticeView {
        title: heading,
        subtitle: Some(repo),
        body: truncated(pr_title, TITLE_MAX_LEN),
        url: Some(url),
    }
}

fn with_url(heading: &str, pr_title: &str, repo: &str, url: &str) -> (r: Notice)
    ensures
        r@ == pr_notice(heading@, pr_title@, repo@, url@),
{
    Notice {
        title: heading.to_string(),
        subtitle: Some(repo.to_string()),
        body: truncate(pr_title, TITLE_MAX_LEN),
        url: Some(url.to_string()),
    }
}

/// The notification for a new CI failure.
pub fn notify_ci_failure(pr_title: &str, repo: &str, url: &str) -> (r: Notice)
    ensures
        r@ == pr_notice("❌ CI Failed"@, pr_title@, repo@, url@),
{
    with_url("❌ CI Failed", pr_title, repo, url)
}

/// The notification for a new review request.
pub fn notify_review_requested(pr_title: &str, repo: &str, url: &str) -> (r: Notice)
    ensures
        r@ == pr_notice("👀 Review Requested"@, pr_title@, repo@, url@),
{
    with_url("👀 Review Requested", pr_title, repo, url)
}

/// The notification for a repository that appears in the list for the
/// first time.
pub fn notify_new_repo(repo_name: &str) -> (r: Notice)
    ensures
        r@ == (NoticeView {
            title: "📁 New Repository"@,
            subtitle: None,
            body: "PRs from "@ + repo_name@ + " now visible"@,
            url: None,
        }),
{
    let mut body = "PRs from ".to_string();
    body.append(repo_name);
    body.append(" now visible");
    Notice { title: "📁 New Repository".to_string(), subtitle: None, body, url: None }
}

/// What the summary says of `count` pull requests that need the viewer.
pub open spec fn needs_you_text(count: usize) -> Seq<char> {
    if count == 1 {
        "1 PR needs your attention"@
    } else {
        decimal_nat(count as nat) + " PRs need your attention"@
    }
}

/// The summary notification for pull requests that have come to need the
/// viewer.
pub fn notify_needs_you(count: usize) -> (r: Notice)
    ensures
        r@ == (NoticeView {
            title: "⚠️ Needle: Action Required"@,
            subtitle: None,
            body: needs_you_text(count),
            url: None,
        }),
{
    let body = if count == 1 {
        "1 PR needs your attention".to_string()
    } else {
        let mut b = String::new();
        push_decimal_nat(&mut b, count as u64);
        b.append(" PRs need your attention");
        proof {
            assert(Seq::<char>::empty() + decimal_nat(count as nat) =~= decimal_nat(count as nat));
        }
        b
    };
    Notice { title: "⚠️ Needle: Action Required".to_string(), subtitle: None, body, url: None }
}

/// The notification for a pull request that has become ready to merge.
pub fn notify_ready_to_merge(pr_title: &str, repo: &str, url: &str) -> (r: Notice)
    ensures
        r@ == pr_notice("✅ Ready to Merge"@, pr_title@, repo@, url@),
{
    with_url("✅ Ready to Merge", pr_title, repo, url)
}

/// The notification for a new draft.
pub fn notify_new_draft(pr_title: &str, repo: &str, url: &str) -> (r: Notice)
    ensures
        r@ == pr_notice("📝 New Draft PR"@, pr_title@, repo@, url@),
{
    with_url("📝 New Draft PR", pr_title, repo, url)
}

/// The repositories of the sample notifications.
pub open spec fn sample_repos() -> Seq<&'static str> {
    seq!["acme/backend", "acme/frontend", "acme/mobile-app", "acme/infrastructure", "acme/docs"]
}

/// The titles of the sample notifications.
pub open spec fn sample_titles() -> Seq<&'static str> {
    seq![
        "Fix authentication bug in login flow",
        "Add dark mode support",
        "Refactor database queries for performance",
        "Update dependencies to latest versions",
        "Implement new feature flag system",
        "Fix memory leak in worker process",
        "Add unit tests for payment module",
        "Migrate to new API version",
    ]
}

fn sample_repo(i: usize) -> (r: &'static str)
    requires
        i < 5,
    ensures
        r == sample_repos()[i as int],
{
    if i == 0 {
        "acme/backend"
    } else if i == 1 {
        "acme/frontend"
    } else if i == 2 {
        "acme/mobile-app"
    } else if i == 3 {
        "acme/infrastructure"
    } else {
        "acme/docs"
    }
}

fn sample_title(i: usize) -> (r: &'static str)
    requires
        i < 8,
    ensures
        r == sample_titles()[i as int],
{
    if i == 0 {
        "Fix authentication bug in login flow"
    } else if i == 1 {
        "Add dark mode support"
    } else if i == 2 {
        "Refactor database queries for performance"
    } else if i == 3 {
        "Update dependencies to latest versions"
    } else if i == 4 {
        "Implement new feature flag system"
    } else if i == 5 {
        "Fix memory leak in worker process"
    } else if i == 6 {
        "Add unit tests for payment module"
    } else {
        "Migrate to new API version"
    }
}

/// The address of the sample pull request of a round.
pub open spec fn sample_url(counter: usize) -> Seq<char> {
    "https://github.com/"@ + sample_repos()[(counter % 5) as int]@ + "/pull/"@ + decimal_nat(
        (100 + counter % 50) as nat,
    )
}

/// The sample notification of round `counter`: the six kinds take turns,
/// and so do the repositories and the titles.
pub open spec fn sample_notice(counter: usize) -> NoticeView {
    let repo = sample_repos()[(counter % 5) as int]@;
    let title = sample_titles()[(counter % 8) as int]@;
    let url = sample_url(counter);
    let kind = counter % 6;
    if kind == 0 {
        pr_notice("❌ CI Failed"@, title, repo, url)
    } else if kind == 1 {
        pr_notice("👀 Review Requested"@, title, repo, url)
    } else if kind == 2 {
        NoticeView {
            title: "📁 New Repository"@,
            subtitle: None,
            body: "PRs from "@ + repo + " now visible"@,
            url: None,
        }
    } else if kind == 3 {
        pr_notice("✅ Ready to Merge"@, title, repo, url)
    } else if kind == 4 {
        pr_notice("📝 New Draft PR"@, title, repo, url)
    } else {
        NoticeView {
            title: "⚠️ Needle: Action Required"@,
            subtitle: None,
            body: needs_you_text((counter % 3 + 1) as usize),
            url: None,
        }
    }
}

/// The sample notification of round `counter`.
pub fn notify_random_demo(counter: usize) -> (r: Notice)
    ensures
        r@ == sample_notice(counter),
{
    let repo = sample_repo(counter % 5);
    let title = sample_title(counter % 8);
    let mut url = "https://github.com/".to_string();
    url.append(repo);
    url.append("/pull/");
    push_decimal_nat(&mut url, (100 + counter % 50) as u64);
    let kind = counter % 6;
    if kind == 0 {
        notify_ci_failure(title, repo, url.as_str())
    } else if kind == 1 {
        notify_review_requested(title, repo, url.as_str())
    } else if kind == 2 {
        notify_new_repo(repo)
    } else if kind == 3 {
        notify_ready_to_merge(title, repo, url.as_str())
    } else if kind == 4 {
        notify_new_draft(title, repo, url.as_str())
    } else {
        notify_needs_you(counter % 3 + 1)
    }
}

} // verus!
