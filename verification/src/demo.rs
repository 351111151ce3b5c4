//! A deterministic generator of synthetic pull requests, seeded by a tick
//! and by a hash of each pull request's key.

use vstd::prelude::*;
use vstd::string::*;
use crate::model::{CiCheck, CiCheckState, CiState, Pr, ReviewState};
use crate::text::{decimal, decimal_nat, push_char, push_decimal, push_decimal_nat, sat_sub, saturating_sub};

verus! {

/// The tick that follows `tick`.
pub fn next_demo_tick(tick: u64) -> (r: u64)
    ensures
        r == tick.wrapping_add(1),
{
    tick.wrapping_add(1)
}

/// How the CI of a synthetic pull request looks.
#[derive(Debug, Clone, Copy, PartialEq, Eq, Structural)]
pub enum CiProfile {
    Green,
    RedNew,
    RedStuck,
    RunningLong,
    RunningShort,
    NoCi,
}

/// One synthetic pull request of the table.
#[derive(Debug, Clone, Copy)]
pub struct DemoPrSpec {
    pub owner: &'static str,
    pub repo: &'static str,
    pub number: i64,
    pub author: &'static str,
    pub title: &'static str,
    pub updated_age_secs: i64,
    pub review: ReviewState,
    pub ci: CiProfile,
}

/// One check of a CI profile.
#[derive(Debug, Clone, Copy)]
pub struct CheckSpec {
    pub name: &'static str,
    pub state: CiCheckState,
    /// Seconds before now at which the check started, where it reports it.
    pub started_ago: Option<i64>,
    /// What is added to the base run number for the check's address.
    pub run_offset: u64,
}

/// The 64-bit FNV-1a hash of a byte sequence.
pub open spec fn fnv1a(bytes: Seq<u8>) -> u64
    decreases bytes.len(),
{
    if bytes.len() == 0 {
        0xcbf29ce484222325u64
    } else {
        (fnv1a(bytes.drop_last()) ^ (bytes.last() as u64)).wrapping_mul(0x100000001b3u64)
    }
}

/// The hash of a key: FNV-1a over its UTF-8 bytes.
pub open spec fn key_hash(key: Seq<char>) -> u64 {
    fnv1a(vstd::utf8::encode_utf8(key))
}

/// The 64-bit FNV-1a hash of the bytes of `s`.
pub fn fnv1a_64(s: &str) -> (h: u64)
    ensures
        h == key_hash(s@),
{
    let bytes = s.as_bytes();
    let mut h: u64 = 0xcbf29ce484222325;
    let mut i: usize = 0;
    while i < bytes.len()
        invariant
            i <= bytes.len(),
            bytes@ == s.spec_bytes(),
            h == fnv1a(bytes@.take(i as int)),
        decreases bytes.len() - i,
    {
        proof {
            assert(bytes@.take(i + 1).drop_last() =~= bytes@.take(i as int));
        }
        h = h ^ (bytes[i] as u64);
        h = h.wrapping_mul(0x100000001b3);
        i = i + 1;
    }
    proof {
        assert(bytes@.take(bytes.len() as int) =~= bytes@);
    }
    h
}

/// A made-up time of last opening for the pull request `key`, for showing
/// how opened pull requests look: 23 minutes, 3 hours or 2 days before
/// `now` for three of eleven hash classes, none for the others. No refresh
/// cycle uses it: what a cycle records of openings is what the user did.
pub open spec fn seeded_opened_at(key: Seq<char>, now: i64) -> Option<i64> {
    let class = key_hash(key) % 11;
    if class == 0 {
        Some(sat_sub(now, 1380))
    } else if class == 1 {
        Some(sat_sub(now, 10800))
    } else if class == 2 {
        Some(sat_sub(now, 172800))
    } else {
        None
    }
}

/// A made-up time of last opening for the pull request `pr_key`.
pub fn seeded_last_opened_at(pr_key: &str, now: i64) -> (r: Option<i64>)
    ensures
        r == seeded_opened_at(pr_key@, now),
{
    let h = fnv1a_64(pr_key);
    let class: u64 = h % 11;
    if class == 0 {
        Some(saturating_sub(now, 23 * 60))
    } else if class == 1 {
        Some(saturating_sub(now, 3 * 3600))
    } else if class == 2 {
        Some(saturating_sub(now, 2 * 86400))
    } else {
        None
    }
}

/// One round of the generator behind the synthetic commit names.
pub open spec fn xorshift(x: u64) -> u64 {
    let a = x ^ (x << 13);
    let b = a ^ (a >> 7);
    b ^ (b << 17)
}

/// The lower-case hexadecimal digit of the low four bits of `x`.
pub open spec fn hex_char(x: u64) -> char {
    let v = x & 0x0f;
    if v < 10 {
        ((48 + v) as u8) as char
    } else {
        ((87 + v) as u8) as char
    }
}

/// `n` hexadecimal digits drawn from `x`, one per round.
pub open spec fn sha_chars(x: u64, n: nat) -> Seq<char>
    decreases n,
{
    if n == 0 {
        Seq::empty()
    } else {
        seq![hex_char(xorshift(x))] + sha_chars(xorshift(x), (n - 1) as nat)
    }
}

/// A seven-digit synthetic commit name drawn from `x`.
pub fn short_sha(x: u64) -> (r: String)
    ensures
        r@ == sha_chars(x, 7),
{
    let mut x = x;
    let ghost start = x;
    let mut out = String::new();
    let mut i: usize = 0;
    assert(out@ + sha_chars(x, 7) =~= sha_chars(start, 7));
    while i < 7
        invariant
            i <= 7,
            out@ + sha_chars(x, (7 - i) as nat) == sha_chars(start, 7),
        decreases 7 - i,
    {
        let ghost before = x;
        let ghost so_far = out@;
        x = x ^ (x << 13);
        x = x ^ (x >> 7);
        x = x ^ (x << 17);
        let v: u64 = x & 0x0f;
        assert(v < 16) by (bit_vector)
            requires
                v == x & 0x0f,
        ;
        let c: char = if v < 10 {
            (48u8 + (v as u8)) as char
        } else {
            (87u8 + (v as u8)) as char
        };
        push_char(&mut out, c);
        proof {
            assert(x == xorshift(before));
            assert(c == hex_char(x));
            assert(so_far.push(c) + sha_chars(x, (7 - i - 1) as nat) =~= so_far + sha_chars(
                before,
                (7 - i) as nat,
            ));
        }
        i = i + 1;
    }
    proof {
        assert(out@ + sha_chars(x, 0) =~= out@);
    }
    out
}

/// The address of a workflow run.
pub open spec fn actions_address(owner: Seq<char>, repo: Seq<char>, run_id: u64) -> Seq<char> {
    "https://github.com/"@ + owner + "/"@ + repo + "/actions/runs/"@ + decimal_nat(run_id as nat)
}

pub fn actions_url(owner: &str, repo: &str, run_id: u64) -> (r: String)
    ensures
        r@ == actions_address(owner@, repo@, run_id),
{
    let mut out = "https://github.com/".to_string();
    out.append(owner);
    out.append("/");
    out.append(repo);
    out.append("/actions/runs/");
    push_decimal_nat(&mut out, run_id);
    out
}

/// The address of a pull request.
pub open spec fn pr_address(owner: Seq<char>, repo: Seq<char>, number: i64) -> Seq<char> {
    "https://github.com/"@ + owner + "/"@ + repo + "/pull/"@ + decimal(number as int)
}

pub fn pr_url(owner: &str, repo: &str, number: i64) -> (r: String)
    ensures
        r@ == pr_address(owner@, repo@, number),
{
    let mut out = "https://github.com/".to_string();
    out.append(owner);
    out.append("/");
    out.append(repo);
    out.append("/pull/");
    push_decimal(&mut out, number);
    out
}

/// The key of a pull request: `owner/repo#number`.
pub open spec fn pr_key_of(owner: Seq<char>, repo: Seq<char>, number: i64) -> Seq<char> {
    owner + "/"@ + repo + "#"@ + decimal(number as int)
}

pub fn pr_key_string(owner: &str, repo: &str, number: i64) -> (r: String)
    ensures
        r@ == pr_key_of(owner@, repo@, number),
{
    let mut out = owner.to_string();
    out.append("/");
    out.append(repo);
    out.append("#");
    push_decimal(&mut out, number);
    out
}

/// The aggregate CI state of a profile.
pub open spec fn profile_state(profile: CiProfile) -> CiState {
    match profile {
        CiProfile::Green => CiState::Success,
        CiProfile::RedNew => CiState::Failure,
        CiProfile::RedStuck => CiState::Failure,
        CiProfile::RunningLong => CiState::Running,
        CiProfile::RunningShort => CiState::Running,
        CiProfile::NoCi => CiState::Absent,
    }
}

/// The checks of a profile.
pub open spec fn profile_checks(profile: CiProfile) -> Seq<CheckSpec> {
    match profile {
        CiProfile::Green => seq![
            CheckSpec { name: "build / linux", state: CiCheckState::Success, started_ago: None, run_offset: 11 },
            CheckSpec { name: "test / unit", state: CiCheckState::Success, started_ago: None, run_offset: 22 },
            CheckSpec { name: "lint", state: CiCheckState::Success, started_ago: None, run_offset: 33 },
            CheckSpec { name: "e2e / chrome", state: CiCheckState::Neutral, started_ago: None, run_offset: 44 },
        ],
        CiProfile::RedNew => seq![
            CheckSpec { name: "build / linux", state: CiCheckState::Success, started_ago: None, run_offset: 11 },
            CheckSpec { name: "test / unit", state: CiCheckState::Failure, started_ago: None, run_offset: 22 },
            CheckSpec { name: "lint", state: CiCheckState::Success, started_ago: None, run_offset: 33 },
            CheckSpec { name: "e2e / chrome", state: CiCheckState::Failure, started_ago: None, run_offset: 44 },
        ],
        CiProfile::RedStuck => seq![
            CheckSpec { name: "build / linux", state: CiCheckState::Success, started_ago: None, run_offset: 11 },
            CheckSpec { name: "test / unit", state: CiCheckState::Failure, started_ago: None, run_offset: 22 },
            CheckSpec { name: "lint", state: CiCheckState::Success, started_ago: None, run_offset: 33 },
            CheckSpec { name: "e2e / chrome", state: CiCheckState::Failure, started_ago: None, run_offset: 44 },
        ],
        CiProfile::RunningLong => seq![
            CheckSpec { name: "build / linux", state: CiCheckState::Success, started_ago: None, run_offset: 11 },
            CheckSpec { name: "test / integration", state: CiCheckState::Running, started_ago: Some(4080), run_offset: 22 },
            CheckSpec { name: "lint", state: CiCheckState::Success, started_ago: None, run_offset: 33 },
            CheckSpec { name: "deploy / preview", state: CiCheckState::Running, started_ago: Some(2460), run_offset: 44 },
        ],
        CiProfile::RunningShort => seq![
            CheckSpec { name: "build / linux", state: CiCheckState::Running, started_ago: Some(240), run_offset: 11 },
            CheckSpec { name: "test / unit", state: CiCheckState::Absent, started_ago: None, run_offset: 22 },
            CheckSpec { name: "lint", state: CiCheckState::Absent, started_ago: None, run_offset: 33 },
        ],
        CiProfile::NoCi => Seq::empty(),
    }
}

/// The checks of a profile.
pub fn checks_table(profile: CiProfile) -> (r: Vec<CheckSpec>)
    ensures
        r@ == profile_checks(profile),
{
    let r = match profile {
        CiProfile::Green => vec![
            CheckSpec { name: "build / linux", state: CiCheckState::Success, started_ago: None, run_offset: 11 },
            CheckSpec { name: "test / unit", state: CiCheckState::Success, started_ago: None, run_offset: 22 },
            CheckSpec { name: "lint", state: CiCheckState::Success, started_ago: None, run_offset: 33 },
            CheckSpec { name: "e2e / chrome", state: CiCheckState::Neutral, started_ago: None, run_offset: 44 },
        ],
        CiProfile::RedNew | CiProfile::RedStuck => vec![
            CheckSpec { name: "build / linux", state: CiCheckState::Success, started_ago: None, run_offset: 11 },
            CheckSpec { name: "test / unit", state: CiCheckState::Failure, started_ago: None, run_offset: 22 },
            CheckSpec { name: "lint", state: CiCheckState::Success, started_ago: None, run_offset: 33 },
            CheckSpec { name: "e2e / chrome", state: CiCheckState::Failure, started_ago: None, run_offset: 44 },
        ],
        CiProfile::RunningLong => vec![
            CheckSpec { name: "build / linux", state: CiCheckState::Success, started_ago: None, run_offset: 11 },
            CheckSpec { name: "test / integration", state: CiCheckState::Running, started_ago: Some(4080), run_offset: 22 },
            CheckSpec { name: "lint", state: CiCheckState::Success, started_ago: None, run_offset: 33 },
            CheckSpec { name: "deploy / preview", state: CiCheckState::Running, started_ago: Some(2460), run_offset: 44 },
        ],
        CiProfile::RunningShort => vec![
            CheckSpec { name: "build / linux", state: CiCheckState::Running, started_ago: Some(240), run_offset: 11 },
            CheckSpec { name: "test / unit", state: CiCheckState::Absent, started_ago: None, run_offset: 22 },
            CheckSpec { name: "lint", state: CiCheckState::Absent, started_ago: None, run_offset: 33 },
        ],
        CiProfile::NoCi => Vec::new(),
    };
    proof {
        assert(r@ =~= profile_checks(profile));
    }
    r
}

/// The number from which the run numbers of a pull request's checks count.
pub open spec fn base_run(salt: u64) -> u64 {
    (8_100_000 + salt % 900_000) as u64
}

/// `check` is the check that `spec` stands for in the repository
/// `owner/repo` at `now`, with run numbers salted by `salt`.
pub open spec fn is_demo_check(
    check: &CiCheck,
    spec: CheckSpec,
    owner: Seq<char>,
    repo: Seq<char>,
    now: i64,
    salt: u64,
) -> bool {
    &&& check.name@ == spec.name@
    &&& check.state == spec.state
    &&& check.url.is_some()
    &&& check.url.unwrap()@ == actions_address(owner, repo, (base_run(salt) + spec.run_offset) as u64)
    &&& check.started_at_unix == (match spec.started_ago {
        Some(ago) => Some(sat_sub(now, ago)),
        None => None,
    })
}

/// The CI state and the checks of a profile for the repository
/// `owner/repo` at `now`, with run numbers salted by `salt`.
pub fn checks_for(profile: CiProfile, owner: &str, repo: &str, _number: i64, now: i64, salt: u64) -> (out: (
    CiState,
    Vec<CiCheck>,
))
    ensures
        out.0 == profile_state(profile),
        out.1@.len() == profile_checks(profile).len(),
        forall|i: int|
            0 <= i < out.1@.len() ==> is_demo_check(
                &#[trigger] out.1@[i],
                profile_checks(profile)[i],
                owner@,
                repo@,
                now,
                salt,
            ),
{
    let base: u64 = 8_100_000u64 + (salt % 900_000);
    let state = match profile {
        CiProfile::Green => CiState::Success,
        CiProfile::RedNew | CiProfile::RedStuck => CiState::Failure,
        CiProfile::RunningLong | CiProfile::RunningShort => CiState::Running,
        CiProfile::NoCi => CiState::Absent,
    };
    let table = checks_table(profile);
    let mut checks: Vec<CiCheck> = Vec::new();
    let mut i: usize = 0;
    while i < table.len()
        invariant
            i <= table.len(),
            table@ == profile_checks(profile),
            base == base_run(salt),
            checks@.len() == i,
            forall|j: int|
                0 <= j < i ==> is_demo_check(&#[trigger] checks@[j], table@[j], owner@, repo@, now, salt),
        decreases table.len() - i,
    {
        let spec = table[i];
        assert(spec.run_offset <= 44) by {
            assert(forall|k: int|
                0 <= k < profile_checks(profile).len() ==> (#[trigger] profile_checks(
                    profile,
                )[k]).run_offset <= 44);
        }
        let check = CiCheck {
            name: spec.name.to_string(),
            state: spec.state,
            url: Some(actions_url(owner, repo, base + spec.run_offset)),
            started_at_unix: match spec.started_ago {
                Some(ago) => Some(saturating_sub(now, ago)),
                None => None,
            },
        };
        checks.push(check);
        i = i + 1;
    }
    (state, checks)
}

/// The table of synthetic pull requests.
pub open spec fn demo_specs() -> Seq<DemoPrSpec> {
    seq![
        DemoPrSpec {
            owner: "acme-inc",
            repo: "billing-api",
            number: 842,
            author: "anika",
            title: "Fix idempotency for retries on charge capture",
            updated_age_secs: 7200,
            review: ReviewState::Requested,
            ci: CiProfile::Green,
        },
        DemoPrSpec {
            owner: "orbit",
            repo: "web",
            number: 1932,
            author: "santiago",
            title: "Add keyboard navigation to project switcher",
            updated_age_secs: 1680,
            review: ReviewState::Absent,
            ci: CiProfile::RedNew,
        },
        DemoPrSpec {
            owner: "windmill-labs",
            repo: "infra",
            number: 317,
            author: "chen",
            title: "Bump Postgres to 16.2 and tune autovacuum thresholds",
            updated_age_secs: 345600,
            review: ReviewState::Absent,
            ci: CiProfile::RedStuck,
        },
        DemoPrSpec {
            owner: "paperplane",
            repo: "mobile",
            number: 501,
            author: "sofia",
            title: "Reduce cold-start time by deferring analytics init",
            updated_age_secs: 1140,
            review: ReviewState::Absent,
            ci: CiProfile::RunningLong,
        },
        DemoPrSpec {
            owner: "acme-inc",
            repo: "design-system",
            number: 128,
            author: "mia",
            title: "Button: add loading state and improve focus ring",
            updated_age_secs: 360,
            review: ReviewState::Absent,
            ci: CiProfile::RunningShort,
        },
        DemoPrSpec {
            owner: "honeycombio",
            repo: "otel-collector",
            number: 77,
            author: "devin",
            title: "Add tail-sampling defaults for high-cardinality traces",
            updated_age_secs: 604800,
            review: ReviewState::Absent,
            ci: CiProfile::Green,
        },
        DemoPrSpec {
            owner: "orbit",
            repo: "api",
            number: 1104,
            author: "jules",
            title: "Rate limit /v1/events and emit structured logs",
            updated_age_secs: 57600,
            review: ReviewState::Approved,
            ci: CiProfile::Green,
        },
        DemoPrSpec {
            owner: "paperplane",
            repo: "docs",
            number: 42,
            author: "noah",
            title: "Docs: clarify OAuth scopes and add troubleshooting",
            updated_age_secs: 259200,
            review: ReviewState::Absent,
            ci: CiProfile::NoCi,
        },
        DemoPrSpec {
            owner: "acme-inc",
            repo: "monorepo",
            number: 2551,
            author: "anika",
            title: "Refactor: extract feature flags into shared crate",
            updated_age_secs: 39600,
            review: ReviewState::Requested,
            ci: CiProfile::RunningLong,
        },
        DemoPrSpec {
            owner: "windmill-labs",
            repo: "sdk-rust",
            number: 98,
            author: "chen",
            title: "Add retry policy for 429/503 responses",
            updated_age_secs: 1036800,
            review: ReviewState::Absent,
            ci: CiProfile::Green,
        },
        DemoPrSpec {
            owner: "orbit",
            repo: "web",
            number: 1940,
            author: "sofia",
            title: "Fix flaky onboarding test on CI runners",
            updated_age_secs: 3000,
            review: ReviewState::Absent,
            ci: CiProfile::RedNew,
        },
        DemoPrSpec {
            owner: "paperplane",
            repo: "backend",
            number: 611,
            author: "devin",
            title: "Graceful shutdown: drain queue workers before exit",
            updated_age_secs: 93600,
            review: ReviewState::Approved,
            ci: CiProfile::NoCi,
        },
        DemoPrSpec {
            owner: "honeycombio",
            repo: "ui",
            number: 390,
            author: "mia",
            title: "Charts: fix tooltip positioning near viewport edges",
            updated_age_secs: 32400,
            review: ReviewState::Absent,
            ci: CiProfile::Green,
        },
        DemoPrSpec {
            owner: "acme-inc",
            repo: "payments-worker",
            number: 219,
            author: "santiago",
            title: "Handle duplicate webhook deliveries and add metrics",
            updated_age_secs: 10800,
            review: ReviewState::Requested,
            ci: CiProfile::RedNew,
        },
        DemoPrSpec {
            owner: "windmill-labs",
            repo: "infra",
            number: 321,
            author: "jules",
            title: "Terraform: split prod/staging state and add drift detection",
            updated_age_secs: 1555200,
            review: ReviewState::Absent,
            ci: CiProfile::Green,
        },
        DemoPrSpec {
            owner: "paperplane",
            repo: "mobile",
            number: 523,
            author: "noah",
            title: "Fix crash when resuming from background on iOS 17.2",
            updated_age_secs: 5400,
            review: ReviewState::Absent,
            ci: CiProfile::RunningLong,
        },
    ]
}

/// The table of synthetic pull requests.
pub fn demo_table() -> (r: Vec<DemoPrSpec>)
    ensures
        r@ == demo_specs(),
{
    let r = vec![
        DemoPrSpec {
            owner: "acme-inc",
            repo: "billing-api",
            number: 842,
            author: "anika",
            title: "Fix idempotency for retries on charge capture",
            updated_age_secs: 7200,
            review: ReviewState::Requested,
            ci: CiProfile::Green,
        },
        DemoPrSpec {
            owner: "orbit",
            repo: "web",
            number: 1932,
            author: "santiago",
            title: "Add keyboard navigation to project switcher",
            updated_age_secs: 1680,
            review: ReviewState::Absent,
            ci: CiProfile::RedNew,
        },
        DemoPrSpec {
            owner: "windmill-labs",
            repo: "infra",
            number: 317,
            author: "chen",
            title: "Bump Postgres to 16.2 and tune autovacuum thresholds",
            updated_age_secs: 345600,
            review: ReviewState::Absent,
            ci: CiProfile::RedStuck,
        },
        DemoPrSpec {
            owner: "paperplane",
            repo: "mobile",
            number: 501,
            author: "sofia",
            title: "Reduce cold-start time by deferring analytics init",
            updated_age_secs: 1140,
            review: ReviewState::Absent,
            ci: CiProfile::RunningLong,
        },
        DemoPrSpec {
            owner: "acme-inc",
            repo: "design-system",
            number: 128,
            author: "mia",
            title: "Button: add loading state and improve focus ring",
            updated_age_secs: 360,
            review: ReviewState::Absent,
            ci: CiProfile::RunningShort,
        },
        DemoPrSpec {
            owner: "honeycombio",
            repo: "otel-collector",
            number: 77,
            author: "devin",
            title: "Add tail-sampling defaults for high-cardinality traces",
            updated_age_secs: 604800,
            review: ReviewState::Absent,
            ci: CiProfile::Green,
        },
        DemoPrSpec {
            owner: "orbit",
            repo: "api",
            number: 1104,
            author: "jules",
            title: "Rate limit /v1/events and emit structured logs",
            updated_age_secs: 57600,
            review: ReviewState::Approved,
            ci: CiProfile::Green,
        },
        DemoPrSpec {
            owner: "paperplane",
            repo: "docs",
            number: 42,
            author: "noah",
            title: "Docs: clarify OAuth scopes and add troubleshooting",
            updated_age_secs: 259200,
            review: ReviewState::Absent,
            ci: CiProfile::NoCi,
        },
        DemoPrSpec {
            owner: "acme-inc",
            repo: "monorepo",
            number: 2551,
            author: "anika",
            title: "Refactor: extract feature flags into shared crate",
            updated_age_secs: 39600,
            review: ReviewState::Requested,
            ci: CiProfile::RunningLong,
        },
        DemoPrSpec {
            owner: "windmill-labs",
            repo: "sdk-rust",
            number: 98,
            author: "chen",
            title: "Add retry policy for 429/503 responses",
            updated_age_secs: 1036800,
            review: ReviewState::Absent,
            ci: CiProfile::Green,
        },
        DemoPrSpec {
            owner: "orbit",
            repo: "web",
            number: 1940,
            author: "sofia",
            title: "Fix flaky onboarding test on CI runners",
            updated_age_secs: 3000,
            review: ReviewState::Absent,
            ci: CiProfile::RedNew,
        },
        DemoPrSpec {
            owner: "paperplane",
            repo: "backend",
            number: 611,
            author: "devin",
            title: "Graceful shutdown: drain queue workers before exit",
            updated_age_secs: 93600,
            review: ReviewState::Approved,
            ci: CiProfile::NoCi,
        },
        DemoPrSpec {
            owner: "honeycombio",
            repo: "ui",
            number: 390,
            author: "mia",
            title: "Charts: fix tooltip positioning near viewport edges",
            updated_age_secs: 32400,
            review: ReviewState::Absent,
            ci: CiProfile::Green,
        },
        DemoPrSpec {
            owner: "acme-inc",
            repo: "payments-worker",
            number: 219,
            author: "santiago",
            title: "Handle duplicate webhook deliveries and add metrics",
            updated_age_secs: 10800,
            review: ReviewState::Requested,
            ci: CiProfile::RedNew,
        },
        DemoPrSpec {
            owner: "windmill-labs",
            repo: "infra",
            number: 321,
            author: "jules",
            title: "Terraform: split prod/staging state and add drift detection",
            updated_age_secs: 1555200,
            review: ReviewState::Absent,
            ci: CiProfile::Green,
        },
        DemoPrSpec {
            owner: "paperplane",
            repo: "mobile",
            number: 523,
            author: "noah",
            title: "Fix crash when resuming from background on iOS 17.2",
            updated_age_secs: 5400,
            review: ReviewState::Absent,
            ci: CiProfile::RunningLong,
        },
    ];
    proof {
        assert(r@ =~= demo_specs());
    }
    r
}

/// `x` turned left by thirteen bits.
pub open spec fn rotl13(x: u64) -> u64 {
    (x << 13) | (x >> 51)
}

/// The salt of a pull request at a tick.
pub open spec fn demo_salt(key: Seq<char>, tick: u64) -> u64 {
    key_hash(key) ^ rotl13(tick)
}

/// A profile whose commit stays the same from tick to tick.
pub open spec fn stable_profile(ci: CiProfile) -> bool {
    ci == CiProfile::RedStuck || ci == CiProfile::NoCi || ci == CiProfile::Green
}

/// A profile whose time of update shifts from tick to tick.
pub open spec fn lively_profile(ci: CiProfile) -> bool {
    ci == CiProfile::RunningLong || ci == CiProfile::RunningShort || ci == CiProfile::RedNew
}

/// The tick read as a signed number.
pub open spec fn signed_tick(tick: u64) -> int {
    if tick <= i64::MAX {
        tick as int
    } else {
        tick - 0x1_0000_0000_0000_0000
    }
}

/// By how many seconds the time of update of a lively pull request is
/// shifted at a tick: whole minutes, the signed tick's remainder by seven.
pub open spec fn wobble_secs(tick: u64) -> int {
    let t = signed_tick(tick);
    if t >= 0 {
        (t % 7) * 60
    } else {
        -((-t) % 7) * 60
    }
}

pub fn wobble_for(tick: u64) -> (r: i64)
    ensures
        r == wobble_secs(tick),
{
    if tick <= 0x7fff_ffff_ffff_ffff {
        ((tick % 7) as i64) * 60
    } else {
        let m: u64 = (u64::MAX - tick) + 1;
        -((m % 7) as i64) * 60
    }
}

/// The seed of the commit name of a pull request at a tick.
pub open spec fn sha_seed(key: Seq<char>, ci: CiProfile, tick: u64) -> u64 {
    if stable_profile(ci) {
        key_hash(key)
    } else {
        demo_salt(key, tick) ^ tick.wrapping_mul(0x9e3779b97f4a7c15u64)
    }
}

/// `pr` is the synthetic pull request that `spec` stands for at `now` and
/// `tick`.
pub open spec fn is_demo_pr(pr: &Pr, spec: DemoPrSpec, now: i64, tick: u64) -> bool {
    let key = pr_key_of(spec.owner@, spec.repo@, spec.number);
    let salt = demo_salt(key, tick);
    let wobble = if lively_profile(spec.ci) { wobble_secs(tick) as i64 } else { 0i64 };
    &&& pr.pr_key@ == key
    &&& pr.owner@ == spec.owner@
    &&& pr.repo@ == spec.repo@
    &&& pr.number == spec.number
    &&& pr.author@ == spec.author@
    &&& pr.title@ == spec.title@
    &&& pr.url@ == pr_address(spec.owner@, spec.repo@, spec.number)
    &&& pr.updated_at_unix == sat_sub(now, sat_sub(spec.updated_age_secs, wobble))
    &&& pr.last_commit_sha.is_some()
    &&& pr.last_commit_sha.unwrap()@ == sha_chars(sha_seed(key, spec.ci, tick), 7)
    &&& pr.ci_state == profile_state(spec.ci)
    &&& pr.ci_checks@.len() == profile_checks(spec.ci).len()
    &&& forall|i: int|
        0 <= i < pr.ci_checks@.len() ==> is_demo_check(
            &#[trigger] pr.ci_checks@[i],
            profile_checks(spec.ci)[i],
            spec.owner@,
            spec.repo@,
            now,
            salt,
        )
    &&& pr.review_state == spec.review
    &&& !pr.is_draft
    &&& pr.mergeable.is_none()
    &&& pr.merge_state_status.is_none()
    &&& !pr.is_viewer_author
    &&& pr.merge_blockers.is_none()
}

/// The synthetic pull request that `spec` stands for at `now` and `tick`.
pub fn demo_pr(spec: &DemoPrSpec, now: i64, tick: u64) -> (pr: Pr)
    ensures
        is_demo_pr(&pr, *spec, now, tick),
{
    let key = pr_key_string(spec.owner, spec.repo, spec.number);
    let hash = fnv1a_64(key.as_str());
    let salt = hash ^ ((tick << 13) | (tick >> 51));
    let url = pr_url(spec.owner, spec.repo, spec.number);
    let (ci_state, ci_checks) = checks_for(spec.ci, spec.owner, spec.repo, spec.number, now, salt);
    let stable = matches!(spec.ci, CiProfile::RedStuck | CiProfile::NoCi | CiProfile::Green);
    let seed = if stable {
        hash
    } else {
        salt ^ tick.wrapping_mul(0x9e3779b97f4a7c15)
    };
    let sha = short_sha(seed);
    let lively = matches!(
        spec.ci,
        CiProfile::RunningLong | CiProfile::RunningShort | CiProfile::RedNew
    );
    let wobble: i64 = if lively {
        wobble_for(tick)
    } else {
        0
    };
    let updated_at_unix = saturating_sub(now, saturating_sub(spec.updated_age_secs, wobble));
    Pr {
        pr_key: key,
        owner: spec.owner.to_string(),
        repo: spec.repo.to_string(),
        number: spec.number,
        author: spec.author.to_string(),
        title: spec.title.to_string(),
        url,
        updated_at_unix,
        last_commit_sha: Some(sha),
        ci_state,
        ci_checks,
        review_state: spec.review,
        is_draft: false,
        mergeable: None,
        merge_state_status: None,
        is_viewer_author: false,
        merge_blockers: None,
    }
}

/// The synthetic pull requests at `now` and `tick`: one for each entry of
/// the table, in the table's order.
pub fn generate_demo_prs(now: i64, tick: u64) -> (out: Vec<Pr>)
    ensures
        out@.len() == demo_specs().len(),
        forall|i: int|
            0 <= i < out@.len() ==> is_demo_pr(&#[trigger] out@[i], demo_specs()[i], now, tick),
{
    let table = demo_table();
    let mut out: Vec<Pr> = Vec::new();
    let mut i: usize = 0;
    while i < table.len()
        invariant
            i <= table.len(),
            table@ == demo_specs(),
            out@.len() == i,
            forall|j: int| 0 <= j < i ==> is_demo_pr(&#[trigger] out@[j], table@[j], now, tick),
        decreases table.len() - i,
    {
        let pr = demo_pr(&table[i], now, tick);
        out.push(pr);
        i = i + 1;
    }
    out
}

} // verus!
