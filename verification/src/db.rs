//! The cache table: one row per pull request, keyed by `pr_key`.
//!
//! The table is the in-memory form of the cache. A row is created when its
//! key is first seen, rewritten as a whole on every refresh that still
//! returns the pull request, and deleted when a refresh no longer does.

use vstd::prelude::*;
use vstd::string::*;
use crate::text::{clone_opt_string, contains_string, str_eq, string_set};

verus! {

/// One cached row: the stored projection of a pull request with the two
/// timestamps `last_seen_at` and `last_opened_at`.
#[derive(Debug, Clone)]
pub struct DbPrRow {
    pub pr_key: String,
    pub owner: String,
    pub repo: String,
    pub number: i64,
    pub title: String,
    pub url: String,
    pub author: Option<String>,
    pub updated_at_unix: Option<i64>,
    pub last_commit_sha: Option<String>,
    pub last_ci_state: Option<String>,
    pub last_review_state: Option<String>,
    pub ci_checks_json: Option<String>,
    pub is_draft: Option<i64>,
    pub mergeable: Option<String>,
    pub merge_state_status: Option<String>,
    pub author_is_viewer: Option<i64>,
    pub last_seen_at: Option<i64>,
    pub last_opened_at: Option<i64>,
}

/// A point in time as the system clock gives it.
#[verifier::external_type_specification]
#[verifier::external_body]
pub struct ExSystemTime(std::time::SystemTime);

/// What `SystemTime::duration_since` answers when the later time is the
/// earlier one.
#[verifier::external_type_specification]
#[verifier::external_body]
pub struct ExSystemTimeError(std::time::SystemTimeError);

/// The time now.
///
/// Trusted: this is `std::time::SystemTime::now`. The result depends on the
/// clock, so nothing is claimed of it.
#[verifier::external_body]
fn system_now() -> std::time::SystemTime {
    std::time::SystemTime::now()
}

/// The time from the unix epoch to `t`; an error where `t` is before it.
///
/// Trusted: this is `std::time::SystemTime::duration_since`, asked for the
/// time since `UNIX_EPOCH`. Nothing is claimed of the result.
#[verifier::external_body]
fn since_epoch(t: &std::time::SystemTime) -> Result<
    std::time::Duration,
    std::time::SystemTimeError,
> {
    t.duration_since(std::time::UNIX_EPOCH)
}

/// The whole seconds of a length of time.
///
/// Trusted: this is `std::time::Duration::as_secs`. A length of time is
/// opaque here, so nothing is claimed of the result.
#[verifier::external_body]
fn whole_secs(d: &std::time::Duration) -> u64 {
    d.as_secs()
}

/// The unix time of a reading of the clock: its seconds, zero where the
/// clock is set before the epoch.
pub open spec fn unix_of(reading: Option<u64>) -> i64 {
    match reading {
        Some(secs) => secs as i64,
        None => 0,
    }
}

/// The unix time of a reading of the clock.
pub fn unix_from_reading(reading: Option<u64>) -> (r: i64)
    ensures
        r == unix_of(reading),
{
    match reading {
        Some(secs) => #[verifier::truncate]
        (secs as i64),
        None => 0,
    }
}

/// Seconds since the unix epoch, zero if the clock is set before it.
pub fn now_unix() -> i64 {
    let now = system_now();
    let reading = match since_epoch(&now) {
        Ok(d) => Some(whole_secs(&d)),
        Err(_) => None,
    };
    unix_from_reading(reading)
}

/// A copy of a row.
pub fn clone_row(row: &DbPrRow) -> (r: DbPrRow)
    ensures
        r == *row,
{
    DbPrRow {
        pr_key: row.pr_key.clone(),
        owner: row.owner.clone(),
        repo: row.repo.clone(),
        number: row.number,
        title: row.title.clone(),
        url: row.url.clone(),
        author: clone_opt_string(&row.author),
        updated_at_unix: row.updated_at_unix,
        last_commit_sha: clone_opt_string(&row.last_commit_sha),
        last_ci_state: clone_opt_string(&row.last_ci_state),
        last_review_state: clone_opt_string(&row.last_review_state),
        ci_checks_json: clone_opt_string(&row.ci_checks_json),
        is_draft: row.is_draft,
        mergeable: clone_opt_string(&row.mergeable),
        merge_state_status: clone_opt_string(&row.merge_state_status),
        author_is_viewer: row.author_is_viewer,
        last_seen_at: row.last_seen_at,
        last_opened_at: row.last_opened_at,
    }
}

/// The map that a sequence of rows stands for: each row under its key, a
/// later row replacing an earlier one with the same key.
pub open spec fn rows_map(rows: Seq<DbPrRow>) -> Map<Seq<char>, DbPrRow>
    decreases rows.len(),
{
    if rows.len() == 0 {
        Map::empty()
    } else {
        rows_map(rows.drop_last()).insert(rows.last().pr_key@, rows.last())
    }
}

/// The `last_opened_at` that the table keeps when `supplied` is written over
/// a row that held `prior`: the prior value, unless the supplied one is newer.
pub open spec fn merged_opened_at(prior: Option<i64>, supplied: Option<i64>) -> Option<i64> {
    match (prior, supplied) {
        (Some(p), Some(s)) => if s > p { supplied } else { prior },
        (None, Some(_)) => supplied,
        _ => prior,
    }
}

/// The `last_opened_at` to keep when `supplied` is written over `prior`.
pub fn merge_opened_at(prior: Option<i64>, supplied: Option<i64>) -> (r: Option<i64>)
    ensures
        r == merged_opened_at(prior, supplied),
{
    match (prior, supplied) {
        (Some(p), Some(s)) => if s > p {
            Some(s)
        } else {
            Some(p)
        },
        (None, Some(s)) => Some(s),
        (p, None) => p,
    }
}

/// The row that the table holds under `row.pr_key` after `row` was written
/// at `observed_at` into a table with contents `m`.
pub open spec fn stored_row(m: Map<Seq<char>, DbPrRow>, row: DbPrRow, observed_at: i64) -> DbPrRow {
    DbPrRow {
        last_seen_at: Some(observed_at),
        last_opened_at: if m.contains_key(row.pr_key@) {
            merged_opened_at(m[row.pr_key@].last_opened_at, row.last_opened_at)
        } else {
            row.last_opened_at
        },
        ..row
    }
}

/// The contents of a table with contents `m` after `row` was written at
/// `observed_at`.
pub open spec fn upserted(m: Map<Seq<char>, DbPrRow>, row: DbPrRow, observed_at: i64) -> Map<
    Seq<char>,
    DbPrRow,
> {
    m.insert(row.pr_key@, stored_row(m, row, observed_at))
}

/// The contents of a table with contents `m` after `ts` was recorded as the
/// time at which the pull request `key` was last opened.
pub open spec fn opened(m: Map<Seq<char>, DbPrRow>, key: Seq<char>, ts: i64) -> Map<
    Seq<char>,
    DbPrRow,
> {
    if m.contains_key(key) {
        m.insert(key, DbPrRow { last_opened_at: Some(ts), ..m[key] })
    } else {
        m
    }
}

/// Replacing the last row that carries a key replaces that key's entry.
proof fn lemma_update_last(rows: Seq<DbPrRow>, idx: int, r: DbPrRow)
    requires
        0 <= idx < rows.len(),
        rows[idx].pr_key@ == r.pr_key@,
        forall|j: int| idx < j < rows.len() ==> (#[trigger] rows[j]).pr_key@ != r.pr_key@,
    ensures
        rows_map(rows.update(idx, r)) == rows_map(rows).insert(r.pr_key@, r),
    decreases rows.len(),
{
    let upd = rows.update(idx, r);
    if idx == rows.len() - 1 {
        assert(upd.drop_last() =~= rows.drop_last());
        assert(rows_map(upd) =~= rows_map(rows).insert(r.pr_key@, r));
    } else {
        lemma_update_last(rows.drop_last(), idx, r);
        assert(upd.drop_last() =~= rows.drop_last().update(idx, r));
        assert(upd.last() == rows.last());
        assert(rows.last().pr_key@ != r.pr_key@);
        assert(rows_map(upd) =~= rows_map(rows).insert(r.pr_key@, r));
    }
}

/// The cache table.
pub struct CacheTable {
    rows: Vec<DbPrRow>,
}

impl View for CacheTable {
    type V = Map<Seq<char>, DbPrRow>;

    /// The table's contents: each cached row under its key.
    closed spec fn view(&self) -> Map<Seq<char>, DbPrRow> {
        rows_map(self.rows@)
    }
}

impl CacheTable {
    /// Every row is stored under its own key.
    pub open spec fn keyed(m: Map<Seq<char>, DbPrRow>) -> bool {
        forall|k: Seq<char>| m.contains_key(k) ==> (#[trigger] m[k]).pr_key@ == k
    }

    /// An empty table.
    pub fn new() -> (t: CacheTable)
        ensures
            t@ == Map::<Seq<char>, DbPrRow>::empty(),
    {
        CacheTable { rows: Vec::new() }
    }

    /// A table that holds `rows`; of two rows with one key the later stays.
    pub fn from_rows(rows: Vec<DbPrRow>) -> (t: CacheTable)
        ensures
            t@ == rows_map(rows@),
    {
        CacheTable { rows }
    }

    /// The position of the last row stored under `key`.
    fn position(&self, key: &str) -> (r: Option<usize>)
        ensures
            r.is_some() == self@.contains_key(key@),
            r.is_some() ==> {
                &&& r.unwrap() < self.rows@.len()
                &&& self.rows@[r.unwrap() as int] == self@[key@]
                &&& self.rows@[r.unwrap() as int].pr_key@ == key@
                &&& forall|j: int|
                    r.unwrap() < j < self.rows@.len() ==> (#[trigger] self.rows@[j]).pr_key@
                        != key@
            },
    {
        let mut found: Option<usize> = None;
        let mut i: usize = 0;
        while i < self.rows.len()
            invariant
                i <= self.rows.len(),
                found.is_some() == rows_map(self.rows@.take(i as int)).contains_key(key@),
                found.is_some() ==> {
                    &&& found.unwrap() < i
                    &&& self.rows@[found.unwrap() as int] == rows_map(self.rows@.take(i as int))[key@]
                    &&& self.rows@[found.unwrap() as int].pr_key@ == key@
                    &&& forall|j: int|
                        found.unwrap() < j < i ==> (#[trigger] self.rows@[j]).pr_key@ != key@
                },
            decreases self.rows.len() - i,
        {
            proof {
                assert(self.rows@.take(i + 1).drop_last() =~= self.rows@.take(i as int));
            }
            if str_eq(self.rows[i].pr_key.as_str(), key) {
                found = Some(i);
            }
            i = i + 1;
        }
        proof {
            assert(self.rows@.take(self.rows.len() as int) =~= self.rows@);
        }
        found
    }

    /// Whether a row is stored under `key`.
    pub fn contains(&self, key: &str) -> (r: bool)
        ensures
            r == self@.contains_key(key@),
    {
        self.position(key).is_some()
    }

    /// The row stored under `key`, if there is one.
    pub fn get(&self, key: &str) -> (r: Option<&DbPrRow>)
        ensures
            r.is_some() == self@.contains_key(key@),
            r.is_some() ==> *r.unwrap() == self@[key@],
    {
        match self.position(key) {
            Some(i) => Some(&self.rows[i]),
            None => None,
        }
    }
}

/// A snapshot of the rows; of two rows with one key the later counts.
pub fn load_all_prs(table: &CacheTable) -> (out: Vec<DbPrRow>)
    ensures
        rows_map(out@) == table@,
{
    let mut out: Vec<DbPrRow> = Vec::new();
    let mut i: usize = 0;
    while i < table.rows.len()
        invariant
            i <= table.rows.len(),
            out@ == table.rows@.take(i as int),
        decreases table.rows.len() - i,
    {
        out.push(clone_row(&table.rows[i]));
        proof {
            assert(table.rows@.take(i as int).push(table.rows@[i as int]) =~= table.rows@.take(
                i + 1,
            ));
        }
        i = i + 1;
    }
    proof {
        assert(table.rows@.take(table.rows.len() as int) =~= table.rows@);
    }
    out
}

/// Inserts `pr` or replaces the row with its key. Every column is taken
/// from `pr`, `last_seen_at` becomes `last_seen_at`, and over an
/// existing row `last_opened_at` is kept unless `pr` brings a newer one.
pub fn upsert_pr(table: &mut CacheTable, pr: &DbPrRow, last_seen_at: i64)
    ensures
        final(table)@ == upserted(old(table)@, *pr, last_seen_at),
{
    let mut row = clone_row(pr);
    let ghost given = row;
    row.last_seen_at = Some(last_seen_at);
    match table.position(row.pr_key.as_str()) {
        Some(i) => {
            let prior = table.rows[i].last_opened_at;
            row.last_opened_at = merge_opened_at(prior, row.last_opened_at);
            proof {
                assert(row == stored_row(old(table)@, given, last_seen_at));
                lemma_update_last(table.rows@, i as int, row);
            }
            table.rows.set(i, row);
        },
        None => {
            proof {
                assert(row == stored_row(old(table)@, given, last_seen_at));
                assert(table.rows@.push(row).drop_last() =~= table.rows@);
            }
            table.rows.push(row);
        },
    }
}

/// Deletes every row whose key is not among `keep_pr_keys`. With no key
/// to keep the table is cleared.
pub fn delete_prs_not_in(table: &mut CacheTable, keep_pr_keys: &Vec<String>)
    ensures
        final(table)@ == old(table)@.restrict(string_set(keep_pr_keys@)),
{
    let ghost keep = string_set(keep_pr_keys@);
    let mut out: Vec<DbPrRow> = Vec::new();
    let mut i: usize = 0;
    while i < table.rows.len()
        invariant
            i <= table.rows.len(),
            keep == string_set(keep_pr_keys@),
            rows_map(out@) == rows_map(table.rows@.take(i as int)).restrict(keep),
        decreases table.rows.len() - i,
    {
        let ghost before = rows_map(table.rows@.take(i as int));
        proof {
            assert(table.rows@.take(i + 1).drop_last() =~= table.rows@.take(i as int));
        }
        if contains_string(keep_pr_keys, table.rows[i].pr_key.as_str()) {
            let r = clone_row(&table.rows[i]);
            proof {
                assert(out@.push(r).drop_last() =~= out@);
                assert(before.restrict(keep).insert(r.pr_key@, r) =~= before.insert(
                    r.pr_key@,
                    r,
                ).restrict(keep));
            }
            out.push(r);
        } else {
            proof {
                let r = table.rows@[i as int];
                assert(before.restrict(keep) =~= before.insert(r.pr_key@, r).restrict(keep));
            }
        }
        i = i + 1;
    }
    proof {
        assert(table.rows@.take(table.rows.len() as int) =~= table.rows@);
    }
    table.rows = out;
}

/// Records `ts` as the time at which the pull request `pr_key` was last
/// opened. A key without a row changes nothing and is no error.
pub fn set_opened_at(table: &mut CacheTable, pr_key: &str, ts: i64)
    ensures
        final(table)@ == opened(old(table)@, pr_key@, ts),
{
    match table.position(pr_key) {
        Some(i) => {
            let mut row = clone_row(&table.rows[i]);
            row.last_opened_at = Some(ts);
            proof {
                lemma_update_last(table.rows@, i as int, row);
            }
            table.rows.set(i, row);
        },
        None => {},
    }
}

/// Every row of a table is stored under its own key.
pub proof fn lemma_rows_keyed(rows: Seq<DbPrRow>)
    ensures
        CacheTable::keyed(rows_map(rows)),
    decreases rows.len(),
{
    if rows.len() > 0 {
        lemma_rows_keyed(rows.drop_last());
    }
}

/// A written row is read back as written: under its key the table holds the
/// row with every field as given, except that `last_seen_at` is the time of
/// the write and that `last_opened_at` of a row already present is kept
/// unless the written row brings a newer one. Other keys are untouched.
pub proof fn lemma_upsert_then_load(m: Map<Seq<char>, DbPrRow>, row: DbPrRow, observed_at: i64)
    ensures
        upserted(m, row, observed_at).contains_key(row.pr_key@),
        upserted(m, row, observed_at)[row.pr_key@] == (DbPrRow {
            last_seen_at: Some(observed_at),
            last_opened_at: upserted(m, row, observed_at)[row.pr_key@].last_opened_at,
            ..row
        }),
        !m.contains_key(row.pr_key@) ==> upserted(m, row, observed_at)[row.pr_key@].last_opened_at
            == row.last_opened_at,
        m.contains_key(row.pr_key@) && row.last_opened_at.is_none() ==> upserted(
            m,
            row,
            observed_at,
        )[row.pr_key@].last_opened_at == m[row.pr_key@].last_opened_at,
        m.contains_key(row.pr_key@) && row.last_opened_at == m[row.pr_key@].last_opened_at
            ==> upserted(m, row, observed_at)[row.pr_key@].last_opened_at
            == m[row.pr_key@].last_opened_at,
        forall|k: Seq<char>|
            k != row.pr_key@ ==> (upserted(m, row, observed_at).contains_key(k) == m.contains_key(
                k,
            ) && (m.contains_key(k) ==> upserted(m, row, observed_at)[k] == m[k])),
{
}

/// Pruning twice to the same keys leaves what pruning once leaves.
pub proof fn lemma_prune_idempotent(m: Map<Seq<char>, DbPrRow>, keep: Set<Seq<char>>)
    ensures
        m.restrict(keep).restrict(keep) == m.restrict(keep),
{
    assert(m.restrict(keep).restrict(keep) =~= m.restrict(keep));
}

} // verus!
