//! The interaction state machine: view mode, selection, filters, the
//! in-flight-refresh flag and the timers of automatic refresh.
//!
//! Time is handed in by the caller: `now` is a reading in seconds of a clock
//! that never goes back, `wall` is unix time.

use vstd::prelude::*;
use vstd::string::*;
use crate::model::{CiCheckState, CiState, ReviewState};
use crate::refresh::{repo_slug, repo_slug_string, Category, UiPr};
use crate::text::{
    char_display_width, char_width, clone_strings, contains_string, control_char, decimal,
    display_width, has_substring, is_control_char, lowercase, pop_char, push_char, push_decimal,
    str_contains, str_eq, str_width, string_set, to_lower, trim_str, trimmed,
};

verus! {

/// Which view is shown.
#[derive(Debug, Clone, Copy, PartialEq, Eq, Structural)]
pub enum ViewMode {
    List,
    Details,
}

/// Which columns of the list are hidden.
#[derive(Debug, Clone, Copy)]
pub struct UiPrefs {
    pub hide_pr_numbers: bool,
    pub hide_repo: bool,
    pub hide_author: bool,
}

impl Default for UiPrefs {
    fn default() -> (r: Self)
        ensures
            !r.hide_pr_numbers && !r.hide_repo && !r.hide_author,
    {
        UiPrefs { hide_pr_numbers: false, hide_repo: false, hide_author: false }
    }
}

/// Seconds between automatic refreshes, by view.
#[derive(Debug, Clone, Copy)]
pub struct RefreshIntervals {
    pub list_secs: u64,
    pub details_secs: u64,
}

/// The state of the interactive session.
pub struct AppState {
    pub prs: Vec<UiPr>,
    /// Index into the visible rows of the list.
    pub selected_idx: usize,
    pub mode: ViewMode,
    /// Key of the pull request shown in the details view.
    pub details_pr_key: Option<String>,
    /// A refresh is in flight.
    pub refreshing: bool,
    /// Phase of the animation shown while refreshing.
    pub shimmer_phase: u8,
    /// The selected check in the details view.
    pub details_ci_selected: usize,
    /// When the details view last started an automatic refresh.
    pub details_last_auto_refresh: Option<u64>,
    /// When a refresh last started.
    pub last_refresh_started: Option<u64>,
    pub ui: UiPrefs,
    pub help_open: bool,
    pub filter_query: String,
    pub filter_editing: bool,
    pub filter_edit: String,
    pub filter_prev_query: String,
    pub only_needs_you: bool,
    pub only_failing_ci: bool,
    pub only_review_requested: bool,
    pub update_notice: Option<String>,
    /// The repositories of the list shown, for telling new ones.
    pub seen_repos: Vec<String>,
}

/// Seconds from `since` to `now`, zero if `now` is earlier.
pub open spec fn elapsed(since: u64, now: u64) -> u64 {
    if now >= since {
        (now - since) as u64
    } else {
        0
    }
}

/// Whether a timer that was last set at `last` has run for `interval`
/// seconds at `now`; a timer that was never set has.
pub open spec fn timer_due(last: Option<u64>, now: u64, interval: u64) -> bool {
    match last {
        Some(t) => elapsed(t, now) >= interval,
        None => true,
    }
}

/// Keeps a selection inside a list of `visible_len` rows.
pub fn clamp_selection(selected: &mut usize, visible_len: usize)
    ensures
        *final(selected) == (if visible_len == 0 {
            0
        } else if *old(selected) >= visible_len {
            (visible_len - 1) as usize
        } else {
            *old(selected)
        }),
{
    if visible_len == 0 {
        *selected = 0;
    } else if *selected >= visible_len {
        *selected = visible_len - 1;
    }
}

/// The repository slugs of `prs`, each once, in order of first appearance.
pub fn repos_of(prs: &Vec<UiPr>) -> (out: Vec<String>)
    ensures
        string_set(out@) == slugs_of(prs@),
        distinct(out@),
{
    let mut out: Vec<String> = Vec::new();
    let mut i: usize = 0;
    assert(string_set(out@) =~= slugs_of(prs@.take(0)));
    while i < prs.len()
        invariant
            i <= prs.len(),
            string_set(out@) == slugs_of(prs@.take(i as int)),
            distinct(out@),
        decreases prs.len() - i,
    {
        let slug = repo_slug_string(prs[i].pr.owner.as_str(), prs[i].pr.repo.as_str());
        let ghost before = out@;
        if !contains_string(&out, slug.as_str()) {
            out.push(slug);
            proof {
                assert(forall|j: int| 0 <= j < before.len() ==> out@[j] == before[j]);
                assert(string_set(before).insert(slug@) =~= string_set(out@)) by {
                    assert forall|k: Seq<char>| string_set(out@).contains(k) implies string_set(
                        before,
                    ).insert(slug@).contains(k) by {
                        let j = choose|j: int| 0 <= j < out@.len() && #[trigger] out@[j]@ == k;
                        if j < before.len() {
                            assert(before[j]@ == k);
                        }
                    }
                    assert forall|k: Seq<char>|
                        string_set(before).insert(slug@).contains(k) implies string_set(
                        out@,
                    ).contains(k) by {
                        if k == slug@ {
                            assert(out@[before.len() as int]@ == k);
                        } else {
                            let j = choose|j: int| 0 <= j < before.len() && #[trigger] before[j]@ == k;
                            assert(out@[j]@ == k);
                        }
                    }
                }
            }
        }
        proof {
            let t = prs@.take(i + 1);
            assert(forall|j: int| 0 <= j < i ==> t[j] == prs@.take(i as int)[j]);
            assert(slugs_of(t) =~= slugs_of(prs@.take(i as int)).insert(slug@)) by {
                assert forall|k: Seq<char>| slugs_of(t).contains(k) implies slugs_of(
                    prs@.take(i as int),
                ).insert(slug@).contains(k) by {
                    let j = choose|j: int| 0 <= j < t.len() && slug_of(#[trigger] t[j]) == k;
                    if j < i {
                        assert(slug_of(prs@.take(i as int)[j]) == k);
                    }
                }
                assert forall|k: Seq<char>|
                    slugs_of(prs@.take(i as int)).insert(slug@).contains(k) implies slugs_of(
                    t,
                ).contains(k) by {
                    if k == slug@ {
                        assert(slug_of(t[i as int]) == k);
                    } else {
                        let j = choose|j: int|
                            0 <= j < i && slug_of(#[trigger] prs@.take(i as int)[j]) == k;
                        assert(slug_of(t[j]) == k);
                    }
                }
            }
        }
        i = i + 1;
    }
    proof {
        assert(prs@.take(prs.len() as int) =~= prs@);
    }
    out
}

/// The repository slug of a pull request.
pub open spec fn slug_of(p: UiPr) -> Seq<char> {
    repo_slug(p.pr.owner@, p.pr.repo@)
}

/// The repository slugs of a list of pull requests.
pub open spec fn slugs_of(prs: Seq<UiPr>) -> Set<Seq<char>> {
    Set::new(|k: Seq<char>| exists|i: int| 0 <= i < prs.len() && slug_of(#[trigger] prs[i]) == k)
}

/// No two items hold the same characters.
pub open spec fn distinct(items: Seq<String>) -> bool {
    forall|i: int, j: int|
        0 <= i < j < items.len() ==> (#[trigger] items[i])@ != (#[trigger] items[j])@
}

impl AppState {
    /// The state at startup: the list view over `prs`, nothing selected
    /// beyond the first row, no filter, no refresh in flight, and the
    /// refresh timer started at `now`.
    pub fn new(prs: Vec<UiPr>, ui: UiPrefs, now: u64) -> (s: AppState)
        ensures
            s.prs == prs,
            s.ui == ui,
            s.selected_idx == 0,
            s.mode == ViewMode::List,
            s.details_pr_key.is_none(),
            !s.refreshing,
            s.shimmer_phase == 0,
            s.details_ci_selected == 0,
            s.details_last_auto_refresh.is_none(),
            s.last_refresh_started == Some(now),
            !s.help_open,
            s.filter_query@.len() == 0,
            !s.filter_editing,
            s.filter_edit@.len() == 0,
            s.filter_prev_query@.len() == 0,
            !s.only_needs_you && !s.only_failing_ci && !s.only_review_requested,
            s.update_notice.is_none(),
            string_set(s.seen_repos@) == slugs_of(prs@),
    {
        let seen_repos = repos_of(&prs);
        AppState {
            prs,
            selected_idx: 0,
            mode: ViewMode::List,
            details_pr_key: None,
            refreshing: false,
            shimmer_phase: 0,
            details_ci_selected: 0,
            details_last_auto_refresh: None,
            last_refresh_started: Some(now),
            ui,
            help_open: false,
            filter_query: String::new(),
            filter_editing: false,
            filter_edit: String::new(),
            filter_prev_query: String::new(),
            only_needs_you: false,
            only_failing_ci: false,
            only_review_requested: false,
            update_notice: None,
            seen_repos,
        }
    }

    /// An automatic refresh is due when none is in flight and the timer of
    /// the current view has run out: in the list the time since a refresh
    /// last started, in the details view the time since that view last
    /// started one by itself.
    pub open spec fn refresh_due(&self, now: u64, intervals: &RefreshIntervals) -> bool {
        !self.refreshing && match self.mode {
            ViewMode::List => timer_due(self.last_refresh_started, now, intervals.list_secs),
            ViewMode::Details => timer_due(
                self.details_last_auto_refresh,
                now,
                intervals.details_secs,
            ),
        }
    }

    pub fn auto_refresh_due(&self, now: u64, intervals: &RefreshIntervals) -> (r: bool)
        ensures
            r == self.refresh_due(now, intervals),
    {
        if self.refreshing {
            return false;
        }
        let (last, interval) = match self.mode {
            ViewMode::List => (self.last_refresh_started, intervals.list_secs),
            ViewMode::Details => (self.details_last_auto_refresh, intervals.details_secs),
        };
        match last {
            Some(t) => {
                let gone: u64 = if now >= t {
                    now - t
                } else {
                    0
                };
                gone >= interval
            },
            None => true,
        }
    }

    /// The state after a refresh has started at `now`.
    pub open spec fn refresh_started(self, now: u64) -> AppState {
        AppState { refreshing: true, shimmer_phase: 0, last_refresh_started: Some(now), ..self }
    }

    /// A request to refresh by hand. It is honoured at once whatever the
    /// timers say, and does nothing while a refresh is in flight. Returns
    /// whether a refresh is to be started.
    pub fn start_refresh(&mut self, now: u64) -> (started: bool)
        ensures
            started == !old(self).refreshing,
            *final(self) == (if started { old(self).refresh_started(now) } else { *old(self) }),
    {
        if self.refreshing {
            return false;
        }
        self.refreshing = true;
        self.shimmer_phase = 0;
        self.last_refresh_started = Some(now);
        true
    }

    /// Starts an automatic refresh if one is due at `now`. Returns whether a
    /// refresh is to be started.
    pub fn start_auto_refresh(&mut self, now: u64, intervals: &RefreshIntervals) -> (started: bool)
        ensures
            started == old(self).refresh_due(now, intervals),
            *final(self) == (if !started {
                *old(self)
            } else if old(self).mode == ViewMode::Details {
                AppState { details_last_auto_refresh: Some(now), ..old(self).refresh_started(now) }
            } else {
                old(self).refresh_started(now)
            }),
    {
        if !self.auto_refresh_due(now, intervals) {
            return false;
        }
        if matches!(self.mode, ViewMode::Details) {
            self.details_last_auto_refresh = Some(now);
        }
        self.refreshing = true;
        self.shimmer_phase = 0;
        self.last_refresh_started = Some(now);
        true
    }

    /// Moves the animation on by one phase while a refresh is in flight.
    pub fn advance_shimmer(&mut self)
        ensures
            *final(self) == (if old(self).refreshing {
                AppState { shimmer_phase: old(self).shimmer_phase.wrapping_add(1), ..*old(self) }
            } else {
                *old(self)
            }),
    {
        if self.refreshing {
            self.shimmer_phase = self.shimmer_phase.wrapping_add(1);
        }
    }

    /// A refresh failed, or its worker went away: the flag is cleared and
    /// the list stays as it was.
    pub fn refresh_failed(&mut self)
        ensures
            *final(self) == (AppState { refreshing: false, ..*old(self) }),
    {
        self.refreshing = false;
    }
}

/// At most one refresh is in flight: a request made while one is in flight
/// starts none and changes nothing, and after a request one is in flight.
pub proof fn lemma_one_refresh_in_flight(s: AppState, now: u64, intervals: &RefreshIntervals)
    ensures
        s.refreshing ==> !s.refresh_due(now, intervals),
        s.refresh_started(now).refreshing,
        !s.refresh_started(now).refresh_due(now, intervals),
{
}

/// The positions at which `mask` holds, in rising order.
pub open spec fn picked(mask: Seq<bool>) -> Seq<usize>
    decreases mask.len(),
{
    if mask.len() == 0 {
        Seq::empty()
    } else if mask.last() {
        picked(mask.drop_last()).push((mask.len() - 1) as usize)
    } else {
        picked(mask.drop_last())
    }
}

/// Every picked position is a position of the mask at which it holds.
pub proof fn lemma_picked(mask: Seq<bool>)
    requires
        mask.len() <= usize::MAX,
    ensures
        picked(mask).len() <= mask.len(),
        forall|k: int|
            0 <= k < picked(mask).len() ==> (#[trigger] picked(mask)[k]) < mask.len() && mask[picked(
                mask,
            )[k] as int],
        forall|i: int|
            0 <= i < mask.len() && mask[i] ==> exists|k: int|
                0 <= k < picked(mask).len() && #[trigger] picked(mask)[k] == i,
    decreases mask.len(),
{
    if mask.len() > 0 {
        let rest = mask.drop_last();
        lemma_picked(rest);
        assert forall|i: int| 0 <= i < mask.len() && mask[i] implies exists|k: int|
            0 <= k < picked(mask).len() && #[trigger] picked(mask)[k] == i by {
            if i < rest.len() {
                assert(rest[i]);
                let k = choose|k: int| 0 <= k < picked(rest).len() && #[trigger] picked(rest)[k] == i;
                assert(picked(mask)[k] == i);
            } else {
                assert(mask.last());
                assert(picked(mask) == picked(rest).push((mask.len() - 1) as usize));
                assert(picked(mask)[picked(mask).len() - 1] == i);
            }
        }
    }
}

/// The positions at which `mask` holds, in rising order.
pub fn pick(mask: &Vec<bool>) -> (out: Vec<usize>)
    ensures
        out@ == picked(mask@),
{
    let mut out: Vec<usize> = Vec::new();
    let mut i: usize = 0;
    while i < mask.len()
        invariant
            i <= mask.len(),
            out@ == picked(mask@.take(i as int)),
        decreases mask.len() - i,
    {
        proof {
            assert(mask@.take(i + 1).drop_last() =~= mask@.take(i as int));
        }
        if mask[i] {
            out.push(i);
        }
        i = i + 1;
    }
    proof {
        assert(mask@.take(mask.len() as int) =~= mask@);
    }
    out
}

/// The first `n` items of `s`, or all of them where there are fewer.
pub open spec fn first_n<T>(s: Seq<T>, n: int) -> Seq<T> {
    if s.len() <= n {
        s
    } else {
        s.take(n)
    }
}

/// Cuts `v` down to its first `n` items.
pub fn keep_first(v: Vec<usize>, n: usize) -> (out: Vec<usize>)
    ensures
        out@ == first_n(v@, n as int),
{
    let mut out = v;
    let ghost before = out@;
    if out.len() > n {
        out.truncate(n);
        proof {
            assert(out@ =~= before.take(n as int));
        }
    }
    out
}

/// Whether a query finds a pull request, given the texts to search: the
/// query trimmed, and the same in lower case; the repository slug, the
/// author and the title in lower case; and `#` with the number. An empty
/// trimmed query finds everything; else the lowered query must occur in the
/// slug, the author or the title, or the trimmed query in the number text.
pub open spec fn terms_hit(
    trimmed_query: Seq<char>,
    lowered_query: Seq<char>,
    repo: Seq<char>,
    author: Seq<char>,
    title: Seq<char>,
    number_text: Seq<char>,
) -> bool {
    trimmed_query.len() == 0 || has_substring(repo, lowered_query) || has_substring(
        author,
        lowered_query,
    ) || has_substring(title, lowered_query) || has_substring(number_text, trimmed_query)
}

/// Whether a query finds a pull request, given the texts to search.
pub fn filter_hits(
    trimmed_query: &str,
    lowered_query: &str,
    repo: &str,
    author: &str,
    title: &str,
    number_text: &str,
) -> (r: bool)
    ensures
        r == terms_hit(trimmed_query@, lowered_query@, repo@, author@, title@, number_text@),
{
    trimmed_query.is_empty() || str_contains(repo, lowered_query) || str_contains(
        author,
        lowered_query,
    ) || str_contains(title, lowered_query) || str_contains(number_text, trimmed_query)
}

/// Whether the free-text filter `query` lets a pull request through: an
/// empty or blank query lets everything through; otherwise the trimmed
/// query must occur, whatever its case, in the repository slug, the author
/// or the title, or as typed in `#` and the number.
pub open spec fn filter_admits(p: &UiPr, query: Seq<char>) -> bool {
    terms_hit(
        trimmed(query),
        lowercase(trimmed(query)),
        lowercase(repo_slug(p.pr.owner@, p.pr.repo@)),
        lowercase(p.pr.author@),
        lowercase(p.pr.title@),
        "#"@ + decimal(p.pr.number as int),
    )
}

pub fn matches_filter(pr: &UiPr, query: &str) -> (r: bool)
    ensures
        r == filter_admits(pr, query@),
        query@.len() == 0 ==> r,
{
    let t = trim_str(query);
    let q = to_lower(t);
    let slug = repo_slug_string(pr.pr.owner.as_str(), pr.pr.repo.as_str());
    let repo = to_lower(slug.as_str());
    let author = to_lower(pr.pr.author.as_str());
    let title = to_lower(pr.pr.title.as_str());
    let mut num = "#".to_string();
    push_decimal(&mut num, pr.pr.number);
    filter_hits(t, q.as_str(), repo.as_str(), author.as_str(), title.as_str(), num.as_str())
}

/// Whether the filters let a pull request through: each predicate that is
/// switched on, and the free-text query.
pub open spec fn row_passes(
    p: &UiPr,
    query: Seq<char>,
    only_needs_you: bool,
    only_failing_ci: bool,
    only_review_requested: bool,
) -> bool {
    &&& only_needs_you ==> p.category == Category::NeedsYou
    &&& only_failing_ci ==> p.pr.ci_state == CiState::Failure
    &&& only_review_requested ==> p.pr.review_state == ReviewState::Requested
    &&& filter_admits(p, query)
}

/// For each pull request, whether the filters let it through.
pub open spec fn pass_mask(
    prs: Seq<UiPr>,
    query: Seq<char>,
    only_needs_you: bool,
    only_failing_ci: bool,
    only_review_requested: bool,
) -> Seq<bool> {
    Seq::new(
        prs.len(),
        |i: int| row_passes(&prs[i], query, only_needs_you, only_failing_ci, only_review_requested),
    )
}

/// The positions in `state_prs` of the pull requests that the filters let
/// through, in rising order.
pub fn filtered_indices(
    state_prs: &Vec<UiPr>,
    query: &str,
    only_needs_you: bool,
    only_failing_ci: bool,
    only_review_requested: bool,
) -> (out: Vec<usize>)
    ensures
        out@ == picked(
            pass_mask(state_prs@, query@, only_needs_you, only_failing_ci, only_review_requested),
        ),
{
    let mut mask: Vec<bool> = Vec::new();
    let mut i: usize = 0;
    while i < state_prs.len()
        invariant
            i <= state_prs.len(),
            mask@.len() == i,
            forall|j: int|
                0 <= j < i ==> mask@[j] == row_passes(
                    &state_prs@[j],
                    query@,
                    only_needs_you,
                    only_failing_ci,
                    only_review_requested,
                ),
        decreases state_prs.len() - i,
    {
        let pr = &state_prs[i];
        let pass = !(only_needs_you && !matches!(pr.category, Category::NeedsYou)) && !(
        only_failing_ci && !matches!(pr.pr.ci_state, CiState::Failure)) && !(only_review_requested
            && !matches!(pr.pr.review_state, ReviewState::Requested)) && matches_filter(pr, query);
        mask.push(pass);
        i = i + 1;
    }
    proof {
        assert(mask@ =~= pass_mask(
            state_prs@,
            query@,
            only_needs_you,
            only_failing_ci,
            only_review_requested,
        ));
    }
    pick(&mask)
}

/// The partition of the list a pull request is shown in.
#[derive(Debug, Clone, Copy, PartialEq, Eq, Structural)]
pub enum Section {
    ReadyToMerge,
    NeedsYou,
    Waiting,
    Stale,
    Draft,
}

/// A draft is shown among the drafts whatever its score; any other pull
/// request in the section of its category.
pub open spec fn section_of(p: &UiPr) -> Section {
    if p.pr.is_draft {
        Section::Draft
    } else {
        match p.category {
            Category::ReadyToMerge => Section::ReadyToMerge,
            Category::NeedsYou => Section::NeedsYou,
            Category::Waiting => Section::Waiting,
            Category::Stale => Section::Stale,
        }
    }
}

pub fn section_for(p: &UiPr) -> (s: Section)
    ensures
        s == section_of(p),
{
    if p.pr.is_draft {
        Section::Draft
    } else {
        match p.category {
            Category::ReadyToMerge => Section::ReadyToMerge,
            Category::NeedsYou => Section::NeedsYou,
            Category::Waiting => Section::Waiting,
            Category::Stale => Section::Stale,
        }
    }
}

/// The heading of a category's section.
pub fn category_title(cat: Category) -> (r: &'static str)
    ensures
        r@ == (match cat {
            Category::NeedsYou => "🔥 NEEDS YOU"@,
            Category::ReadyToMerge => "🚢 READY TO MERGE"@,
            Category::Waiting => "✅ NO ACTION NEEDED"@,
            Category::Stale => "⏳ WAITING ON OTHERS"@,
        }),
{
    match cat {
        Category::NeedsYou => "🔥 NEEDS YOU",
        Category::ReadyToMerge => "🚢 READY TO MERGE",
        Category::Waiting => "✅ NO ACTION NEEDED",
        Category::Stale => "⏳ WAITING ON OTHERS",
    }
}

/// Those of `filtered` that are positions in `prs` of pull requests shown
/// in `section`, in their order.
pub open spec fn section_rows(prs: Seq<UiPr>, filtered: Seq<usize>, section: Section) -> Seq<usize>
    decreases filtered.len(),
{
    if filtered.len() == 0 {
        Seq::empty()
    } else {
        let rest = section_rows(prs, filtered.drop_last(), section);
        let idx = filtered.last();
        if idx < prs.len() && section_of(&prs[idx as int]) == section {
            rest.push(idx)
        } else {
            rest
        }
    }
}

pub fn rows_in_section(prs: &Vec<UiPr>, filtered: &Vec<usize>, section: Section) -> (out: Vec<usize>)
    ensures
        out@ == section_rows(prs@, filtered@, section),
{
    let mut out: Vec<usize> = Vec::new();
    let mut i: usize = 0;
    while i < filtered.len()
        invariant
            i <= filtered.len(),
            out@ == section_rows(prs@, filtered@.take(i as int), section),
        decreases filtered.len() - i,
    {
        proof {
            assert(filtered@.take(i + 1).drop_last() =~= filtered@.take(i as int));
        }
        let idx = filtered[i];
        if idx < prs.len() && section_for(&prs[idx]) == section {
            out.push(idx);
        }
        i = i + 1;
    }
    proof {
        assert(filtered@.take(filtered.len() as int) =~= filtered@);
    }
    out
}

/// The order in which the list shows the filtered pull requests: ready to
/// merge, needs you, no action needed, waiting on others, then the drafts.
pub open spec fn visible_order(prs: Seq<UiPr>, filtered: Seq<usize>) -> Seq<usize> {
    section_rows(prs, filtered, Section::ReadyToMerge) + section_rows(
        prs,
        filtered,
        Section::NeedsYou,
    ) + section_rows(prs, filtered, Section::Waiting) + section_rows(prs, filtered, Section::Stale)
        + section_rows(prs, filtered, Section::Draft)
}

pub fn visible_rows(prs: &Vec<UiPr>, filtered: &Vec<usize>) -> (out: Vec<usize>)
    ensures
        out@ == visible_order(prs@, filtered@),
{
    let mut out = rows_in_section(prs, filtered, Section::ReadyToMerge);
    let mut b = rows_in_section(prs, filtered, Section::NeedsYou);
    let mut c = rows_in_section(prs, filtered, Section::Waiting);
    let mut d = rows_in_section(prs, filtered, Section::Stale);
    let mut e = rows_in_section(prs, filtered, Section::Draft);
    out.append(&mut b);
    out.append(&mut c);
    out.append(&mut d);
    out.append(&mut e);
    out
}

/// Every row shown is a position in the list.
pub proof fn lemma_section_rows_in_range(prs: Seq<UiPr>, filtered: Seq<usize>, section: Section)
    ensures
        forall|k: int|
            0 <= k < section_rows(prs, filtered, section).len() ==> (#[trigger] section_rows(
                prs,
                filtered,
                section,
            )[k]) < prs.len() && section_of(&prs[section_rows(prs, filtered, section)[k] as int])
                == section,
    decreases filtered.len(),
{
    if filtered.len() > 0 {
        lemma_section_rows_in_range(prs, filtered.drop_last(), section);
    }
}

/// Most notifications sent for one kind of event after one refresh.
pub const MAX_ALERTS_PER_KIND: usize = 3;

/// What to signal after a refresh has brought a new list. The positions
/// are positions in the new list.
pub struct Alerts {
    /// Ring the terminal bell.
    pub bell: bool,
    /// Repositories seen for the first time.
    pub new_repos: Vec<String>,
    /// Pull requests whose CI failure is new.
    pub ci_failures: Vec<usize>,
    /// Pull requests whose review request is new.
    pub review_requests: Vec<usize>,
    /// How many pull requests have come to need the viewer.
    pub entered_needs_you: usize,
    /// Pull requests that have become ready to merge.
    pub ready_to_merge: Vec<usize>,
}

/// The list `prev` held the pull request `key` in the category `cat`.
pub open spec fn was_in(prev: Seq<UiPr>, cat: Category, key: Seq<char>) -> bool {
    exists|j: int| 0 <= j < prev.len() && (#[trigger] prev[j]).category == cat && prev[j].pr.pr_key@ == key
}

/// For each pull request of `next`, whether it has entered the category
/// `cat`: it is there now and was not there in `prev`.
pub open spec fn entered_mask(prev: Seq<UiPr>, next: Seq<UiPr>, cat: Category) -> Seq<bool> {
    Seq::new(next.len(), |i: int| next[i].category == cat && !was_in(prev, cat, next[i].pr.pr_key@))
}

/// For each pull request, whether its CI failure is new.
pub open spec fn failure_mask(next: Seq<UiPr>) -> Seq<bool> {
    Seq::new(next.len(), |i: int| next[i].is_new_ci_failure)
}

/// For each pull request, whether its review request is new.
pub open spec fn review_mask(next: Seq<UiPr>) -> Seq<bool> {
    Seq::new(next.len(), |i: int| next[i].is_new_review_request)
}

/// `out` lists, each once, the repositories of `next` that are not in `seen`.
pub open spec fn fresh_repos(out: Seq<String>, next: Seq<UiPr>, seen: Seq<String>) -> bool {
    distinct(out) && string_set(out) == slugs_of(next).difference(string_set(seen))
}

/// `a` is what to signal when the list `next` replaces `prev`, with the
/// repositories `seen` already known.
pub open spec fn alerts_for(
    a: &Alerts,
    prev: Seq<UiPr>,
    next: Seq<UiPr>,
    seen: Seq<String>,
    bell_enabled: bool,
    notify_enabled: bool,
) -> bool {
    let needs = picked(entered_mask(prev, next, Category::NeedsYou));
    let ready = picked(entered_mask(prev, next, Category::ReadyToMerge));
    let failures = picked(failure_mask(next));
    let reviews = picked(review_mask(next));
    &&& a.bell == (bell_enabled && (needs.len() > 0 || failures.len() > 0))
    &&& notify_enabled ==> {
        &&& fresh_repos(a.new_repos@, next, seen)
        &&& a.ci_failures@ == first_n(failures, MAX_ALERTS_PER_KIND as int)
        &&& a.review_requests@ == first_n(reviews, MAX_ALERTS_PER_KIND as int)
        &&& a.entered_needs_you == needs.len()
        &&& a.ready_to_merge@ == first_n(ready, MAX_ALERTS_PER_KIND as int)
    }
    &&& !notify_enabled ==> {
        &&& a.new_repos@.len() == 0
        &&& a.ci_failures@.len() == 0
        &&& a.review_requests@.len() == 0
        &&& a.entered_needs_you == 0
        &&& a.ready_to_merge@.len() == 0
    }
}

/// Whether `prev` held the pull request `key` in the category `cat`.
pub fn was_in_category(prev: &Vec<UiPr>, cat: Category, key: &str) -> (r: bool)
    ensures
        r == was_in(prev@, cat, key@),
{
    let mut j: usize = 0;
    while j < prev.len()
        invariant
            j <= prev.len(),
            forall|k: int|
                0 <= k < j ==> !((#[trigger] prev@[k]).category == cat && prev@[k].pr.pr_key@ == key@),
        decreases prev.len() - j,
    {
        if prev[j].category == cat && str_eq(prev[j].pr.pr_key.as_str(), key) {
            return true;
        }
        j = j + 1;
    }
    false
}

/// The positions in `next` of the pull requests that have entered `cat`.
pub fn entered(prev: &Vec<UiPr>, next: &Vec<UiPr>, cat: Category) -> (out: Vec<usize>)
    ensures
        out@ == picked(entered_mask(prev@, next@, cat)),
{
    let mut mask: Vec<bool> = Vec::new();
    let mut i: usize = 0;
    while i < next.len()
        invariant
            i <= next.len(),
            mask@.len() == i,
            forall|j: int|
                0 <= j < i ==> mask@[j] == (next@[j].category == cat && !was_in(
                    prev@,
                    cat,
                    next@[j].pr.pr_key@,
                )),
        decreases next.len() - i,
    {
        let hit = next[i].category == cat && !was_in_category(
            prev,
            cat,
            next[i].pr.pr_key.as_str(),
        );
        mask.push(hit);
        i = i + 1;
    }
    proof {
        assert(mask@ =~= entered_mask(prev@, next@, cat));
    }
    pick(&mask)
}

/// The positions of the pull requests with a new CI failure, and of those
/// with a new review request.
pub fn flagged(next: &Vec<UiPr>) -> (out: (Vec<usize>, Vec<usize>))
    ensures
        out.0@ == picked(failure_mask(next@)),
        out.1@ == picked(review_mask(next@)),
{
    let mut failures: Vec<bool> = Vec::new();
    let mut reviews: Vec<bool> = Vec::new();
    let mut i: usize = 0;
    while i < next.len()
        invariant
            i <= next.len(),
            failures@.len() == i,
            reviews@.len() == i,
            forall|j: int| 0 <= j < i ==> failures@[j] == next@[j].is_new_ci_failure,
            forall|j: int| 0 <= j < i ==> reviews@[j] == next@[j].is_new_review_request,
        decreases next.len() - i,
    {
        failures.push(next[i].is_new_ci_failure);
        reviews.push(next[i].is_new_review_request);
        i = i + 1;
    }
    proof {
        assert(failures@ =~= failure_mask(next@));
        assert(reviews@ =~= review_mask(next@));
    }
    (pick(&failures), pick(&reviews))
}

/// Those of `all` that are not in `seen`, in their order.
fn not_seen(all: Vec<String>, seen: &Vec<String>) -> (out: Vec<String>)
    requires
        distinct(all@),
    ensures
        distinct(out@),
        string_set(out@) == string_set(all@).difference(string_set(seen@)),
{
    let mut out: Vec<String> = Vec::new();
    let mut i: usize = 0;
    assert(string_set(out@) =~= string_set(all@.take(0)).difference(string_set(seen@)));
    while i < all.len()
        invariant
            i <= all.len(),
            distinct(all@),
            distinct(out@),
            string_set(out@) == string_set(all@.take(i as int)).difference(string_set(seen@)),
        decreases all.len() - i,
    {
        let ghost before = out@;
        let ghost head = all@.take(i as int);
        let ghost next = all@.take(i + 1);
        let ghost item = all@[i as int]@;
        proof {
            assert(forall|j: int| 0 <= j < i ==> next[j] == head[j]);
            assert(string_set(next) =~= string_set(head).insert(item)) by {
                assert forall|k: Seq<char>| string_set(next).contains(k) implies string_set(
                    head,
                ).insert(item).contains(k) by {
                    let j = choose|j: int| 0 <= j < next.len() && #[trigger] next[j]@ == k;
                    if j < i {
                        assert(head[j]@ == k);
                    }
                }
                assert forall|k: Seq<char>|
                    string_set(head).insert(item).contains(k) implies string_set(next).contains(
                    k,
                ) by {
                    if k == item {
                        assert(next[i as int]@ == k);
                    } else {
                        let j = choose|j: int| 0 <= j < head.len() && #[trigger] head[j]@ == k;
                        assert(next[j]@ == k);
                    }
                }
            }
            assert(!string_set(head).contains(item)) by {
                if string_set(head).contains(item) {
                    let j = choose|j: int| 0 <= j < head.len() && #[trigger] head[j]@ == item;
                    assert(all@[j]@ == all@[i as int]@);
                }
            }
        }
        if !contains_string(seen, all[i].as_str()) {
            out.push(all[i].clone());
            proof {
                assert(forall|j: int| 0 <= j < before.len() ==> out@[j] == before[j]);
                assert(string_set(out@) =~= string_set(before).insert(item)) by {
                    assert forall|k: Seq<char>| string_set(out@).contains(k) implies string_set(
                        before,
                    ).insert(item).contains(k) by {
                        let j = choose|j: int| 0 <= j < out@.len() && #[trigger] out@[j]@ == k;
                        if j < before.len() {
                            assert(before[j]@ == k);
                        }
                    }
                    assert forall|k: Seq<char>|
                        string_set(before).insert(item).contains(k) implies string_set(
                        out@,
                    ).contains(k) by {
                        if k == item {
                            assert(out@[before.len() as int]@ == k);
                        } else {
                            let j = choose|j: int|
                                0 <= j < before.len() && #[trigger] before[j]@ == k;
                            assert(out@[j]@ == k);
                        }
                    }
                }
                assert(!string_set(before).contains(item));
                assert forall|a: int, b: int| 0 <= a < b < out@.len() implies (#[trigger] out@[a])@
                    != (#[trigger] out@[b])@ by {
                    if b == before.len() {
                        assert(before[a]@ != item) by {
                            if before[a]@ == item {
                                assert(string_set(before).contains(item));
                            }
                        }
                    } else {
                        assert(before[a]@ != before[b]@);
                    }
                }
                assert(string_set(out@) =~= string_set(next).difference(string_set(seen@)));
            }
        } else {
            proof {
                assert(string_set(out@) =~= string_set(next).difference(string_set(seen@)));
            }
        }
        i = i + 1;
    }
    proof {
        assert(all@.take(all.len() as int) =~= all@);
    }
    out
}

impl AppState {
    /// A refresh has brought `new_prs`: what is to be signalled is worked
    /// out against the list shown so far, then the new list replaces it as a
    /// whole and the refresh is no longer in flight.
    pub fn refresh_completed(&mut self, new_prs: Vec<UiPr>, bell_enabled: bool, notify_enabled: bool) -> (alerts:
        Alerts)
        ensures
            alerts_for(
                &alerts,
                old(self).prs@,
                new_prs@,
                old(self).seen_repos@,
                bell_enabled,
                notify_enabled,
            ),
            final(self).prs == new_prs,
            !final(self).refreshing,
            distinct(final(self).seen_repos@),
            string_set(final(self).seen_repos@) == slugs_of(new_prs@),
            *final(self) == (AppState {
                prs: final(self).prs,
                refreshing: false,
                seen_repos: final(self).seen_repos,
                ..*old(self)
            }),
    {
        let needs = entered(&self.prs, &new_prs, Category::NeedsYou);
        let ready = entered(&self.prs, &new_prs, Category::ReadyToMerge);
        let (failures, reviews) = flagged(&new_prs);
        let current = repos_of(&new_prs);
        let bell = bell_enabled && (needs.len() > 0 || failures.len() > 0);
        let alerts = if notify_enabled {
            Alerts {
                bell,
                new_repos: not_seen(clone_strings(&current), &self.seen_repos),
                ci_failures: keep_first(failures, MAX_ALERTS_PER_KIND),
                review_requests: keep_first(reviews, MAX_ALERTS_PER_KIND),
                entered_needs_you: needs.len(),
                ready_to_merge: keep_first(ready, MAX_ALERTS_PER_KIND),
            }
        } else {
            Alerts {
                bell,
                new_repos: Vec::new(),
                ci_failures: Vec::new(),
                review_requests: Vec::new(),
                entered_needs_you: 0,
                ready_to_merge: Vec::new(),
            }
        };
        self.seen_repos = current;
        self.prs = new_prs;
        self.refreshing = false;
        alerts
    }
}

/// A key press, as far as the state machine tells keys apart.
#[derive(Debug, Clone, Copy, PartialEq, Eq)]
pub enum Key {
    /// A character key.
    Char(char),
    /// A character key pressed together with Control.
    Ctrl(char),
    Up,
    Down,
    Esc,
    Backspace,
    Enter,
    Tab,
    /// Any other key.
    Other,
}

/// What the caller is to do after a key press.
pub enum Action {
    Nothing,
    /// Leave the session.
    Quit,
    /// Start the refresh pipeline in the background.
    StartRefresh,
    /// Hand `url` to the opener and record in the cache that the pull
    /// request `pr_key` was opened at `opened_at`.
    Open { url: String, pr_key: String, opened_at: i64 },
}

/// The model of an action.
pub enum ActionView {
    Nothing,
    Quit,
    StartRefresh,
    Open { url: Seq<char>, pr_key: Seq<char>, opened_at: i64 },
}

impl View for Action {
    type V = ActionView;

    open spec fn view(&self) -> ActionView {
        match self {
            Action::Nothing => ActionView::Nothing,
            Action::Quit => ActionView::Quit,
            Action::StartRefresh => ActionView::StartRefresh,
            Action::Open { url, pr_key, opened_at } => ActionView::Open {
                url: url@,
                pr_key: pr_key@,
                opened_at: *opened_at,
            },
        }
    }
}

/// The model of the session state: every text as its characters.
pub struct AppView {
    pub prs: Seq<UiPr>,
    pub selected_idx: usize,
    pub mode: ViewMode,
    pub details_pr_key: Option<Seq<char>>,
    pub refreshing: bool,
    pub shimmer_phase: u8,
    pub details_ci_selected: usize,
    pub details_last_auto_refresh: Option<u64>,
    pub last_refresh_started: Option<u64>,
    pub ui: UiPrefs,
    pub help_open: bool,
    pub filter_query: Seq<char>,
    pub filter_editing: bool,
    pub filter_edit: Seq<char>,
    pub filter_prev_query: Seq<char>,
    pub only_needs_you: bool,
    pub only_failing_ci: bool,
    pub only_review_requested: bool,
    pub update_notice: Option<Seq<char>>,
    pub seen_repos: Seq<String>,
}

impl View for AppState {
    type V = AppView;

    open spec fn view(&self) -> AppView {
        AppView {
            prs: self.prs@,
            selected_idx: self.selected_idx,
            mode: self.mode,
            details_pr_key: match self.details_pr_key {
                Some(k) => Some(k@),
                None => None,
            },
            refreshing: self.refreshing,
            shimmer_phase: self.shimmer_phase,
            details_ci_selected: self.details_ci_selected,
            details_last_auto_refresh: self.details_last_auto_refresh,
            last_refresh_started: self.last_refresh_started,
            ui: self.ui,
            help_open: self.help_open,
            filter_query: self.filter_query@,
            filter_editing: self.filter_editing,
            filter_edit: self.filter_edit@,
            filter_prev_query: self.filter_prev_query@,
            only_needs_you: self.only_needs_you,
            only_failing_ci: self.only_failing_ci,
            only_review_requested: self.only_review_requested,
            update_notice: match self.update_notice {
                Some(n) => Some(n@),
                None => None,
            },
            seen_repos: self.seen_repos@,
        }
    }
}

/// The character of a character key, with or without Control.
pub open spec fn key_char(key: Key) -> Option<char> {
    match key {
        Key::Char(c) => Some(c),
        Key::Ctrl(c) => Some(c),
        _ => None,
    }
}

/// The selection after a step up in a list of `n` rows: it wraps to the
/// last row from the first.
pub open spec fn moved_up(sel: usize, n: int) -> usize {
    if n == 0 {
        sel
    } else if sel == 0 {
        (n - 1) as usize
    } else {
        (sel - 1) as usize
    }
}

/// The selection after a step down in a list of `n` rows: it wraps to the
/// first row from the last.
pub open spec fn moved_down(sel: usize, n: int) -> usize {
    if n == 0 {
        sel
    } else if sel + 1 >= n {
        0
    } else {
        (sel + 1) as usize
    }
}

/// The position in `prs` of the first pull request with key `key`.
pub open spec fn first_with_key(prs: Seq<UiPr>, key: Seq<char>) -> Option<int>
    decreases prs.len(),
{
    if prs.len() == 0 {
        None
    } else {
        let before = first_with_key(prs.drop_last(), key);
        if before.is_some() {
            before
        } else if prs.last().pr.pr_key@ == key {
            Some(prs.len() - 1)
        } else {
            None
        }
    }
}

/// The position of the first failing check.
pub open spec fn first_failing(checks: Seq<crate::model::CiCheck>) -> Option<int>
    decreases checks.len(),
{
    if checks.len() == 0 {
        None
    } else {
        let before = first_failing(checks.drop_last());
        if before.is_some() {
            before
        } else if checks.last().state == CiCheckState::Failure {
            Some(checks.len() - 1)
        } else {
            None
        }
    }
}

/// The address to open for a pull request and, maybe, one of its checks:
/// that of the check where it has one, else that of the pull request.
pub open spec fn open_target(p: UiPr, check: Option<int>) -> Seq<char> {
    if check.is_some() && 0 <= check.unwrap() < p.pr.ci_checks@.len()
        && p.pr.ci_checks@[check.unwrap()].url.is_some() {
        p.pr.ci_checks@[check.unwrap()].url.unwrap()@
    } else {
        p.pr.url@
    }
}

/// The position in the list of the pull request that the selection is on.
pub open spec fn selected_pr(v: AppView, visible: Seq<usize>) -> Option<int> {
    if v.selected_idx < visible.len() && visible[v.selected_idx as int] < v.prs.len() {
        Some(visible[v.selected_idx as int] as int)
    } else {
        None
    }
}

/// The position in the list of the pull request shown in the details view.
pub open spec fn details_pr(v: AppView) -> Option<int> {
    match v.details_pr_key {
        Some(k) => first_with_key(v.prs, k),
        None => None,
    }
}

/// The state and the action after the pull request at `idx` was opened at
/// `wall`, by the address of its check `check` if it has one.
pub open spec fn opened_step(v: AppView, idx: int, check: Option<int>, wall: i64) -> (
    AppView,
    ActionView,
) {
    (
        AppView {
            prs: v.prs.update(idx, UiPr { last_opened_at: Some(wall), ..v.prs[idx] }),
            ..v
        },
        ActionView::Open {
            url: open_target(v.prs[idx], check),
            pr_key: v.prs[idx].pr.pr_key@,
            opened_at: wall,
        },
    )
}

/// The state with every filter cleared and the selection on the first row.
pub open spec fn filters_cleared(v: AppView) -> AppView {
    AppView {
        filter_query: Seq::empty(),
        only_needs_you: false,
        only_failing_ci: false,
        only_review_requested: false,
        selected_idx: 0,
        ..v
    }
}

/// A key press while the help is open: `?`, Esc and `q` close it.
pub open spec fn help_step(v: AppView, key: Key) -> AppView {
    if key == Key::Esc || key_char(key) == Some('?') || key_char(key) == Some('q') {
        AppView { help_open: false, ..v }
    } else {
        v
    }
}

/// A key press while the filter is being typed.
pub open spec fn editing_step(v: AppView, key: Key, visible: Seq<usize>, wall: i64) -> (
    AppView,
    ActionView,
) {
    let in_list = v.mode == ViewMode::List;
    match key {
        Key::Up => (
            if in_list {
                AppView { selected_idx: moved_up(v.selected_idx, visible.len() as int), ..v }
            } else {
                v
            },
            ActionView::Nothing,
        ),
        Key::Down => (
            if in_list {
                AppView { selected_idx: moved_down(v.selected_idx, visible.len() as int), ..v }
            } else {
                v
            },
            ActionView::Nothing,
        ),
        Key::Esc => (
            AppView {
                filter_prev_query: Seq::empty(),
                filter_edit: Seq::empty(),
                filter_query: Seq::empty(),
                filter_editing: false,
                selected_idx: 0,
                ..v
            },
            ActionView::Nothing,
        ),
        Key::Backspace => {
            let edit = if v.filter_edit.len() > 0 { v.filter_edit.drop_last() } else { v.filter_edit };
            (AppView { filter_edit: edit, filter_query: edit, ..v }, ActionView::Nothing)
        },
        Key::Enter => {
            let done = AppView { filter_editing: false, filter_edit: Seq::empty(), ..v };
            if in_list && selected_pr(v, visible).is_some() {
                opened_step(done, selected_pr(v, visible).unwrap(), None, wall)
            } else {
                (done, ActionView::Nothing)
            }
        },
        Key::Ctrl(c) => if c == 'x' {
            (
                AppView {
                    filter_prev_query: Seq::empty(),
                    filter_edit: Seq::empty(),
                    ..filters_cleared(v)
                },
                ActionView::Nothing,
            )
        } else if c == 'n' {
            (AppView { only_needs_you: !v.only_needs_you, selected_idx: 0, ..v }, ActionView::Nothing)
        } else if c == 'c' {
            (AppView { only_failing_ci: !v.only_failing_ci, selected_idx: 0, ..v }, ActionView::Nothing)
        } else if c == 'v' {
            (
                AppView { only_review_requested: !v.only_review_requested, selected_idx: 0, ..v },
                ActionView::Nothing,
            )
        } else {
            (typed(v, c), ActionView::Nothing)
        },
        Key::Char(c) => (typed(v, c), ActionView::Nothing),
        _ => (v, ActionView::Nothing),
    }
}

/// The state after `c` was typed into the filter: a control character is
/// dropped, any other is appended and the filter applies at once.
pub open spec fn typed(v: AppView, c: char) -> AppView {
    if control_char(c) {
        v
    } else {
        AppView { filter_edit: v.filter_edit.push(c), filter_query: v.filter_edit.push(c), ..v }
    }
}

/// A key press in the list or the details view, outside the help and the
/// typing of a filter.
pub open spec fn normal_step(v: AppView, key: Key, visible: Seq<usize>, now: u64, wall: i64) -> (
    AppView,
    ActionView,
) {
    let in_list = v.mode == ViewMode::List;
    let none = ActionView::Nothing;
    match key {
        Key::Esc => (
            if in_list && (v.filter_query.len() > 0 || v.only_needs_you || v.only_failing_ci
                || v.only_review_requested) {
                filters_cleared(v)
            } else {
                v
            },
            none,
        ),
        Key::Tab => if in_list {
            if selected_pr(v, visible).is_some() {
                (
                    AppView {
                        details_pr_key: Some(v.prs[selected_pr(v, visible).unwrap()].pr.pr_key@),
                        mode: ViewMode::Details,
                        details_ci_selected: 0,
                        details_last_auto_refresh: Some(now),
                        ..v
                    },
                    none,
                )
            } else {
                (v, none)
            }
        } else {
            (AppView { mode: ViewMode::List, details_last_auto_refresh: None, ..v }, none)
        },
        Key::Up => (
            if in_list {
                AppView { selected_idx: moved_up(v.selected_idx, visible.len() as int), ..v }
            } else if v.details_ci_selected > 0 {
                AppView { details_ci_selected: (v.details_ci_selected - 1) as usize, ..v }
            } else {
                v
            },
            none,
        ),
        Key::Down => (
            if in_list {
                AppView { selected_idx: moved_down(v.selected_idx, visible.len() as int), ..v }
            } else if details_pr(v).is_some() && v.details_ci_selected + 1
                < v.prs[details_pr(v).unwrap()].pr.ci_checks@.len() {
                AppView { details_ci_selected: (v.details_ci_selected + 1) as usize, ..v }
            } else {
                v
            },
            none,
        ),
        Key::Enter => if in_list {
            if selected_pr(v, visible).is_some() {
                opened_step(v, selected_pr(v, visible).unwrap(), None, wall)
            } else {
                (v, none)
            }
        } else if details_pr(v).is_some() {
            opened_step(v, details_pr(v).unwrap(), Some(v.details_ci_selected as int), wall)
        } else {
            (v, none)
        },
        Key::Backspace => (v, none),
        Key::Other => (v, none),
        _ => {
            let c = key_char(key).unwrap();
            if c == '?' {
                (AppView { help_open: !v.help_open, ..v }, none)
            } else if c == 'q' {
                (v, ActionView::Quit)
            } else if c == 'r' {
                if v.refreshing {
                    (v, none)
                } else {
                    (
                        AppView {
                            refreshing: true,
                            shimmer_phase: 0,
                            last_refresh_started: Some(now),
                            ..v
                        },
                        ActionView::StartRefresh,
                    )
                }
            } else if c == 'f' {
                if !in_list && details_pr(v).is_some() {
                    let idx = details_pr(v).unwrap();
                    opened_step(v, idx, first_failing(v.prs[idx].pr.ci_checks@), wall)
                } else {
                    (v, none)
                }
            } else if c == '/' {
                if in_list {
                    (
                        AppView {
                            filter_editing: true,
                            filter_prev_query: v.filter_query,
                            filter_edit: v.filter_query,
                            selected_idx: 0,
                            ..v
                        },
                        none,
                    )
                } else {
                    (v, none)
                }
            } else if c == 'x' {
                (if in_list { filters_cleared(v) } else { v }, none)
            } else if c == 'n' {
                (
                    if in_list {
                        AppView { only_needs_you: !v.only_needs_you, selected_idx: 0, ..v }
                    } else {
                        v
                    },
                    none,
                )
            } else if c == 'c' {
                (
                    if in_list {
                        AppView { only_failing_ci: !v.only_failing_ci, selected_idx: 0, ..v }
                    } else {
                        v
                    },
                    none,
                )
            } else if c == 'v' {
                (
                    if in_list {
                        AppView { only_review_requested: !v.only_review_requested, selected_idx: 0, ..v }
                    } else {
                        v
                    },
                    none,
                )
            } else {
                (v, none)
            }
        },
    }
}

/// The state and the action after a key press: the help, while open, takes
/// every key; then the filter, while it is typed; then the views.
pub open spec fn key_step(v: AppView, key: Key, visible: Seq<usize>, now: u64, wall: i64) -> (
    AppView,
    ActionView,
) {
    if v.help_open {
        (help_step(v, key), ActionView::Nothing)
    } else if v.filter_editing {
        editing_step(v, key, visible, wall)
    } else {
        normal_step(v, key, visible, now, wall)
    }
}

/// The position in `prs` of the first pull request with key `key`.
pub fn find_pr(prs: &Vec<UiPr>, key: &str) -> (r: Option<usize>)
    ensures
        r.is_some() == first_with_key(prs@, key@).is_some(),
        r.is_some() ==> r.unwrap() as int == first_with_key(prs@, key@).unwrap() && r.unwrap()
            < prs@.len(),
{
    let mut i: usize = 0;
    while i < prs.len()
        invariant
            i <= prs.len(),
            first_with_key(prs@.take(i as int), key@).is_none(),
        decreases prs.len() - i,
    {
        proof {
            assert(prs@.take(i + 1).drop_last() =~= prs@.take(i as int));
        }
        if str_eq(prs[i].pr.pr_key.as_str(), key) {
            proof {
                lemma_first_with_key_prefix(prs@, key@, i + 1);
            }
            return Some(i);
        }
        i = i + 1;
    }
    proof {
        assert(prs@.take(prs.len() as int) =~= prs@);
    }
    None
}

/// A match found in a prefix is the match of the whole list.
proof fn lemma_first_with_key_prefix(prs: Seq<UiPr>, key: Seq<char>, n: int)
    requires
        0 <= n <= prs.len(),
        first_with_key(prs.take(n), key).is_some(),
    ensures
        first_with_key(prs, key) == first_with_key(prs.take(n), key),
    decreases prs.len() - n,
{
    if n < prs.len() {
        assert(prs.take(n + 1).drop_last() =~= prs.take(n));
        lemma_first_with_key_prefix(prs, key, n + 1);
    } else {
        assert(prs.take(n) =~= prs);
    }
}

/// The position of the first failing check.
pub fn find_failing(checks: &Vec<crate::model::CiCheck>) -> (r: Option<usize>)
    ensures
        r.is_some() == first_failing(checks@).is_some(),
        r.is_some() ==> r.unwrap() as int == first_failing(checks@).unwrap() && r.unwrap()
            < checks@.len(),
{
    let mut i: usize = 0;
    while i < checks.len()
        invariant
            i <= checks.len(),
            first_failing(checks@.take(i as int)).is_none(),
        decreases checks.len() - i,
    {
        proof {
            assert(checks@.take(i + 1).drop_last() =~= checks@.take(i as int));
        }
        if checks[i].state.is_failure() {
            proof {
                lemma_first_failing_prefix(checks@, i + 1);
            }
            return Some(i);
        }
        i = i + 1;
    }
    proof {
        assert(checks@.take(checks.len() as int) =~= checks@);
    }
    None
}

/// A failing check found in a prefix is the first of the whole list.
proof fn lemma_first_failing_prefix(checks: Seq<crate::model::CiCheck>, n: int)
    requires
        0 <= n <= checks.len(),
        first_failing(checks.take(n)).is_some(),
    ensures
        first_failing(checks) == first_failing(checks.take(n)),
    decreases checks.len() - n,
{
    if n < checks.len() {
        assert(checks.take(n + 1).drop_last() =~= checks.take(n));
        lemma_first_failing_prefix(checks, n + 1);
    } else {
        assert(checks.take(n) =~= checks);
    }
}

impl AppState {
    /// The position in the list of the pull request that the selection is
    /// on, where `visible` are the rows shown.
    pub fn selected(&self, visible: &Vec<usize>) -> (r: Option<usize>)
        ensures
            r.is_some() == selected_pr(self@, visible@).is_some(),
            r.is_some() ==> r.unwrap() as int == selected_pr(self@, visible@).unwrap(),
    {
        if self.selected_idx < visible.len() && visible[self.selected_idx] < self.prs.len() {
            Some(visible[self.selected_idx])
        } else {
            None
        }
    }

    /// The position in the list of the pull request shown in details.
    pub fn details_index(&self) -> (r: Option<usize>)
        ensures
            r.is_some() == details_pr(self@).is_some(),
            r.is_some() ==> r.unwrap() as int == details_pr(self@).unwrap() && r.unwrap()
                < self.prs@.len(),
    {
        match &self.details_pr_key {
            Some(k) => find_pr(&self.prs, k.as_str()),
            None => None,
        }
    }

    /// Opens the pull request at `idx`, by the address of its check `check`
    /// if it has one: stamps it as opened at `wall` and says what to open.
    fn open_at(&mut self, idx: usize, check: Option<usize>, wall: i64) -> (action: Action)
        requires
            idx < old(self).prs@.len(),
        ensures
            (final(self)@, action@) == opened_step(
                old(self)@,
                idx as int,
                match check {
                    Some(c) => Some(c as int),
                    None => None,
                },
                wall,
            ),
    {
        let mut p = self.prs.remove(idx);
        let url = match check {
            Some(c) => if c < p.pr.ci_checks.len() {
                match &p.pr.ci_checks[c].url {
                    Some(u) => u.clone(),
                    None => p.pr.url.clone(),
                }
            } else {
                p.pr.url.clone()
            },
            None => p.pr.url.clone(),
        };
        let pr_key = p.pr.pr_key.clone();
        p.last_opened_at = Some(wall);
        self.prs.insert(idx, p);
        proof {
            assert(self.prs@ =~= old(self).prs@.update(
                idx as int,
                UiPr { last_opened_at: Some(wall), ..old(self).prs@[idx as int] },
            ));
        }
        Action::Open { url, pr_key, opened_at: wall }
    }

    fn move_up(&mut self, n: usize)
        ensures
            *final(self) == (AppState {
                selected_idx: moved_up(old(self).selected_idx, n as int),
                ..*old(self)
            }),
    {
        if n == 0 {
        } else if self.selected_idx == 0 {
            self.selected_idx = n - 1;
        } else {
            self.selected_idx = self.selected_idx - 1;
        }
    }

    fn move_down(&mut self, n: usize)
        ensures
            *final(self) == (AppState {
                selected_idx: moved_down(old(self).selected_idx, n as int),
                ..*old(self)
            }),
    {
        if n == 0 {
        } else if self.selected_idx >= n - 1 {
            self.selected_idx = 0;
        } else {
            self.selected_idx = self.selected_idx + 1;
        }
    }

    fn clear_filters(&mut self)
        ensures
            final(self)@ == filters_cleared(old(self)@),
    {
        self.filter_query = String::new();
        self.only_needs_you = false;
        self.only_failing_ci = false;
        self.only_review_requested = false;
        self.selected_idx = 0;
    }

    fn type_char(&mut self, c: char)
        ensures
            final(self)@ == typed(old(self)@, c),
    {
        if !is_control_char(c) {
            push_char(&mut self.filter_edit, c);
            self.filter_query = self.filter_edit.clone();
        }
    }

    fn editing_key(&mut self, key: Key, visible: &Vec<usize>, wall: i64) -> (action: Action)
        ensures
            (final(self)@, action@) == editing_step(old(self)@, key, visible@, wall),
    {
        let in_list = matches!(self.mode, ViewMode::List);
        match key {
            Key::Up => {
                if in_list {
                    self.move_up(visible.len());
                }
                Action::Nothing
            },
            Key::Down => {
                if in_list {
                    self.move_down(visible.len());
                }
                Action::Nothing
            },
            Key::Esc => {
                self.filter_prev_query = String::new();
                self.filter_edit = String::new();
                self.filter_query = String::new();
                self.filter_editing = false;
                self.selected_idx = 0;
                Action::Nothing
            },
            Key::Backspace => {
                pop_char(&mut self.filter_edit);
                self.filter_query = self.filter_edit.clone();
                Action::Nothing
            },
            Key::Enter => {
                let target = if in_list {
                    self.selected(visible)
                } else {
                    None
                };
                self.filter_editing = false;
                self.filter_edit = String::new();
                match target {
                    Some(idx) => self.open_at(idx, None, wall),
                    None => Action::Nothing,
                }
            },
            Key::Ctrl(c) => {
                if c == 'x' {
                    self.filter_prev_query = String::new();
                    self.filter_edit = String::new();
                    self.clear_filters();
                } else if c == 'n' {
                    self.only_needs_you = !self.only_needs_you;
                    self.selected_idx = 0;
                } else if c == 'c' {
                    self.only_failing_ci = !self.only_failing_ci;
                    self.selected_idx = 0;
                } else if c == 'v' {
                    self.only_review_requested = !self.only_review_requested;
                    self.selected_idx = 0;
                } else {
                    self.type_char(c);
                }
                Action::Nothing
            },
            Key::Char(c) => {
                self.type_char(c);
                Action::Nothing
            },
            _ => Action::Nothing,
        }
    }

    fn char_key(&mut self, c: char, now: u64, wall: i64) -> (action: Action)
        ensures
            forall|visible: Seq<usize>|
                (final(self)@, action@) == #[trigger] normal_step(
                    old(self)@,
                    Key::Char(c),
                    visible,
                    now,
                    wall,
                ),
    {
        let in_list = matches!(self.mode, ViewMode::List);
        if c == '?' {
            self.help_open = !self.help_open;
            Action::Nothing
        } else if c == 'q' {
            Action::Quit
        } else if c == 'r' {
            if self.start_refresh(now) {
                Action::StartRefresh
            } else {
                Action::Nothing
            }
        } else if c == 'f' {
            if in_list {
                return Action::Nothing;
            }
            match self.details_index() {
                Some(idx) => {
                    let check = find_failing(&self.prs[idx].pr.ci_checks);
                    self.open_at(idx, check, wall)
                },
                None => Action::Nothing,
            }
        } else if c == '/' {
            if in_list {
                self.filter_editing = true;
                self.filter_prev_query = self.filter_query.clone();
                self.filter_edit = self.filter_query.clone();
                self.selected_idx = 0;
            }
            Action::Nothing
        } else if c == 'x' {
            if in_list {
                self.clear_filters();
            }
            Action::Nothing
        } else if c == 'n' {
            if in_list {
                self.only_needs_you = !self.only_needs_you;
                self.selected_idx = 0;
            }
            Action::Nothing
        } else if c == 'c' {
            if in_list {
                self.only_failing_ci = !self.only_failing_ci;
                self.selected_idx = 0;
            }
            Action::Nothing
        } else if c == 'v' {
            if in_list {
                self.only_review_requested = !self.only_review_requested;
                self.selected_idx = 0;
            }
            Action::Nothing
        } else {
            Action::Nothing
        }
    }

    fn normal_key(&mut self, key: Key, visible: &Vec<usize>, now: u64, wall: i64) -> (action: Action)
        ensures
            (final(self)@, action@) == normal_step(old(self)@, key, visible@, now, wall),
    {
        let in_list = matches!(self.mode, ViewMode::List);
        match key {
            Key::Esc => {
                if in_list && (!self.filter_query.as_str().is_empty() || self.only_needs_you
                    || self.only_failing_ci || self.only_review_requested) {
                    self.clear_filters();
                }
                Action::Nothing
            },
            Key::Tab => {
                if in_list {
                    match self.selected(visible) {
                        Some(idx) => {
                            self.details_pr_key = Some(self.prs[idx].pr.pr_key.clone());
                            self.mode = ViewMode::Details;
                            self.details_ci_selected = 0;
                            self.details_last_auto_refresh = Some(now);
                        },
                        None => {},
                    }
                } else {
                    self.mode = ViewMode::List;
                    self.details_last_auto_refresh = None;
                }
                Action::Nothing
            },
            Key::Up => {
                if in_list {
                    self.move_up(visible.len());
                } else if self.details_ci_selected > 0 {
                    self.details_ci_selected = self.details_ci_selected - 1;
                }
                Action::Nothing
            },
            Key::Down => {
                if in_list {
                    self.move_down(visible.len());
                } else {
                    match self.details_index() {
                        Some(idx) => {
                            let n = self.prs[idx].pr.ci_checks.len();
                            if n > 0 && self.details_ci_selected < n - 1 {
                                self.details_ci_selected = self.details_ci_selected + 1;
                            }
                        },
                        None => {},
                    }
                }
                Action::Nothing
            },
            Key::Enter => {
                if in_list {
                    match self.selected(visible) {
                        Some(idx) => self.open_at(idx, None, wall),
                        None => Action::Nothing,
                    }
                } else {
                    match self.details_index() {
                        Some(idx) => {
                            let check = self.details_ci_selected;
                            self.open_at(idx, Some(check), wall)
                        },
                        None => Action::Nothing,
                    }
                }
            },
            Key::Backspace => Action::Nothing,
            Key::Other => Action::Nothing,
            Key::Char(c) => self.char_key(c, now, wall),
            Key::Ctrl(c) => {
                proof {
                    assert(normal_step(self@, Key::Ctrl(c), visible@, now, wall) == normal_step(
                        self@,
                        Key::Char(c),
                        visible@,
                        now,
                        wall,
                    ));
                }
                self.char_key(c, now, wall)
            },
        }
    }

    /// Applies one key press. `visible` are the rows of the list as shown,
    /// `now` is the clock reading and `wall` the unix time of the press.
    pub fn handle_key(&mut self, key: Key, visible: &Vec<usize>, now: u64, wall: i64) -> (action:
        Action)
        ensures
            (final(self)@, action@) == key_step(old(self)@, key, visible@, now, wall),
    {
        if self.help_open {
            let closes = match key {
                Key::Esc => true,
                Key::Char(c) => c == '?' || c == 'q',
                Key::Ctrl(c) => c == '?' || c == 'q',
                _ => false,
            };
            if closes {
                self.help_open = false;
            }
            Action::Nothing
        } else if self.filter_editing {
            self.editing_key(key, visible, wall)
        } else {
            self.normal_key(key, visible, now, wall)
        }
    }

    /// Works out the rows that the list shows under the filters in force,
    /// and keeps the selection inside them. In the details view, a pull
    /// request that has left the list sends the session back to the list.
    pub fn reproject(&mut self) -> (visible: Vec<usize>)
        ensures
            visible@ == visible_order(
                old(self).prs@,
                picked(
                    pass_mask(
                        old(self).prs@,
                        old(self).filter_query@,
                        old(self).only_needs_you,
                        old(self).only_failing_ci,
                        old(self).only_review_requested,
                    ),
                ),
            ),
            final(self).mode == (if old(self).mode == ViewMode::Details && details_pr(
                old(self)@,
            ).is_none() {
                ViewMode::List
            } else {
                old(self).mode
            }),
            final(self).selected_idx == (if final(self).mode == ViewMode::Details {
                old(self).selected_idx
            } else if visible@.len() == 0 {
                0
            } else if old(self).selected_idx >= visible@.len() {
                (visible@.len() - 1) as usize
            } else {
                old(self).selected_idx
            }),
            final(self).mode == ViewMode::List ==> (final(self).selected_idx < visible@.len()
                || (visible@.len() == 0 && final(self).selected_idx == 0)),
            *final(self) == (AppState {
                mode: final(self).mode,
                selected_idx: final(self).selected_idx,
                ..*old(self)
            }),
    {
        if matches!(self.mode, ViewMode::Details) && self.details_index().is_none() {
            self.mode = ViewMode::List;
        }
        let filtered = filtered_indices(
            &self.prs,
            self.filter_query.as_str(),
            self.only_needs_you,
            self.only_failing_ci,
            self.only_review_requested,
        );
        let visible = visible_rows(&self.prs, &filtered);
        if matches!(self.mode, ViewMode::List) {
            clamp_selection(&mut self.selected_idx, visible.len());
        }
        visible
    }
}

/// A key press while a refresh is in flight starts no other: a request to
/// refresh is then a no-op.
pub proof fn lemma_refresh_key_while_in_flight(v: AppView, visible: Seq<usize>, now: u64, wall: i64)
    requires
        v.refreshing,
        !v.help_open,
        !v.filter_editing,
    ensures
        key_step(v, Key::Char('r'), visible, now, wall) == (v, ActionView::Nothing),
{
}

/// The first pull request with a key is a position in the list, and the
/// pull request there has that key.
pub proof fn lemma_first_with_key(prs: Seq<UiPr>, key: Seq<char>)
    ensures
        first_with_key(prs, key).is_some() ==> 0 <= first_with_key(prs, key).unwrap() < prs.len()
            && prs[first_with_key(prs, key).unwrap()].pr.pr_key@ == key,
        first_with_key(prs, key).is_none() ==> forall|i: int|
            0 <= i < prs.len() ==> (#[trigger] prs[i]).pr.pr_key@ != key,
    decreases prs.len(),
{
    if prs.len() > 0 {
        lemma_first_with_key(prs.drop_last(), key);
        if first_with_key(prs, key).is_none() {
            assert forall|i: int| 0 <= i < prs.len() implies (#[trigger] prs[i]).pr.pr_key@
                != key by {
                if i < prs.len() - 1 {
                    assert(prs.drop_last()[i] == prs[i]);
                }
            }
        }
    }
}

/// No key press adds or removes a pull request, and only one that opens a
/// pull request changes the list at all.
pub proof fn lemma_keys_keep_the_list(v: AppView, key: Key, visible: Seq<usize>, now: u64, wall: i64)
    ensures
        key_step(v, key, visible, now, wall).1 is Open || key_step(v, key, visible, now, wall).0.prs
            == v.prs,
        key_step(v, key, visible, now, wall).0.prs.len() == v.prs.len(),
{
    if v.details_pr_key.is_some() {
        lemma_first_with_key(v.prs, v.details_pr_key.unwrap());
    }
}

/// A length of time in words: seconds below a minute, minutes below an
/// hour, else hours and minutes. A negative length counts as none.
pub open spec fn duration_text(secs: i64) -> Seq<char> {
    let s: int = if secs < 0 { 0 } else { secs as int };
    if s < 60 {
        decimal(s) + "s"@
    } else if s < 3600 {
        decimal(s / 60) + "m"@
    } else {
        decimal(s / 3600) + "h"@ + decimal((s % 3600) / 60) + "m"@
    }
}

pub fn human_duration(secs: i64) -> (r: String)
    ensures
        r@ == duration_text(secs),
{
    let s: i64 = if secs < 0 {
        0
    } else {
        secs
    };
    let mut out = String::new();
    proof {
        assert(forall|t: Seq<char>| Seq::<char>::empty() + t =~= t);
    }
    if s < 60 {
        push_decimal(&mut out, s);
        out.append("s");
    } else if s < 3600 {
        push_decimal(&mut out, s / 60);
        out.append("m");
    } else {
        push_decimal(&mut out, s / 3600);
        out.append("h");
        push_decimal(&mut out, (s % 3600) / 60);
        out.append("m");
    }
    out
}

/// The columns that a character of a given width takes: none where it has
/// no width.
pub open spec fn columns_of(w: Option<usize>) -> int {
    match w {
        Some(n) => n as int,
        None => 0,
    }
}

/// How many characters from the start fit into `max` columns, given the
/// width of each, when the first `i` of them take `w`: characters are taken
/// until the next one would not fit.
pub open spec fn fitting(widths: Seq<Option<usize>>, i: int, w: int, max: int) -> int
    decreases widths.len() - i,
{
    if i < 0 || i >= widths.len() {
        i
    } else if w + columns_of(widths[i]) > max {
        i
    } else {
        fitting(widths, i + 1, w + columns_of(widths[i]), max)
    }
}

/// How many characters from the start fit into `max_width` columns, given
/// the width of each.
pub fn fitting_count(widths: &Vec<Option<usize>>, max_width: usize) -> (n: usize)
    ensures
        n as int == fitting(widths@, 0, 0, max_width as int),
        n <= widths@.len(),
{
    let mut w: usize = 0;
    let mut i: usize = 0;
    while i < widths.len()
        invariant
            i <= widths.len(),
            w <= max_width,
            fitting(widths@, i as int, w as int, max_width as int) == fitting(
                widths@,
                0,
                0,
                max_width as int,
            ),
        decreases widths.len() - i,
    {
        let cw: usize = match widths[i] {
            Some(v) => v,
            None => 0,
        };
        if cw > max_width - w {
            return i;
        }
        w = w + cw;
        i = i + 1;
    }
    i
}

/// The width of each character of `s`.
pub open spec fn char_widths(s: Seq<char>) -> Seq<Option<usize>> {
    Seq::new(s.len(), |i: int| char_display_width(s[i]))
}

/// `out` with characters dropped from its end until it leaves a column
/// free within `max` columns, or is empty.
pub open spec fn shrunk(out: Seq<char>, max: int) -> Seq<char>
    decreases out.len(),
{
    if out.len() > 0 && display_width(out) + 1 > max {
        shrunk(out.drop_last(), max)
    } else {
        out
    }
}

/// `s` cut to `max_width` columns: as it is where it fits; else its longest
/// fitting start, shortened to leave room for an ellipsis, and the
/// ellipsis. Where not even one character fits, the ellipsis alone.
pub open spec fn ellipsized(s: Seq<char>, max_width: usize) -> Seq<char> {
    if max_width == 0 {
        Seq::empty()
    } else if display_width(s) <= max_width {
        s
    } else {
        let head = s.take(fitting(char_widths(s), 0, 0, max_width as int));
        if head.len() == 0 {
            seq!['…']
        } else {
            let kept = shrunk(head, max_width as int);
            if kept.len() > 0 {
                kept.push('…')
            } else {
                kept
            }
        }
    }
}

pub fn truncate_ellipsis(s: &str, max_width: usize) -> (r: String)
    ensures
        r@ == ellipsized(s@, max_width),
{
    if max_width == 0 {
        return String::new();
    }
    if str_width(s) <= max_width {
        return s.to_string();
    }
    let n = s.unicode_len();
    let mut widths: Vec<Option<usize>> = Vec::new();
    let mut i: usize = 0;
    while i < n
        invariant
            n == s@.len(),
            i <= n,
            widths@.len() == i,
            forall|k: int| 0 <= k < i ==> widths@[k] == char_display_width(s@[k]),
        decreases n - i,
    {
        widths.push(char_width(s.get_char(i)));
        i = i + 1;
    }
    proof {
        assert(widths@ =~= char_widths(s@));
    }
    let fit = fitting_count(&widths, max_width);
    if fit == 0 {
        proof {
            reveal_strlit("…");
            assert("…"@ =~= seq!['…']);
        }
        return "…".to_string();
    }
    let mut out = s.substring_char(0, fit).to_string();
    proof {
        assert(s@.subrange(0, fit as int) =~= s@.take(fit as int));
    }
    let ghost head = out@;
    let mut len: usize = fit;
    while len > 0 && str_width(out.as_str()) >= max_width
        invariant
            out@.len() == len,
            shrunk(out@, max_width as int) == shrunk(head, max_width as int),
        decreases len,
    {
        pop_char(&mut out);
        len = len - 1;
    }
    if len > 0 {
        push_char(&mut out, '…');
    }
    out
}

/// `s` followed by as many spaces as it takes to fill `width` columns when
/// it takes `len` of them.
pub open spec fn padded_to(s: Seq<char>, len: usize, width: usize) -> Seq<char> {
    if len >= width {
        s
    } else {
        s + Seq::new((width - len) as nat, |i: int| ' ')
    }
}

/// `s` followed by as many spaces as it takes to fill `width` columns.
pub open spec fn padded(s: Seq<char>, width: usize) -> Seq<char> {
    padded_to(s, display_width(s), width)
}

/// `s` filled with spaces up to `width` columns, where `s` takes `len`.
pub fn pad_to(s: &str, len: usize, width: usize) -> (r: String)
    ensures
        r@ == padded_to(s@, len, width),
{
    let mut out = s.to_string();
    if len >= width {
        return out;
    }
    let mut k: usize = 0;
    while k < width - len
        invariant
            len < width,
            k <= width - len,
            out@ == s@ + Seq::new(k as nat, |i: int| ' '),
        decreases width - len - k,
    {
        push_char(&mut out, ' ');
        proof {
            assert((s@ + Seq::new(k as nat, |i: int| ' ')).push(' ') =~= s@ + Seq::new(
                (k + 1) as nat,
                |i: int| ' ',
            ));
        }
        k = k + 1;
    }
    out
}

pub fn pad_right(s: &str, width: usize) -> (r: String)
    ensures
        r@ == padded(s@, width),
{
    pad_to(s, str_width(s), width)
}

/// The bar shown while refreshing: ten columns, the one at `phase` modulo
/// ten bright.
pub open spec fn shimmer_bar(phase: u8) -> Seq<char> {
    Seq::new(10, |i: int| if i == phase % 10 { '▓' } else { '░' })
}

pub fn shimmer(phase: u8) -> (r: String)
    ensures
        r@ == shimmer_bar(phase),
{
    let pos: u8 = phase % 10;
    let mut out = String::new();
    let mut i: u8 = 0;
    while i < 10
        invariant
            i <= 10,
            pos == phase % 10,
            out@ == Seq::new(i as nat, |k: int| if k == pos { '▓' } else { '░' }),
        decreases 10 - i,
    {
        let c = if i == pos {
            '▓'
        } else {
            '░'
        };
        push_char(&mut out, c);
        proof {
            assert(Seq::new(i as nat, |k: int| if k == pos { '▓' } else { '░' }).push(c) =~= Seq::new(
                (i + 1) as nat,
                |k: int| if k == pos { '▓' } else { '░' },
            ));
        }
        i = i + 1;
    }
    proof {
        assert(out@ =~= shimmer_bar(phase));
    }
    out
}

/// The line above the list that tells which filters are in force: the
/// text being typed, or the query and the predicates switched on; nothing
/// where no filter is.
pub open spec fn banner_text(v: AppView) -> Option<Seq<char>> {
    if v.filter_editing {
        Some("Filter: "@ + v.filter_edit + " (Esc back)"@)
    } else if v.filter_query.len() > 0 || v.only_needs_you || v.only_failing_ci
        || v.only_review_requested {
        Some("Filter: "@ + crate::text::joined(banner_parts(v), "  "@))
    } else {
        None
    }
}

/// The parts of the banner: the query, then each predicate switched on.
pub open spec fn banner_parts(v: AppView) -> Seq<Seq<char>> {
    (if v.filter_query.len() > 0 {
        seq!["q=\""@ + v.filter_query + "\""@]
    } else {
        Seq::empty()
    }) + (if v.only_needs_you { seq!["needs"@] } else { Seq::empty() }) + (if v.only_failing_ci {
        seq!["failing"@]
    } else {
        Seq::empty()
    }) + (if v.only_review_requested { seq!["review"@] } else { Seq::empty() })
}

impl AppState {
    pub fn filter_banner(&self) -> (r: Option<String>)
        ensures
            r.is_some() == banner_text(self@).is_some(),
            r.is_some() ==> r.unwrap()@ == banner_text(self@).unwrap(),
    {
        if self.filter_editing {
            let mut out = "Filter: ".to_string();
            out.append(self.filter_edit.as_str());
            out.append(" (Esc back)");
            return Some(out);
        }
        if self.filter_query.as_str().is_empty() && !self.only_needs_you && !self.only_failing_ci
            && !self.only_review_requested {
            return None;
        }
        let mut parts: Vec<String> = Vec::new();
        let ghost e = Seq::<Seq<char>>::empty();
        assert(parts.deep_view() =~= e);
        if !self.filter_query.as_str().is_empty() {
            let mut q = "q=\"".to_string();
            q.append(self.filter_query.as_str());
            q.append("\"");
            parts.push(q);
        }
        let ghost s1 = if self.filter_query@.len() > 0 {
            seq!["q=\""@ + self.filter_query@ + "\""@]
        } else {
            e
        };
        assert(parts.deep_view() =~= s1);
        if self.only_needs_you {
            parts.push("needs".to_string());
        }
        let ghost s2 = s1 + (if self.only_needs_you { seq!["needs"@] } else { e });
        assert(parts.deep_view() =~= s2);
        if self.only_failing_ci {
            parts.push("failing".to_string());
        }
        let ghost s3 = s2 + (if self.only_failing_ci { seq!["failing"@] } else { e });
        assert(parts.deep_view() =~= s3);
        if self.only_review_requested {
            parts.push("review".to_string());
        }
        assert(parts.deep_view() =~= banner_parts(self@));
        let mut out = "Filter: ".to_string();
        out.append(crate::text::join(&parts, "  ").as_str());
        Some(out)
    }
}

/// Those of `filtered` that are positions in a list of `len` pull requests.
pub open spec fn in_list(len: int, filtered: Seq<usize>) -> Seq<usize>
    decreases filtered.len(),
{
    if filtered.len() == 0 {
        Seq::empty()
    } else if filtered.last() < len {
        in_list(len, filtered.drop_last()).push(filtered.last())
    } else {
        in_list(len, filtered.drop_last())
    }
}

/// The sections part the list: every filtered row that is a position in
/// the list is shown in exactly one section, as often as it is filtered.
pub proof fn lemma_sections_part_the_list(prs: Seq<UiPr>, filtered: Seq<usize>)
    ensures
        visible_order(prs, filtered).to_multiset() == in_list(
            prs.len() as int,
            filtered,
        ).to_multiset(),
    decreases filtered.len(),
{
    broadcast use {
        vstd::seq_lib::group_to_multiset_ensures,
        vstd::multiset::group_multiset_axioms,
    };

    let a = section_rows(prs, filtered, Section::ReadyToMerge);
    let b = section_rows(prs, filtered, Section::NeedsYou);
    let c = section_rows(prs, filtered, Section::Waiting);
    let d = section_rows(prs, filtered, Section::Stale);
    let e = section_rows(prs, filtered, Section::Draft);
    vstd::seq_lib::lemma_multiset_commutative(a, b);
    vstd::seq_lib::lemma_multiset_commutative(a + b, c);
    vstd::seq_lib::lemma_multiset_commutative(a + b + c, d);
    vstd::seq_lib::lemma_multiset_commutative(a + b + c + d, e);
    if filtered.len() == 0 {
        assert(visible_order(prs, filtered) =~= Seq::<usize>::empty());
    } else {
        let rest = filtered.drop_last();
        let idx = filtered.last();
        lemma_sections_part_the_list(prs, rest);
        let a0 = section_rows(prs, rest, Section::ReadyToMerge);
        let b0 = section_rows(prs, rest, Section::NeedsYou);
        let c0 = section_rows(prs, rest, Section::Waiting);
        let d0 = section_rows(prs, rest, Section::Stale);
        let e0 = section_rows(prs, rest, Section::Draft);
        vstd::seq_lib::lemma_multiset_commutative(a0, b0);
        vstd::seq_lib::lemma_multiset_commutative(a0 + b0, c0);
        vstd::seq_lib::lemma_multiset_commutative(a0 + b0 + c0, d0);
        vstd::seq_lib::lemma_multiset_commutative(a0 + b0 + c0 + d0, e0);
        let before = a0.to_multiset().add(b0.to_multiset()).add(c0.to_multiset()).add(
            d0.to_multiset(),
        ).add(e0.to_multiset());
        let after = a.to_multiset().add(b.to_multiset()).add(c.to_multiset()).add(
            d.to_multiset(),
        ).add(e.to_multiset());
        if idx < prs.len() {
            assert(after =~= before.insert(idx));
            assert(in_list(prs.len() as int, filtered).to_multiset() =~= in_list(
                prs.len() as int,
                rest,
            ).to_multiset().insert(idx));
        } else {
            assert(after =~= before);
        }
    }
}

/// The widths of the columns of the list, in terminal columns. A hidden
/// column has width zero.
#[derive(Debug, Clone, Copy)]
pub struct Columns {
    pub repo_w: usize,
    pub author_w: usize,
    pub num_w: usize,
    pub title_w: usize,
    pub status_w: usize,
}

/// The widest cell of each column among the rows shown, where any is shown.
#[derive(Debug, Clone, Copy)]
pub struct Widest {
    pub repo: Option<usize>,
    pub author: Option<usize>,
    pub num: Option<usize>,
    pub status: Option<usize>,
}

/// The text of a pull request's cell in a column: 0 the repository slug,
/// 1 the author, 2 `#` and the number, else the status.
pub open spec fn cell_text(p: UiPr, col: int) -> Seq<char> {
    if col == 0 {
        repo_slug(p.pr.owner@, p.pr.repo@)
    } else if col == 1 {
        p.pr.author@
    } else if col == 2 {
        "#"@ + decimal(p.pr.number as int)
    } else {
        p.display_status@
    }
}

/// The larger of a width and the widest so far.
pub open spec fn widened(so_far: Option<usize>, w: usize) -> Option<usize> {
    match so_far {
        Some(m) => if w > m { Some(w) } else { Some(m) },
        None => Some(w),
    }
}

/// The width of the widest cell of a column among the rows `visible` that
/// are positions in the list.
pub open spec fn widest_cell(prs: Seq<UiPr>, visible: Seq<usize>, col: int) -> Option<usize>
    decreases visible.len(),
{
    if visible.len() == 0 {
        None
    } else {
        let rest = widest_cell(prs, visible.drop_last(), col);
        if visible.last() < prs.len() {
            widened(rest, display_width(cell_text(prs[visible.last() as int], col)))
        } else {
            rest
        }
    }
}

fn widen(so_far: Option<usize>, w: usize) -> (r: Option<usize>)
    ensures
        r == widened(so_far, w),
{
    match so_far {
        Some(m) => if w > m {
            Some(w)
        } else {
            Some(m)
        },
        None => Some(w),
    }
}

/// Measures the widest cell of each column among the rows shown.
pub fn measure_cells(prs: &Vec<UiPr>, visible: &Vec<usize>) -> (w: Widest)
    ensures
        w.repo == widest_cell(prs@, visible@, 0),
        w.author == widest_cell(prs@, visible@, 1),
        w.num == widest_cell(prs@, visible@, 2),
        w.status == widest_cell(prs@, visible@, 3),
{
    let mut w = Widest { repo: None, author: None, num: None, status: None };
    let mut i: usize = 0;
    while i < visible.len()
        invariant
            i <= visible.len(),
            w.repo == widest_cell(prs@, visible@.take(i as int), 0),
            w.author == widest_cell(prs@, visible@.take(i as int), 1),
            w.num == widest_cell(prs@, visible@.take(i as int), 2),
            w.status == widest_cell(prs@, visible@.take(i as int), 3),
        decreases visible.len() - i,
    {
        proof {
            assert(visible@.take(i + 1).drop_last() =~= visible@.take(i as int));
        }
        let idx = visible[i];
        if idx < prs.len() {
            let p = &prs[idx];
            let slug = repo_slug_string(p.pr.owner.as_str(), p.pr.repo.as_str());
            let mut num = "#".to_string();
            push_decimal(&mut num, p.pr.number);
            w.repo = widen(w.repo, str_width(slug.as_str()));
            w.author = widen(w.author, str_width(p.pr.author.as_str()));
            w.num = widen(w.num, str_width(num.as_str()));
            w.status = widen(w.status, str_width(p.display_status.as_str()));
        }
        i = i + 1;
    }
    proof {
        assert(visible@.take(visible.len() as int) =~= visible@);
    }
    w
}

/// A measured width, or `fallback` where nothing was measured, held
/// between `lo` and `hi`.
pub open spec fn clamped(w: Option<usize>, fallback: usize, lo: usize, hi: usize) -> usize {
    let v = match w {
        Some(n) => n,
        None => fallback,
    };
    if v < lo {
        lo
    } else if v > hi {
        hi
    } else {
        v
    }
}

fn clamp_width(w: Option<usize>, fallback: usize, lo: usize, hi: usize) -> (r: usize)
    ensures
        r == clamped(w, fallback, lo, hi),
{
    let v = match w {
        Some(n) => n,
        None => fallback,
    };
    if v < lo {
        lo
    } else if v > hi {
        hi
    } else {
        v
    }
}

/// The columns that a column of width `w` takes with the gap after it;
/// none when it is hidden.
pub open spec fn block_width(hidden: bool, w: int) -> int {
    if hidden {
        0
    } else {
        w + 2
    }
}

/// The columns taken by everything but the title when the repository
/// column has width `repo_w`: the marker, each column shown with its gap,
/// and the status.
pub open spec fn fixed_width(ui: UiPrefs, repo_w: int, author_w: int, num_w: int, status_w: int) -> int {
    2 + block_width(ui.hide_repo, repo_w) + block_width(ui.hide_author, author_w) + block_width(
        ui.hide_pr_numbers,
        num_w,
    ) + status_w + 2
}

/// What is left of `total` after `taken`, none where more is taken.
pub open spec fn left_of(total: int, taken: int) -> int {
    if total > taken {
        total - taken
    } else {
        0
    }
}

/// The column widths for a list `inner_width` columns wide: the status
/// takes 12 to 34 columns, the number 4 to 8, the author 6 to 16, the
/// repository up to 35; the title takes the rest, and where that is less
/// than 16 the repository gives way; the title never has less than 8.
pub open spec fn columns_for(widest: Widest, inner_width: usize, ui: UiPrefs) -> Columns {
    let status_w = clamped(widest.status, 10, 12, 34);
    let num_w = if ui.hide_pr_numbers { 0 } else { clamped(widest.num, 4, 4, 8) };
    let author_w = if ui.hide_author { 0 } else { clamped(widest.author, 6, 6, 16) };
    let repo_first = if ui.hide_repo { 0 } else { clamped(widest.repo, 10, 0, 35) };
    let title_first = left_of(
        inner_width as int,
        fixed_width(ui, repo_first as int, author_w as int, num_w as int, status_w as int),
    );
    let repo_w = if title_first < 16 {
        left_of(repo_first as int, 16 - title_first)
    } else {
        repo_first as int
    };
    let title_w = left_of(
        inner_width as int,
        fixed_width(ui, repo_w, author_w as int, num_w as int, status_w as int),
    );
    Columns {
        repo_w: repo_w as usize,
        author_w,
        num_w,
        title_w: (if title_w < 8 { 8 } else { title_w }) as usize,
        status_w,
    }
}

fn fixed_for(ui: UiPrefs, repo_w: usize, author_w: usize, num_w: usize, status_w: usize) -> (r: usize)
    requires
        repo_w <= 35,
        author_w <= 16,
        num_w <= 8,
        status_w <= 34,
    ensures
        r == fixed_width(ui, repo_w as int, author_w as int, num_w as int, status_w as int),
{
    let repo = if ui.hide_repo {
        0
    } else {
        repo_w + 2
    };
    let author = if ui.hide_author {
        0
    } else {
        author_w + 2
    };
    let num = if ui.hide_pr_numbers {
        0
    } else {
        num_w + 2
    };
    2 + repo + author + num + status_w + 2
}

/// The column widths for a list `inner_width` columns wide.
pub fn column_widths(widest: Widest, inner_width: usize, ui: UiPrefs) -> (c: Columns)
    ensures
        c == columns_for(widest, inner_width, ui),
{
    let status_w = clamp_width(widest.status, 10, 12, 34);
    let num_w = if ui.hide_pr_numbers {
        0
    } else {
        clamp_width(widest.num, 4, 4, 8)
    };
    let author_w = if ui.hide_author {
        0
    } else {
        clamp_width(widest.author, 6, 6, 16)
    };
    let mut repo_w = if ui.hide_repo {
        0
    } else {
        clamp_width(widest.repo, 10, 0, 35)
    };
    let fixed = fixed_for(ui, repo_w, author_w, num_w, status_w);
    let mut title_w = if inner_width > fixed {
        inner_width - fixed
    } else {
        0
    };
    if title_w < 16 {
        let missing = 16 - title_w;
        repo_w = if repo_w > missing {
            repo_w - missing
        } else {
            0
        };
        let fixed = fixed_for(ui, repo_w, author_w, num_w, status_w);
        title_w = if inner_width > fixed {
            inner_width - fixed
        } else {
            0
        };
    }
    if title_w < 8 {
        title_w = 8;
    }
    Columns { repo_w, author_w, num_w, title_w, status_w }
}

/// How many of the checks are in each group: failed, running, passed, and
/// the rest.
pub struct Tally {
    pub failed: usize,
    pub running: usize,
    pub ok: usize,
    pub other: usize,
}

/// How many of `checks` have a state for which `group` holds: 0 failed,
/// 1 running, 2 passed, else neither of these.
pub open spec fn in_group(state: CiCheckState, group: int) -> bool {
    if group == 0 {
        state == CiCheckState::Failure
    } else if group == 1 {
        state == CiCheckState::Running
    } else if group == 2 {
        state == CiCheckState::Success
    } else {
        state != CiCheckState::Failure && state != CiCheckState::Running && state
            != CiCheckState::Success
    }
}

/// How many of `checks` are in a group.
pub open spec fn group_count(checks: Seq<crate::model::CiCheck>, group: int) -> int
    decreases checks.len(),
{
    if checks.len() == 0 {
        0
    } else {
        group_count(checks.drop_last(), group) + (if in_group(checks.last().state, group) {
            1int
        } else {
            0int
        })
    }
}

/// Counts the checks by group.
pub fn tally_checks(checks: &Vec<crate::model::CiCheck>) -> (t: Tally)
    ensures
        t.failed == group_count(checks@, 0),
        t.running == group_count(checks@, 1),
        t.ok == group_count(checks@, 2),
        t.other == group_count(checks@, 3),
        t.failed + t.running + t.ok + t.other == checks@.len(),
{
    let mut t = Tally { failed: 0, running: 0, ok: 0, other: 0 };
    let mut i: usize = 0;
    while i < checks.len()
        invariant
            i <= checks.len(),
            t.failed == group_count(checks@.take(i as int), 0),
            t.running == group_count(checks@.take(i as int), 1),
            t.ok == group_count(checks@.take(i as int), 2),
            t.other == group_count(checks@.take(i as int), 3),
            t.failed + t.running + t.ok + t.other == i,
        decreases checks.len() - i,
    {
        proof {
            assert(checks@.take(i + 1).drop_last() =~= checks@.take(i as int));
        }
        match checks[i].state {
            CiCheckState::Failure => {
                t.failed = t.failed + 1;
            },
            CiCheckState::Running => {
                t.running = t.running + 1;
            },
            CiCheckState::Success => {
                t.ok = t.ok + 1;
            },
            _ => {
                t.other = t.other + 1;
            },
        }
        i = i + 1;
    }
    proof {
        assert(checks@.take(checks.len() as int) =~= checks@);
    }
    t
}

/// The line that sums up the checks of a pull request.
pub open spec fn summary_text(t: &Tally) -> Seq<char> {
    "Summary: "@ + crate::text::decimal_nat(t.failed as nat) + " failed, "@
        + crate::text::decimal_nat(t.running as nat) + " running, "@ + crate::text::decimal_nat(
        t.ok as nat,
    ) + " ok, "@ + crate::text::decimal_nat(t.other as nat) + " other"@
}

pub fn summary_line(t: &Tally) -> (r: String)
    ensures
        r@ == summary_text(t),
{
    let mut out = "Summary: ".to_string();
    crate::text::push_decimal_nat(&mut out, t.failed as u64);
    out.append(" failed, ");
    crate::text::push_decimal_nat(&mut out, t.running as u64);
    out.append(" running, ");
    crate::text::push_decimal_nat(&mut out, t.ok as u64);
    out.append(" ok, ");
    crate::text::push_decimal_nat(&mut out, t.other as u64);
    out.append(" other");
    out
}

/// The names of the failed checks, in their order.
pub open spec fn failed_names(checks: Seq<crate::model::CiCheck>) -> Seq<Seq<char>>
    decreases checks.len(),
{
    if checks.len() == 0 {
        Seq::empty()
    } else if checks.last().state == CiCheckState::Failure {
        failed_names(checks.drop_last()).push(checks.last().name@)
    } else {
        failed_names(checks.drop_last())
    }
}

/// The line that names the failed checks, the first three of them; none
/// where no check failed.
pub open spec fn failed_text(checks: Seq<crate::model::CiCheck>) -> Option<Seq<char>> {
    if failed_names(checks).len() == 0 {
        None
    } else {
        Some("Failed: "@ + crate::text::joined(first_n(failed_names(checks), 3), ", "@))
    }
}

pub fn failed_line(checks: &Vec<crate::model::CiCheck>) -> (r: Option<String>)
    ensures
        r.is_some() == failed_text(checks@).is_some(),
        r.is_some() ==> r.unwrap()@ == failed_text(checks@).unwrap(),
{
    let mut names: Vec<String> = Vec::new();
    let mut i: usize = 0;
    assert(names.deep_view() =~= first_n(failed_names(checks@.take(0)), 3));
    while i < checks.len()
        invariant
            i <= checks.len(),
            names.deep_view() == first_n(failed_names(checks@.take(i as int)), 3),
        decreases checks.len() - i,
    {
        let ghost before = failed_names(checks@.take(i as int));
        proof {
            assert(checks@.take(i + 1).drop_last() =~= checks@.take(i as int));
        }
        if checks[i].state.is_failure() {
            if names.len() < 3 {
                let ghost prev = names.deep_view();
                names.push(checks[i].name.clone());
                proof {
                    assert(names.deep_view() =~= prev.push(checks@[i as int].name@));
                    assert(names.deep_view() =~= first_n(before.push(checks@[i as int].name@), 3));
                }
            } else {
                proof {
                    assert(before.take(3) =~= before.push(checks@[i as int].name@).take(3));
                }
            }
        }
        i = i + 1;
    }
    proof {
        assert(checks@.take(checks.len() as int) =~= checks@);
    }
    if names.len() == 0 {
        return None;
    }
    let mut out = "Failed: ".to_string();
    out.append(crate::text::join(&names, ", ").as_str());
    Some(out)
}

/// One line of the list as it is drawn.
#[derive(Debug, Clone, Copy, PartialEq, Eq, Structural)]
pub enum ListLine {
    /// The line that tells which filters are in force.
    Banner,
    Blank,
    /// The title of a section.
    Heading(Section),
    Divider,
    /// The names of the columns.
    ColumnHeader,
    /// The pull request at this position in the list.
    Row(usize),
}

/// The section of the last of `visible` that is a position in the list.
pub open spec fn last_section(prs: Seq<UiPr>, visible: Seq<usize>) -> Option<Section>
    decreases visible.len(),
{
    if visible.len() == 0 {
        None
    } else if visible.last() < prs.len() {
        Some(section_of(&prs[visible.last() as int]))
    } else {
        last_section(prs, visible.drop_last())
    }
}

/// The lines that a row adds to the list when the row before it is in the
/// section `prev`: the row alone within a section; before it, where a
/// section begins, the section's title, a divider and the column names, and
/// before those a blank line where another section ends.
pub open spec fn lines_for(prev: Option<Section>, section: Section, idx: usize) -> Seq<ListLine> {
    if prev == Some(section) {
        seq![ListLine::Row(idx)]
    } else if prev.is_none() {
        seq![
            ListLine::Heading(section),
            ListLine::Divider,
            ListLine::ColumnHeader,
            ListLine::Row(idx),
        ]
    } else {
        seq![
            ListLine::Blank,
            ListLine::Heading(section),
            ListLine::Divider,
            ListLine::ColumnHeader,
            ListLine::Row(idx),
        ]
    }
}

/// The lines of the rows `visible`, section by section.
pub open spec fn body_lines(prs: Seq<UiPr>, visible: Seq<usize>) -> Seq<ListLine>
    decreases visible.len(),
{
    if visible.len() == 0 {
        Seq::empty()
    } else if visible.last() < prs.len() {
        body_lines(prs, visible.drop_last()) + lines_for(
            last_section(prs, visible.drop_last()),
            section_of(&prs[visible.last() as int]),
            visible.last(),
        )
    } else {
        body_lines(prs, visible.drop_last())
    }
}

/// The lines above the rows: the banner and a blank line, where a filter is
/// in force.
pub open spec fn banner_lines(banner: bool) -> Seq<ListLine> {
    if banner {
        seq![ListLine::Banner, ListLine::Blank]
    } else {
        Seq::empty()
    }
}

/// The whole list, however high the window.
pub open spec fn full_list(prs: Seq<UiPr>, visible: Seq<usize>, banner: bool) -> Seq<ListLine> {
    banner_lines(banner) + body_lines(prs, visible)
}

/// The list as drawn in a window of `height` lines: the whole list cut to
/// the window.
pub open spec fn drawn_list(prs: Seq<UiPr>, visible: Seq<usize>, banner: bool, height: usize) -> Seq<
    ListLine,
> {
    first_n(full_list(prs, visible, banner), height as int)
}

/// The pull requests that the lines show, in their order.
pub open spec fn rows_shown(lines: Seq<ListLine>) -> Seq<usize>
    decreases lines.len(),
{
    if lines.len() == 0 {
        Seq::empty()
    } else {
        match lines.last() {
            ListLine::Row(idx) => rows_shown(lines.drop_last()).push(idx),
            _ => rows_shown(lines.drop_last()),
        }
    }
}

/// Cutting after one more line takes that line where there is room.
proof fn lemma_first_n_push(a: Seq<ListLine>, x: ListLine, h: int)
    requires
        0 <= h,
    ensures
        first_n(a.push(x), h) == (if first_n(a, h).len() < h {
            first_n(a, h).push(x)
        } else {
            first_n(a, h)
        }),
{
    if a.len() >= h {
        assert(a.push(x).take(h) =~= a.take(h));
        assert(a.take(h) =~= first_n(a, h));
    }
}

fn push_line(out: &mut Vec<ListLine>, line: ListLine, height: usize)
    ensures
        final(out)@ == (if old(out)@.len() < height { old(out)@.push(line) } else { old(out)@ }),
{
    if out.len() < height {
        out.push(line);
    }
}

/// Lays out the list for a window of `height` lines: the rows `visible` in
/// their order, a title, a divider and the column names where a section
/// begins, a blank line between sections, the banner on top where `banner`
/// is set; all of it cut to the window.
pub fn plan_list(prs: &Vec<UiPr>, visible: &Vec<usize>, banner: bool, height: usize) -> (out: Vec<
    ListLine,
>)
    ensures
        out@ == drawn_list(prs@, visible@, banner, height),
        out@.len() <= height,
{
    let mut out: Vec<ListLine> = Vec::new();
    let ghost mut full: Seq<ListLine> = Seq::empty();
    if banner {
        push_line(&mut out, ListLine::Banner, height);
        proof {
            lemma_first_n_push(full, ListLine::Banner, height as int);
            full = full.push(ListLine::Banner);
        }
        push_line(&mut out, ListLine::Blank, height);
        proof {
            lemma_first_n_push(full, ListLine::Blank, height as int);
            full = full.push(ListLine::Blank);
        }
    }
    proof {
        assert(full =~= banner_lines(banner) + body_lines(prs@, visible@.take(0)));
    }
    let mut current: Option<Section> = None;
    let mut i: usize = 0;
    while i < visible.len()
        invariant
            i <= visible.len(),
            out@ == first_n(full, height as int),
            full == banner_lines(banner) + body_lines(prs@, visible@.take(i as int)),
            current == last_section(prs@, visible@.take(i as int)),
        decreases visible.len() - i,
    {
        proof {
            assert(visible@.take(i + 1).drop_last() =~= visible@.take(i as int));
        }
        let idx = visible[i];
        if idx < prs.len() {
            let section = section_for(&prs[idx]);
            let ghost start = full;
            let same = match current {
                Some(c) => c == section,
                None => false,
            };
            if !same {
                if current.is_some() {
                    push_line(&mut out, ListLine::Blank, height);
                    proof {
                        lemma_first_n_push(full, ListLine::Blank, height as int);
                        full = full.push(ListLine::Blank);
                    }
                }
                push_line(&mut out, ListLine::Heading(section), height);
                proof {
                    lemma_first_n_push(full, ListLine::Heading(section), height as int);
                    full = full.push(ListLine::Heading(section));
                }
                push_line(&mut out, ListLine::Divider, height);
                proof {
                    lemma_first_n_push(full, ListLine::Divider, height as int);
                    full = full.push(ListLine::Divider);
                }
                push_line(&mut out, ListLine::ColumnHeader, height);
                proof {
                    lemma_first_n_push(full, ListLine::ColumnHeader, height as int);
                    full = full.push(ListLine::ColumnHeader);
                }
            }
            push_line(&mut out, ListLine::Row(idx), height);
            proof {
                lemma_first_n_push(full, ListLine::Row(idx), height as int);
                full = full.push(ListLine::Row(idx));
                assert(full =~= start + lines_for(current, section, idx));
                assert(full =~= banner_lines(banner) + body_lines(prs@, visible@.take(i + 1)));
            }
            current = Some(section);
        }
        i = i + 1;
    }
    proof {
        assert(visible@.take(visible.len() as int) =~= visible@);
    }
    out
}

/// The pull requests that the lines show, in their order.
pub fn rows_of(lines: &Vec<ListLine>) -> (out: Vec<usize>)
    ensures
        out@ == rows_shown(lines@),
{
    let mut out: Vec<usize> = Vec::new();
    let mut i: usize = 0;
    while i < lines.len()
        invariant
            i <= lines.len(),
            out@ == rows_shown(lines@.take(i as int)),
        decreases lines.len() - i,
    {
        proof {
            assert(lines@.take(i + 1).drop_last() =~= lines@.take(i as int));
        }
        match lines[i] {
            ListLine::Row(idx) => {
                out.push(idx);
            },
            _ => {},
        }
        i = i + 1;
    }
    proof {
        assert(lines@.take(lines.len() as int) =~= lines@);
    }
    out
}

/// Where a section stands in the list: ready to merge first, the drafts
/// last.
pub open spec fn section_rank(s: Section) -> int {
    match s {
        Section::ReadyToMerge => 0,
        Section::NeedsYou => 1,
        Section::Waiting => 2,
        Section::Stale => 3,
        Section::Draft => 4,
    }
}

/// The rows are positions in the list and come section by section: no row
/// of a later section before a row of an earlier one.
pub open spec fn by_section(prs: Seq<UiPr>, rows: Seq<usize>) -> bool {
    &&& forall|k: int| 0 <= k < rows.len() ==> (#[trigger] rows[k]) < prs.len()
    &&& forall|a: int, b: int|
        0 <= a < b < rows.len() ==> section_rank(section_of(&prs[rows[a] as int])) <= section_rank(
            section_of(&prs[rows[b] as int]),
        )
}

/// The order in which the list shows its rows is section by section: every
/// row that is no draft comes before every draft, whatever the scores, and
/// the rows of one section stand together.
pub proof fn lemma_visible_order_by_section(prs: Seq<UiPr>, filtered: Seq<usize>)
    ensures
        by_section(prs, visible_order(prs, filtered)),
{
    let a = section_rows(prs, filtered, Section::ReadyToMerge);
    let b = section_rows(prs, filtered, Section::NeedsYou);
    let c = section_rows(prs, filtered, Section::Waiting);
    let d = section_rows(prs, filtered, Section::Stale);
    let e = section_rows(prs, filtered, Section::Draft);
    lemma_section_rows_in_range(prs, filtered, Section::ReadyToMerge);
    lemma_section_rows_in_range(prs, filtered, Section::NeedsYou);
    lemma_section_rows_in_range(prs, filtered, Section::Waiting);
    lemma_section_rows_in_range(prs, filtered, Section::Stale);
    lemma_section_rows_in_range(prs, filtered, Section::Draft);
    let v = visible_order(prs, filtered);
    let la = a.len() as int;
    let lb = la + b.len();
    let lc = lb + c.len();
    let ld = lc + d.len();
    assert forall|k: int| 0 <= k < v.len() implies (#[trigger] v[k]) < prs.len() && section_rank(
        section_of(&prs[v[k] as int]),
    ) == (if k < la {
        0int
    } else if k < lb {
        1int
    } else if k < lc {
        2int
    } else if k < ld {
        3int
    } else {
        4int
    }) by {
        if k < la {
            assert(v[k] == a[k]);
        } else if k < lb {
            assert(v[k] == b[k - la]);
        } else if k < lc {
            assert(v[k] == c[k - lb]);
        } else if k < ld {
            assert(v[k] == d[k - lc]);
        } else {
            assert(v[k] == e[k - ld]);
        }
    }
}

/// The rows of `filtered` that are positions in the list are rows of
/// `filtered`, and none comes twice where none comes twice in `filtered`.
pub proof fn lemma_in_list(len: int, filtered: Seq<usize>)
    ensures
        forall|k: int|
            0 <= k < in_list(len, filtered).len() ==> (#[trigger] in_list(len, filtered)[k]) < len
                && filtered.contains(in_list(len, filtered)[k]),
        filtered.no_duplicates() ==> in_list(len, filtered).no_duplicates(),
        (forall|k: int| 0 <= k < filtered.len() ==> (#[trigger] filtered[k]) < len) ==> in_list(
            len,
            filtered,
        ) == filtered,
    decreases filtered.len(),
{
    if filtered.len() > 0 {
        let rest = filtered.drop_last();
        lemma_in_list(len, rest);
        assert forall|k: int| 0 <= k < in_list(len, filtered).len() implies (#[trigger] in_list(
            len,
            filtered,
        )[k]) < len && filtered.contains(in_list(len, filtered)[k]) by {
            if k < in_list(len, rest).len() {
                let x = in_list(len, rest)[k];
                assert(rest.contains(x));
                let j = choose|j: int| 0 <= j < rest.len() && rest[j] == x;
                assert(filtered[j] == x);
            } else {
                assert(filtered[filtered.len() - 1] == filtered.last());
            }
        }
        if filtered.no_duplicates() {
            assert(rest.no_duplicates());
            let r = in_list(len, rest);
            if filtered.last() < len {
                assert forall|i: int, j: int|
                    0 <= i < r.push(filtered.last()).len() && 0 <= j < r.push(
                        filtered.last(),
                    ).len() && i != j implies r.push(filtered.last())[i] != r.push(
                    filtered.last(),
                )[j] by {
                    if i < r.len() && j == r.len() {
                        assert(rest.contains(r[i]));
                        let q = choose|q: int| 0 <= q < rest.len() && rest[q] == r[i];
                        assert(filtered[q] != filtered[filtered.len() - 1]);
                    }
                    if j < r.len() && i == r.len() {
                        assert(rest.contains(r[j]));
                        let q = choose|q: int| 0 <= q < rest.len() && rest[q] == r[j];
                        assert(filtered[q] != filtered[filtered.len() - 1]);
                    }
                }
            }
        }
        if forall|k: int| 0 <= k < filtered.len() ==> (#[trigger] filtered[k]) < len {
            assert forall|k: int| 0 <= k < rest.len() implies (#[trigger] rest[k]) < len by {
                assert(rest[k] == filtered[k]);
            }
            assert(filtered[filtered.len() - 1] < len);
            assert(in_list(len, filtered) =~= filtered);
        }
    }
}

/// The rows shown by two runs of lines are those of the first, then those
/// of the second.
proof fn lemma_rows_shown_add(a: Seq<ListLine>, b: Seq<ListLine>)
    ensures
        rows_shown(a + b) == rows_shown(a) + rows_shown(b),
    decreases b.len(),
{
    if b.len() == 0 {
        assert(a + b =~= a);
        assert(rows_shown(a) + rows_shown(b) =~= rows_shown(a));
    } else {
        lemma_rows_shown_add(a, b.drop_last());
        assert((a + b).drop_last() =~= a + b.drop_last());
        assert((a + b).last() == b.last());
        assert(rows_shown(a + b) =~= rows_shown(a) + rows_shown(b));
    }
}

/// One more line shows one more row where it is a row, else no more.
proof fn lemma_rows_shown_push(a: Seq<ListLine>, x: ListLine)
    ensures
        rows_shown(a.push(x)) == (match x {
            ListLine::Row(idx) => rows_shown(a).push(idx),
            _ => rows_shown(a),
        }),
{
    assert(a.push(x).drop_last() =~= a);
}

/// The lines that a row adds show that row and no other.
proof fn lemma_lines_for_rows(prev: Option<Section>, section: Section, idx: usize)
    ensures
        rows_shown(lines_for(prev, section, idx)) == seq![idx],
{
    let e = Seq::<ListLine>::empty();
    let none = Seq::<usize>::empty();
    if prev == Some(section) {
        lemma_rows_shown_push(e, ListLine::Row(idx));
        assert(lines_for(prev, section, idx) =~= e.push(ListLine::Row(idx)));
        assert(none.push(idx) =~= seq![idx]);
    } else if prev.is_none() {
        let s1 = e.push(ListLine::Heading(section));
        let s2 = s1.push(ListLine::Divider);
        let s3 = s2.push(ListLine::ColumnHeader);
        let s4 = s3.push(ListLine::Row(idx));
        lemma_rows_shown_push(e, ListLine::Heading(section));
        lemma_rows_shown_push(s1, ListLine::Divider);
        lemma_rows_shown_push(s2, ListLine::ColumnHeader);
        lemma_rows_shown_push(s3, ListLine::Row(idx));
        assert(lines_for(prev, section, idx) =~= s4);
        assert(none.push(idx) =~= seq![idx]);
    } else {
        let s0 = e.push(ListLine::Blank);
        let s1 = s0.push(ListLine::Heading(section));
        let s2 = s1.push(ListLine::Divider);
        let s3 = s2.push(ListLine::ColumnHeader);
        let s4 = s3.push(ListLine::Row(idx));
        lemma_rows_shown_push(e, ListLine::Blank);
        lemma_rows_shown_push(s0, ListLine::Heading(section));
        lemma_rows_shown_push(s1, ListLine::Divider);
        lemma_rows_shown_push(s2, ListLine::ColumnHeader);
        lemma_rows_shown_push(s3, ListLine::Row(idx));
        assert(lines_for(prev, section, idx) =~= s4);
        assert(none.push(idx) =~= seq![idx]);
    }
}

/// The lines above the rows show no row.
proof fn lemma_banner_rows(banner: bool)
    ensures
        rows_shown(banner_lines(banner)) == Seq::<usize>::empty(),
{
    let e = Seq::<ListLine>::empty();
    if banner {
        let s1 = e.push(ListLine::Banner);
        lemma_rows_shown_push(e, ListLine::Banner);
        lemma_rows_shown_push(s1, ListLine::Blank);
        assert(banner_lines(banner) =~= s1.push(ListLine::Blank));
    }
}

/// The rows below the banner are every row that is a position in the list,
/// in the order given.
proof fn lemma_body_rows(prs: Seq<UiPr>, visible: Seq<usize>)
    ensures
        rows_shown(body_lines(prs, visible)) == in_list(prs.len() as int, visible),
    decreases visible.len(),
{
    if visible.len() > 0 {
        let rest = visible.drop_last();
        lemma_body_rows(prs, rest);
        if visible.last() < prs.len() {
            let extra = lines_for(
                last_section(prs, rest),
                section_of(&prs[visible.last() as int]),
                visible.last(),
            );
            lemma_rows_shown_add(body_lines(prs, rest), extra);
            lemma_lines_for_rows(
                last_section(prs, rest),
                section_of(&prs[visible.last() as int]),
                visible.last(),
            );
            assert(in_list(prs.len() as int, rest) + seq![visible.last()] =~= in_list(
                prs.len() as int,
                rest,
            ).push(visible.last()));
        }
    }
}

/// The whole list shows every row that is a position in the list, in the
/// order given.
pub proof fn lemma_full_list_rows(prs: Seq<UiPr>, visible: Seq<usize>, banner: bool)
    ensures
        rows_shown(full_list(prs, visible, banner)) == in_list(prs.len() as int, visible),
{
    lemma_rows_shown_add(banner_lines(banner), body_lines(prs, visible));
    lemma_banner_rows(banner);
    lemma_body_rows(prs, visible);
    assert(Seq::<usize>::empty() + in_list(prs.len() as int, visible) =~= in_list(
        prs.len() as int,
        visible,
    ));
}

/// Lines cut short show a first part of the rows that the whole shows, and
/// no more rows than lines.
pub proof fn lemma_rows_of_a_cut(lines: Seq<ListLine>, n: int)
    requires
        0 <= n,
    ensures
        rows_shown(first_n(lines, n)).len() <= rows_shown(lines).len(),
        rows_shown(first_n(lines, n)) == rows_shown(lines).take(
            rows_shown(first_n(lines, n)).len() as int,
        ),
        rows_shown(lines).len() <= lines.len(),
        rows_shown(first_n(lines, n)).len() <= n,
    decreases lines.len(),
{
    if lines.len() == 0 {
        assert(rows_shown(lines).take(0) =~= rows_shown(lines));
    } else {
        let rest = lines.drop_last();
        lemma_rows_of_a_cut(rest, n);
        if lines.len() <= n {
            assert(rows_shown(lines).take(rows_shown(lines).len() as int) =~= rows_shown(lines));
        } else {
            assert(lines.take(n) =~= first_n(rest, n));
            let cut = rows_shown(first_n(rest, n));
            assert(cut =~= rows_shown(lines).take(cut.len() as int));
        }
    }
}

/// What the drawn list shows. For a filter result without repeats, the
/// rows drawn in a window of `height` lines are a first part of the rows in
/// the order of the sections: no row comes twice, each is a row of the
/// filter result and a position in the list, every row that is no draft
/// comes before every draft and the rows of one section stand together;
/// there are no more lines or rows than the window is high; and a window
/// high enough shows every filtered row that is a position in the list.
pub proof fn lemma_drawn_list(prs: Seq<UiPr>, filtered: Seq<usize>, banner: bool, height: usize)
    requires
        filtered.no_duplicates(),
    ensures
        drawn_list(prs, visible_order(prs, filtered), banner, height).len() <= height,
        rows_shown(drawn_list(prs, visible_order(prs, filtered), banner, height)).len() <= height,
        rows_shown(drawn_list(prs, visible_order(prs, filtered), banner, height))
            == visible_order(prs, filtered).take(
            rows_shown(drawn_list(prs, visible_order(prs, filtered), banner, height)).len() as int,
        ),
        rows_shown(drawn_list(prs, visible_order(prs, filtered), banner, height)).no_duplicates(),
        by_section(prs, rows_shown(drawn_list(prs, visible_order(prs, filtered), banner, height))),
        forall|k: int|
            0 <= k < rows_shown(
                drawn_list(prs, visible_order(prs, filtered), banner, height),
            ).len() ==> filtered.contains(
                #[trigger] rows_shown(
                    drawn_list(prs, visible_order(prs, filtered), banner, height),
                )[k],
            ),
        full_list(prs, visible_order(prs, filtered), banner).len() <= height ==> rows_shown(
            drawn_list(prs, visible_order(prs, filtered), banner, height),
        ).to_multiset() == in_list(prs.len() as int, filtered).to_multiset(),
{
    broadcast use {
        vstd::seq_lib::group_to_multiset_ensures,
        vstd::multiset::group_multiset_axioms,
    };

    let visible = visible_order(prs, filtered);
    let valid = in_list(prs.len() as int, filtered);
    let full = full_list(prs, visible, banner);
    let v = rows_shown(drawn_list(prs, visible, banner, height));
    lemma_visible_order_by_section(prs, filtered);
    lemma_sections_part_the_list(prs, filtered);
    lemma_in_list(prs.len() as int, filtered);
    lemma_in_list(prs.len() as int, visible);
    lemma_full_list_rows(prs, visible, banner);
    lemma_rows_of_a_cut(full, height as int);
    assert(rows_shown(full) == visible);
    assert(v == visible.take(v.len() as int));
    // No row comes twice among the rows in the order of the sections.
    valid.lemma_multiset_has_no_duplicates();
    visible.lemma_multiset_has_no_duplicates_conv();
    assert forall|k: int| 0 <= k < v.len() implies filtered.contains(#[trigger] v[k]) by {
        assert(v[k] == visible[k]);
        assert(visible.contains(visible[k]));
        assert(valid.to_multiset().count(visible[k]) > 0);
        assert(valid.contains(visible[k]));
        let j = choose|j: int| 0 <= j < valid.len() && valid[j] == visible[k];
        assert(filtered.contains(valid[j]));
    }
    assert forall|i: int, j: int| 0 <= i < v.len() && 0 <= j < v.len() && i != j implies v[i]
        != v[j] by {
        assert(v[i] == visible[i] && v[j] == visible[j]);
    }
    assert forall|k: int| 0 <= k < v.len() implies (#[trigger] v[k]) < prs.len() by {
        assert(v[k] == visible[k]);
    }
    assert forall|a: int, b: int| 0 <= a < b < v.len() implies section_rank(
        section_of(&prs[v[a] as int]),
    ) <= section_rank(section_of(&prs[v[b] as int])) by {
        assert(v[a] == visible[a] && v[b] == visible[b]);
    }
    if full.len() <= height {
        assert(v == visible);
    }
}

} // verus!
