//! The settings of a session: what the configuration file holds, what the
//! command line holds, and how the two are merged.

use vstd::prelude::*;
use vstd::string::*;
use crate::refresh::ScopeFilters;
use crate::tui::{RefreshIntervals, UiPrefs};

verus! {

/// Days of the attention window when nothing else is said.
pub const DEFAULT_DAYS: i64 = 30;

/// Seconds between automatic refreshes in the list when nothing else is said.
pub const DEFAULT_REFRESH_LIST_SECS: u64 = 180;

/// Seconds between automatic refreshes in the details view when nothing
/// else is said.
pub const DEFAULT_REFRESH_DETAILS_SECS: u64 = 30;

/// The configuration file written when there is none: every option, each
/// commented out.
pub const DEFAULT_CONFIG: &'static str = "# Needle configuration file\n\
# All fields are optional - CLI arguments override these values\n\
# Uncomment and modify the options you want to customize\n\
\n\
# Only include PRs updated in the last N days (default: 30)\n\
# days = 30\n\
\n\
# Only show PRs from these orgs/users\n\
# org = [\"my-company\", \"my-username\"]\n\
\n\
# Only show these specific repos (owner/repo)\n\
# include = [\"my-company/important-repo\"]\n\
\n\
# Exclude these repos from the list (owner/repo)\n\
# exclude = [\"my-company/noisy-repo\", \"my-company/legacy-repo\"]\n\
\n\
# Include PRs where review is requested from teams you're in (default: false)\n\
# include_team_requests = false\n\
\n\
# Ring terminal bell on important events (default: false)\n\
# bell = false\n\
\n\
# Disable desktop notifications (default: false, i.e. notifications enabled)\n\
# no_notifications = false\n\
\n\
# Hide columns in list view\n\
# hide_pr_numbers = false\n\
# hide_repo = false\n\
# hide_author = false\n\
\n\
# Auto-refresh intervals in seconds\n\
# refresh_interval_list_secs = 180    # 3 minutes for list view\n\
# refresh_interval_details_secs = 30  # 30 seconds for details view\n\
";

/// What the configuration file holds. Every field is optional.
#[derive(Debug)]
pub struct Config {
    /// Only take pull requests updated in the last N days.
    pub days: Option<i64>,
    /// Only show pull requests from these owners.
    pub org: Option<Vec<String>>,
    /// Only show these repositories (`owner/repo`); the option `include` of the file.
    pub include_repos: Option<Vec<String>>,
    /// Leave out these repositories (`owner/repo`).
    pub exclude: Option<Vec<String>>,
    /// Include pull requests whose review is requested from a team.
    pub include_team_requests: Option<bool>,
    /// Ring the terminal bell on important new events.
    pub bell: Option<bool>,
    /// Send no desktop notifications.
    pub no_notifications: Option<bool>,
    pub hide_pr_numbers: Option<bool>,
    pub hide_repo: Option<bool>,
    pub hide_author: Option<bool>,
    /// Seconds between automatic refreshes in the list.
    pub refresh_interval_list_secs: Option<u64>,
    /// Seconds between automatic refreshes in the details view.
    pub refresh_interval_details_secs: Option<u64>,
}

impl Default for Config {
    fn default() -> (c: Self)
        ensures
            c.days.is_none(),
            c.org.is_none(),
            c.include_repos.is_none(),
            c.exclude.is_none(),
            c.include_team_requests.is_none(),
            c.bell.is_none(),
            c.no_notifications.is_none(),
            c.hide_pr_numbers.is_none(),
            c.hide_repo.is_none(),
            c.hide_author.is_none(),
            c.refresh_interval_list_secs.is_none(),
            c.refresh_interval_details_secs.is_none(),
    {
        Config {
            days: None,
            org: None,
            include_repos: None,
            exclude: None,
            include_team_requests: None,
            bell: None,
            no_notifications: None,
            hide_pr_numbers: None,
            hide_repo: None,
            hide_author: None,
            refresh_interval_list_secs: None,
            refresh_interval_details_secs: None,
        }
    }
}

/// What the command line holds.
pub struct CliOptions {
    pub days: i64,
    pub org: Vec<String>,
    pub include_repos: Vec<String>,
    pub exclude: Vec<String>,
    pub include_team_requests: bool,
    pub bell: bool,
    pub no_notifications: bool,
    pub hide_pr_numbers: bool,
    pub hide_repo: bool,
    pub hide_author: bool,
}

/// The settings in force.
pub struct Settings {
    pub days: i64,
    pub scope: ScopeFilters,
    pub include_team_requests: bool,
    pub bell_enabled: bool,
    pub notify_enabled: bool,
    pub ui: UiPrefs,
    pub intervals: RefreshIntervals,
}

/// A list given on the command line wins where it is not empty; else the
/// list of the file, else the empty list.
pub open spec fn merged_list(cli: Seq<String>, file: Option<Vec<String>>) -> Seq<String> {
    if cli.len() > 0 {
        cli
    } else {
        match file {
            Some(v) => v@,
            None => Seq::empty(),
        }
    }
}

/// A switch is on when the command line sets it or the file does.
pub open spec fn merged_flag(cli: bool, file: Option<bool>) -> bool {
    cli || file == Some(true)
}

fn merge_list(cli: Vec<String>, file: Option<Vec<String>>) -> (r: Vec<String>)
    ensures
        r@ == merged_list(cli@, file),
{
    if cli.len() > 0 {
        cli
    } else {
        match file {
            Some(v) => v,
            None => Vec::new(),
        }
    }
}

fn merge_flag(cli: bool, file: Option<bool>) -> (r: bool)
    ensures
        r == merged_flag(cli, file),
{
    cli || match file {
        Some(v) => v,
        None => false,
    }
}

/// Merges the command line, the file and the defaults, in that order of
/// precedence. A number of days on the command line that is the default
/// gives way to the file's.
pub fn resolve(cli: CliOptions, config: Config) -> (s: Settings)
    ensures
        s.days == (if cli.days != DEFAULT_DAYS {
            cli.days
        } else {
            match config.days {
                Some(d) => d,
                None => DEFAULT_DAYS,
            }
        }),
        s.scope.orgs@ == merged_list(cli.org@, config.org),
        s.scope.include_repos@ == merged_list(cli.include_repos@, config.include_repos),
        s.scope.exclude_repos@ == merged_list(cli.exclude@, config.exclude),
        s.include_team_requests == merged_flag(cli.include_team_requests, config.include_team_requests),
        s.bell_enabled == merged_flag(cli.bell, config.bell),
        s.notify_enabled == !merged_flag(cli.no_notifications, config.no_notifications),
        s.ui.hide_pr_numbers == merged_flag(cli.hide_pr_numbers, config.hide_pr_numbers),
        s.ui.hide_repo == merged_flag(cli.hide_repo, config.hide_repo),
        s.ui.hide_author == merged_flag(cli.hide_author, config.hide_author),
        s.intervals.list_secs == (match config.refresh_interval_list_secs {
            Some(v) => v,
            None => DEFAULT_REFRESH_LIST_SECS,
        }),
        s.intervals.details_secs == (match config.refresh_interval_details_secs {
            Some(v) => v,
            None => DEFAULT_REFRESH_DETAILS_SECS,
        }),
{
    let days = if cli.days != DEFAULT_DAYS {
        cli.days
    } else {
        match config.days {
            Some(d) => d,
            None => DEFAULT_DAYS,
        }
    };
    Settings {
        days,
        scope: ScopeFilters {
            orgs: merge_list(cli.org, config.org),
            include_repos: merge_list(cli.include_repos, config.include_repos),
            exclude_repos: merge_list(cli.exclude, config.exclude),
        },
        include_team_requests: merge_flag(cli.include_team_requests, config.include_team_requests),
        bell_enabled: merge_flag(cli.bell, config.bell),
        notify_enabled: !merge_flag(cli.no_notifications, config.no_notifications),
        ui: UiPrefs {
            hide_pr_numbers: merge_flag(cli.hide_pr_numbers, config.hide_pr_numbers),
            hide_repo: merge_flag(cli.hide_repo, config.hide_repo),
            hide_author: merge_flag(cli.hide_author, config.hide_author),
        },
        intervals: RefreshIntervals {
            list_secs: match config.refresh_interval_list_secs {
                Some(v) => v,
                None => DEFAULT_REFRESH_LIST_SECS,
            },
            details_secs: match config.refresh_interval_details_secs {
                Some(v) => v,
                None => DEFAULT_REFRESH_DETAILS_SECS,
            },
        },
    }
}

} // verus!
