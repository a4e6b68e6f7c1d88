//! The decisions of a database update: how many attempts are made and what
//! is reported after them, what a download turns into, and the metrics kept
//! about updates. Downloading, reading and writing files, and waiting are
//! left to the program around the library.
use vstd::prelude::*;
use crate::db::error::DatabaseError;
use crate::db::scheduler::{UpdateResult, UpdateTrigger};
use crate::db::validator::{
    comparison_of, comparison_view, ComparisonResult, DatabaseValidator, StatsChange, ValidationResult,
    raw_validation, result_view, parsed_view,
};
use crate::process::database::{game_views, has_linux_exe, linux_games, GameEntry, GameView};
use crate::text::{chars_of, string_from_chars};

verus! {

/// Where the database and its backups and temporary files live.
pub struct FilePathConfig {
    pub database_file: String,
    pub backup_directory: String,
    pub temp_directory: String,
}

/// How backups are kept.
pub struct BackupConfig {
    pub max_backups: usize,
    pub compress_backups: bool,
    pub backup_on_update: bool,
    pub cleanup_interval: std::time::Duration,
}

/// What is known about the database file.
pub struct DatabaseInfo {
    pub path: String,
    pub exists: bool,
    pub size: Option<u64>,
    pub last_modified: Option<std::time::SystemTime>,
    pub game_count: Option<usize>,
    pub linux_game_count: Option<usize>,
    pub last_update: Option<std::time::SystemTime>,
}

/// Counts about updates and the current database.
pub struct DatabaseMetrics {
    pub last_update_timestamp: Option<std::time::SystemTime>,
    pub last_update_duration: Option<std::time::Duration>,
    pub total_update_attempts: u64,
    pub successful_updates: u64,
    pub failed_updates: u64,
    pub current_database_size: u64,
    pub current_game_count: usize,
    pub linux_game_count: usize,
    pub backup_count: usize,
}

impl FilePathConfig {
    /// The standard layout under `./data`.
    pub fn standard() -> (r: Self)
        ensures
            r.database_file@ == "./data/detectable.json"@,
            r.backup_directory@ == "./data/backups"@,
            r.temp_directory@ == "./data/temp"@,
    {
        FilePathConfig {
            database_file: string_from_chars(chars_of("./data/detectable.json").as_slice()),
            backup_directory: string_from_chars(chars_of("./data/backups").as_slice()),
            temp_directory: string_from_chars(chars_of("./data/temp").as_slice()),
        }
    }
}

impl DatabaseMetrics {
    /// No update made, nothing known.
    pub fn new() -> (r: Self)
        ensures
            r.last_update_timestamp is None,
            r.last_update_duration is None,
            r.total_update_attempts == 0,
            r.successful_updates == 0,
            r.failed_updates == 0,
            r.current_database_size == 0,
            r.current_game_count == 0,
            r.linux_game_count == 0,
            r.backup_count == 0,
    {
        DatabaseMetrics {
            last_update_timestamp: None,
            last_update_duration: None,
            total_update_attempts: 0,
            successful_updates: 0,
            failed_updates: 0,
            current_database_size: 0,
            current_game_count: 0,
            linux_game_count: 0,
            backup_count: 0,
        }
    }

    /// An update begins.
    pub fn begin_update(&mut self)
        requires
            old(self).total_update_attempts < u64::MAX,
        ensures
            final(self).total_update_attempts == old(self).total_update_attempts + 1,
            final(self).successful_updates == old(self).successful_updates,
            final(self).failed_updates == old(self).failed_updates,
    {
        self.total_update_attempts = self.total_update_attempts + 1;
    }

    /// An update succeeded at `completed_at`, after `duration`.
    pub fn record_success(&mut self, completed_at: std::time::SystemTime, duration: std::time::Duration)
        requires
            old(self).successful_updates < u64::MAX,
        ensures
            final(self).successful_updates == old(self).successful_updates + 1,
            final(self).last_update_timestamp == Some(completed_at),
            final(self).last_update_duration == Some(duration),
            final(self).total_update_attempts == old(self).total_update_attempts,
            final(self).failed_updates == old(self).failed_updates,
    {
        self.successful_updates = self.successful_updates + 1;
        self.last_update_timestamp = Some(completed_at);
        self.last_update_duration = Some(duration);
    }

    /// Every attempt of an update failed.
    pub fn record_failure(&mut self)
        requires
            old(self).failed_updates < u64::MAX,
        ensures
            final(self).failed_updates == old(self).failed_updates + 1,
            final(self).total_update_attempts == old(self).total_update_attempts,
            final(self).successful_updates == old(self).successful_updates,
    {
        self.failed_updates = self.failed_updates + 1;
    }

    /// Takes the current database's size and counts, and the number of
    /// backups; what is unknown counts as 0.
    pub fn refresh(&mut self, info: &DatabaseInfo, backup_count: usize)
        ensures
            final(self).current_database_size == match info.size { Some(s) => s, None => 0 },
            final(self).current_game_count == match info.game_count { Some(c) => c, None => 0 },
            final(self).linux_game_count == match info.linux_game_count { Some(c) => c, None => 0 },
            final(self).backup_count == backup_count,
            final(self).total_update_attempts == old(self).total_update_attempts,
            final(self).successful_updates == old(self).successful_updates,
            final(self).failed_updates == old(self).failed_updates,
    {
        self.current_database_size = match info.size {
            Some(s) => s,
            None => 0,
        };
        self.current_game_count = match info.game_count {
            Some(c) => c,
            None => 0,
        };
        self.linux_game_count = match info.linux_game_count {
            Some(c) => c,
            None => 0,
        };
        self.backup_count = backup_count;
    }
}

/// The game counts of the database file: all games and the Linux games,
/// when the file reads as a game list; unknown otherwise.
pub fn game_counts(parsed: &Result<Vec<GameEntry>, String>) -> (r: (Option<usize>, Option<usize>))
    ensures
        match parsed {
            Ok(games) => r == (Some(games@.len() as usize), Some(linux_games(game_views(games@)).len() as usize)),
            Err(_) => r == (None::<usize>, None::<usize>),
        },
{
    match parsed {
        Ok(games) => {
            let ghost gs = game_views(games@);
            let mut linux: usize = 0;
            let n = games.len();
            assert(gs.take(0) =~= Seq::<GameView>::empty());
            for i in 0..n
                invariant
                    n == games@.len(),
                    gs == game_views(games@),
                    linux == linux_games(gs.take(i as int)).len(),
                    linux <= i,
            {
                proof {
                    lemma_linux_games_len(gs.take(i as int));
                    assert(gs.take(i + 1).drop_last() =~= gs.take(i as int));
                    assert(gs.take(i + 1).last() == games@[i as int]@);
                }
                if games[i].has_linux_executable() {
                    linux = linux + 1;
                }
            }
            assert(gs.take(n as int) =~= gs);
            (Some(n), Some(linux))
        },
        Err(_) => (None, None),
    }
}

proof fn lemma_linux_games_len(gs: Seq<GameView>)
    ensures
        linux_games(gs).len() <= gs.len(),
    decreases gs.len(),
{
    if gs.len() > 0 {
        lemma_linux_games_len(gs.drop_last());
    }
}

/// The attempts of one update: how many were made of how many allowed, and
/// the error of the last one that failed.
pub struct UpdateRetry {
    attempt: u32,
    max_attempts: u32,
    last_error: Option<String>,
}

/// What follows a failed attempt.
pub enum RetryStep {
    /// Wait (the back-off for attempt `attempt`), then try again.
    RetryAfter { attempt: u32 },
    /// No attempt is left; the update fails with this message.
    Exhausted(String),
}

impl UpdateRetry {
    /// The number of attempts made.
    pub closed spec fn made(&self) -> u32 {
        self.attempt
    }

    /// The number of attempts allowed.
    pub closed spec fn allowed(&self) -> u32 {
        self.max_attempts
    }

    /// The error of the last failed attempt.
    pub closed spec fn last(&self) -> Option<Seq<char>> {
        match self.last_error {
            Some(e) => Some(e@),
            None => None,
        }
    }

    /// No attempt made yet, `max_attempts` allowed.
    pub fn new(max_attempts: u32) -> (r: Self)
        ensures
            r.made() == 0,
            r.allowed() == max_attempts,
            r.last() is None,
    {
        UpdateRetry { attempt: 0, max_attempts, last_error: None }
    }

    /// Whether another attempt is allowed.
    pub fn can_attempt(&self) -> (r: bool)
        ensures
            r == (self.made() < self.allowed()),
    {
        self.attempt < self.max_attempts
    }

    /// An attempt begins; its number is returned.
    pub fn begin_attempt(&mut self) -> (r: u32)
        requires
            old(self).made() < old(self).allowed(),
        ensures
            r == old(self).made() + 1,
            final(self).made() == r,
            final(self).allowed() == old(self).allowed(),
            final(self).last() == old(self).last(),
    {
        self.attempt = self.attempt + 1;
        self.attempt
    }

    /// The attempt failed with `error`: another follows when one is left
    /// (after the back-off for this attempt), else the update fails with
    /// this error.
    pub fn attempt_failed(&mut self, error: String) -> (r: RetryStep)
        ensures
            final(self).made() == old(self).made(),
            final(self).allowed() == old(self).allowed(),
            final(self).last() == Some(error@),
            old(self).made() < old(self).allowed() ==> r == (RetryStep::RetryAfter { attempt: old(self).made() }),
            old(self).made() >= old(self).allowed() ==> (r matches RetryStep::Exhausted(m) && m@ == error@),
    {
        if self.attempt < self.max_attempts {
            self.last_error = Some(error);
            RetryStep::RetryAfter { attempt: self.attempt }
        } else {
            let message = string_from_chars(chars_of(error.as_str()).as_slice());
            self.last_error = Some(error);
            RetryStep::Exhausted(message)
        }
    }

    /// The message of a failed update: the last error, or a generic one
    /// when no attempt was made.
    pub fn failure_message(&self) -> (r: String)
        ensures
            r@ == match self.last() {
                Some(e) => e,
                None => "Unknown update failure"@,
            },
    {
        match &self.last_error {
            Some(e) => string_from_chars(chars_of(e.as_str()).as_slice()),
            None => string_from_chars(chars_of("Unknown update failure").as_slice()),
        }
    }
}

/// The comparison reported when the server says the database did not
/// change: nothing added, removed or modified.
pub fn unchanged_comparison() -> (r: ComparisonResult)
    ensures
        r.added_games@.len() == 0,
        r.removed_games@.len() == 0,
        r.modified_games@.len() == 0,
        r.stats_change == (StatsChange {
            old_count: 0,
            new_count: 0,
            net_change: 0,
            added_count: 0,
            removed_count: 0,
            modified_count: 0,
        }),
{
    ComparisonResult {
        added_games: Vec::new(),
        removed_games: Vec::new(),
        modified_games: Vec::new(),
        stats_change: StatsChange {
            old_count: 0,
            new_count: 0,
            net_change: 0,
            added_count: 0,
            removed_count: 0,
            modified_count: 0,
        },
    }
}

/// The comparison reported when there was no database before: every game
/// is added.
pub fn first_comparison(new_games: &Vec<GameEntry>) -> (r: ComparisonResult)
    requires
        new_games@.len() <= i32::MAX,
    ensures
        game_views(r.added_games@) == game_views(new_games@),
        r.removed_games@.len() == 0,
        r.modified_games@.len() == 0,
        r.stats_change == (StatsChange {
            old_count: 0,
            new_count: new_games@.len() as usize,
            net_change: new_games@.len() as i32,
            added_count: new_games@.len() as usize,
            removed_count: 0,
            modified_count: 0,
        }),
{
    let mut added: Vec<GameEntry> = Vec::new();
    let n = new_games.len();
    for i in 0..n
        invariant
            n == new_games@.len(),
            game_views(added@) == game_views(new_games@).take(i as int),
    {
        let ghost before = added@;
        let g = new_games[i].duplicate();
        added.push(g);
        assert(game_views(added@) =~= game_views(before).push(g@));
        assert(game_views(added@) =~= game_views(new_games@).take(i + 1));
    }
    assert(game_views(new_games@).take(n as int) =~= game_views(new_games@));
    ComparisonResult {
        added_games: added,
        removed_games: Vec::new(),
        modified_games: Vec::new(),
        stats_change: StatsChange {
            old_count: 0,
            new_count: n,
            net_change: n as i32,
            added_count: n,
            removed_count: 0,
            modified_count: 0,
        },
    }
}

/// What a downloaded database turns into, before it is written: when it
/// validates, its comparison with the current games (all added when there
/// were none); otherwise the validation that refused it. `parsed` is what
/// the downloaded bytes read as, `current` what the current file read as,
/// when there is one.
pub fn assess_download(
    validator: &DatabaseValidator,
    data: &[u8],
    parsed: Result<Vec<GameEntry>, String>,
    current: Option<Vec<GameEntry>>,
) -> (r: Result<ComparisonResult, ValidationResult>)
    requires
        parsed matches Ok(g) ==> g@.len() <= i32::MAX,
        current matches Some(c) ==> c@.len() <= i32::MAX,
    ensures
        match r {
            Err(v) => result_view(v) == raw_validation(validator.config(), data@.len(), parsed_view(parsed))
                && !v.is_valid,
            Ok(c) => raw_validation(validator.config(), data@.len(), parsed_view(parsed)).0 && (parsed matches Ok(games)
                && match current {
                    Some(old) => comparison_view(c) == comparison_of(game_views(old@), game_views(games@)),
                    None => game_views(c.added_games@) == game_views(games@) && c.removed_games@.len() == 0
                        && c.modified_games@.len() == 0,
                }),
        },
{
    let games = match &parsed {
        Ok(g) => Some(copy_games(g)),
        Err(_) => None,
    };
    let validation = validator.validate_raw_data(data, parsed);
    if !validation.is_valid {
        return Err(validation);
    }
    let games = match games {
        Some(g) => g,
        None => {
            return Err(validation);
        },
    };
    match current {
        Some(old) => Ok(validator.compare_databases(&old, &games)),
        None => Ok(first_comparison(&games)),
    }
}

/// A copy of a game list.
fn copy_games(games: &Vec<GameEntry>) -> (r: Vec<GameEntry>)
    ensures
        game_views(r@) == game_views(games@),
{
    let mut r: Vec<GameEntry> = Vec::new();
    let n = games.len();
    for i in 0..n
        invariant
            n == games@.len(),
            game_views(r@) == game_views(games@).take(i as int),
    {
        let ghost before = r@;
        let g = games[i].duplicate();
        r.push(g);
        assert(game_views(r@) =~= game_views(before).push(g@));
        assert(game_views(r@) =~= game_views(games@).take(i + 1));
    }
    assert(game_views(games@).take(n as int) =~= game_views(games@));
    r
}

/// The result of an update that succeeded with the comparison.
pub fn update_succeeded(
    trigger: UpdateTrigger,
    started_at: std::time::SystemTime,
    completed_at: std::time::SystemTime,
    comparison: &ComparisonResult,
) -> (r: UpdateResult)
    ensures
        r.trigger == trigger,
        r.started_at == started_at,
        r.completed_at == completed_at,
        r.success,
        r.games_added == comparison.stats_change.added_count,
        r.games_removed == comparison.stats_change.removed_count,
        r.games_modified == comparison.stats_change.modified_count,
        r.error is None,
{
    UpdateResult {
        trigger,
        started_at,
        completed_at,
        success: true,
        games_added: comparison.stats_change.added_count,
        games_removed: comparison.stats_change.removed_count,
        games_modified: comparison.stats_change.modified_count,
        error: None,
    }
}

/// The error of an update whose every attempt failed.
pub fn update_failed(retry: &UpdateRetry) -> (r: DatabaseError)
    ensures
        r matches DatabaseError::ConfigError(m) && m@ == match retry.last() {
            Some(e) => e,
            None => "Unknown update failure"@,
        },
{
    DatabaseError::ConfigError(retry.failure_message())
}

} // verus!
