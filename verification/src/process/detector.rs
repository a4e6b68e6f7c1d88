//! The process detector: on every scan, the running processes are matched
//! against the Linux games of the database and the activity bookkeeping is
//! updated with the games found.
use vstd::prelude::*;
use crate::activity::types::{ActiveView, ActivityMessage};
use crate::activity::{realizes_all, scan_step, sighting_views, SightingView};
use crate::outside::{duration_from_secs, seconds_duration};
use crate::process::activity_manager::{detected_sightings, ActivityManager};
use crate::process::database::{first_linux_match, linux_games, GameDatabase, GameEntry, GameView};
use crate::process::path_processor::{normalized_path, path_variants, PathProcessor};
use crate::process::scanner::{ProcessInfo, ProcessScanner, ProcessView};
use crate::text::string_views;

verus! {

/// What a scan found for one process: the first Linux game matching its
/// path variants and arguments.
pub open spec fn process_outcome(db: Seq<GameView>, p: ProcessView) -> Option<(GameView, u32)> {
    let lg = linux_games(db);
    match first_linux_match(lg, path_variants(normalized_path(p.path)), p.args) {
        Some(j) => Some((lg[j], p.pid)),
        None => None,
    }
}

/// The games found among the processes, in process order.
pub open spec fn games_found(db: Seq<GameView>, procs: Seq<ProcessView>) -> Seq<(GameView, u32)>
    decreases procs.len(),
{
    if procs.len() == 0 {
        Seq::empty()
    } else {
        let prev = games_found(db, procs.drop_last());
        match process_outcome(db, procs.last()) {
            Some(x) => prev.push(x),
            None => prev,
        }
    }
}

/// The sightings that the games found stand for.
pub open spec fn found_sightings(found: Seq<(GameView, u32)>) -> Seq<SightingView> {
    Seq::new(found.len(), |i: int| SightingView { id: found[i].0.id, name: found[i].0.name, pid: found[i].1 })
}

pub open spec fn process_views(v: Seq<ProcessInfo>) -> Seq<ProcessView> {
    Seq::new(v.len(), |i: int| v[i]@)
}

/// What one scan counted.
pub struct ScanStats {
    pub processes_scanned: usize,
    pub games_detected: usize,
}

/// Matches the running processes against the game database on every scan.
pub struct ProcessDetector {
    scanner: ProcessScanner,
    path_processor: PathProcessor,
    database: GameDatabase,
    activity_manager: ActivityManager,
    scan_interval: std::time::Duration,
}

impl ProcessDetector {
    /// The games of the database in use.
    pub closed spec fn games(&self) -> Seq<GameView> {
        self.database.games()
    }

    /// The games currently running.
    pub closed spec fn running(&self) -> Seq<ActiveView> {
        self.activity_manager.running()
    }

    /// How often a scan runs.
    pub closed spec fn interval(&self) -> std::time::Duration {
        self.scan_interval
    }

    /// Every activity message handed to the message channel so far.
    pub closed spec fn sent_log(&self) -> Seq<ActivityMessage> {
        self.activity_manager.sent_log()
    }

    /// A detector over a loaded database that sends activity messages to
    /// `message_sender`; no game runs yet, and it scans every five seconds.
    pub fn new(database: GameDatabase, message_sender: tokio::sync::mpsc::UnboundedSender<ActivityMessage>) -> (r: Self)
        ensures
            r.games() == database.games(),
            r.running() == Seq::<ActiveView>::empty(),
            r.sent_log() == Seq::<ActivityMessage>::empty(),
            r.interval() == seconds_duration(5),
            r.scan_root() == "/proc"@,
    {
        ProcessDetector {
            scanner: ProcessScanner::new(),
            path_processor: PathProcessor::new(),
            database,
            activity_manager: ActivityManager::new(message_sender),
            scan_interval: duration_from_secs(5),
        }
    }

    /// The directory the processes are read from.
    pub closed spec fn scan_root(&self) -> Seq<char> {
        self.scanner.proc_path()
    }

    /// The scanner the processes are read with.
    pub fn scanner(&self) -> (r: &ProcessScanner)
        ensures
            r.proc_path() == self.scan_root(),
    {
        &self.scanner
    }

    /// Puts a freshly loaded database in place of the one in use.
    pub fn replace_database(&mut self, database: GameDatabase)
        ensures
            final(self).games() == database.games(),
            final(self).running() == old(self).running(),
            final(self).interval() == old(self).interval(),
            final(self).scan_root() == old(self).scan_root(),
    {
        self.database = database;
    }

    /// Sets how often a scan runs.
    pub fn set_scan_interval(&mut self, interval: std::time::Duration)
        ensures
            final(self).interval() == interval,
            final(self).games() == old(self).games(),
            final(self).running() == old(self).running(),
            final(self).scan_root() == old(self).scan_root(),
    {
        self.scan_interval = interval;
    }

    /// How often a scan runs.
    pub fn scan_interval(&self) -> (r: std::time::Duration)
        ensures
            r == self.interval(),
    {
        self.scan_interval
    }

    /// One scan over the processes read from the system: each is matched
    /// against the database, and the running games are updated with the
    /// games found.
    pub fn scan_cycle(&mut self, processes: Vec<ProcessInfo>) -> (stats: ScanStats)
        ensures
            stats.processes_scanned == processes@.len(),
            stats.games_detected == games_found(old(self).games(), process_views(processes@)).len(),
            final(self).games() == old(self).games(),
            exists|now: u64| final(self).running() == scan_step(
                old(self).running(),
                found_sightings(games_found(old(self).games(), process_views(processes@))),
                now,
            ).0 && realizes_all(
                final(self).sent_log().skip(old(self).sent_log().len() as int),
                scan_step(old(self).running(), found_sightings(games_found(old(self).games(), process_views(processes@))), now).1,
            ),
            final(self).sent_log().len() >= old(self).sent_log().len(),
            final(self).sent_log().take(old(self).sent_log().len() as int) == old(self).sent_log(),
            final(self).interval() == old(self).interval(),
            final(self).scan_root() == old(self).scan_root(),
    {
        let ghost db = self.games();
        let ghost pv = process_views(processes@);
        let ghost before = self.running();
        let process_count = processes.len();
        let mut detected: Vec<(&GameEntry, u32)> = Vec::new();
        for i in 0..process_count
            invariant
                process_count == processes@.len(),
                pv == process_views(processes@),
                db == self.database.games(),
                detected@.len() == games_found(db, pv.take(i as int)).len(),
                forall|k: int| #![trigger detected@[k]] 0 <= k < detected@.len() ==>
                    (detected@[k].0@, detected@[k].1) == games_found(db, pv.take(i as int))[k],
        {
            let process = &processes[i];
            proof {
                assert(pv.take(i + 1).drop_last() =~= pv.take(i as int));
                assert(pv.take(i + 1).last() == process@);
            }
            let path_info = self.path_processor.process_path(process.executable_path.as_str());
            let found = self.database.find_match(&path_info, process.arguments.as_slice());
            match found {
                Some(game) => {
                    detected.push((game, process.pid));
                },
                None => {},
            }
        }
        assert(pv.take(process_count as int) =~= pv);
        let game_count = detected.len();
        let ghost dv = detected@;
        proof {
            let found = games_found(db, pv);
            assert(sighting_views(detected_sightings(dv)) =~= found_sightings(found)) by {
                assert forall|i: int| 0 <= i < found.len() implies
                    #[trigger] sighting_views(detected_sightings(dv))[i] == found_sightings(found)[i] by {
                    assert((dv[i].0@, dv[i].1) == found[i]);
                }
            }
        }
        self.activity_manager.update_detected_games(detected);
        proof {
            let sv = sighting_views(detected_sightings(dv));
            let now = choose|now: u64| self.activity_manager.running() == scan_step(before, sv, now).0
                && realizes_all(self.activity_manager.sent_log().skip(old(self).sent_log().len() as int), scan_step(before, sv, now).1);
            assert(self.running() == scan_step(before, found_sightings(games_found(db, pv)), now).0);
        }
        ScanStats { processes_scanned: process_count, games_detected: game_count }
    }
}

} // verus!
