//! Validation of a downloaded game database, and comparison of two
//! versions of it.
use vstd::prelude::*;
use crate::process::database::{
    exe_views, game_views, opt_chars, ExecutableEntry, ExecutableView, GameEntry, GameView,
};
use vstd::hash_set::StringHashSet;
use vstd::hash_map::StringHashMap;
use crate::process::database::has_linux_exe;
use crate::text::{chars_of, decimal, decimal_chars, push_str, str_eq, string_from_chars, strings_equal, string_views};

verus! {

/// The outcome of a validation.
pub struct ValidationResult {
    pub is_valid: bool,
    pub errors: Vec<ValidationError>,
    pub warnings: Vec<ValidationWarning>,
    pub stats: ValidationStats,
}

/// Counts over a database.
#[derive(PartialEq, Eq, Structural, Debug)]
pub struct ValidationStats {
    pub total_games: usize,
    pub linux_games: usize,
    pub windows_games: usize,
    pub macos_games: usize,
    pub games_with_launchers: usize,
    pub unique_executables: usize,
}

impl Default for ValidationStats {
    fn default() -> (r: Self)
        ensures
            r == (ValidationStats {
                total_games: 0,
                linux_games: 0,
                windows_games: 0,
                macos_games: 0,
                games_with_launchers: 0,
                unique_executables: 0,
            }),
    {
        ValidationStats {
            total_games: 0,
            linux_games: 0,
            windows_games: 0,
            macos_games: 0,
            games_with_launchers: 0,
            unique_executables: 0,
        }
    }
}

/// A reason the database is refused.
#[derive(Debug)]
pub enum ValidationError {
    JsonParseError(String),
    SchemaViolation { game_index: usize, game_id: String, error: String },
    DuplicateId { game_index: usize, id: String },
    NoExecutables { game_index: usize, game_id: String },
    InvalidExecutable { game_index: usize, game_id: String, executable_index: usize, error: String },
}

/// Something odd about the database that does not refuse it (unless in
/// strict mode).
#[derive(Debug)]
pub enum ValidationWarning {
    DuplicateName { game_index: usize, name: String },
    NoLinuxExecutable { game_index: usize, game_id: String },
    EmptyName { game_index: usize, game_id: String },
}

/// The plain content of a `ValidationError`.
pub enum ErrorView {
    JsonParseError(Seq<char>),
    SchemaViolation { game_index: usize, game_id: Seq<char>, error: Seq<char> },
    DuplicateId { game_index: usize, id: Seq<char> },
    NoExecutables { game_index: usize, game_id: Seq<char> },
    InvalidExecutable { game_index: usize, game_id: Seq<char>, executable_index: usize, error: Seq<char> },
}

/// The plain content of a `ValidationWarning`.
pub enum WarningView {
    DuplicateName { game_index: usize, name: Seq<char> },
    NoLinuxExecutable { game_index: usize, game_id: Seq<char> },
    EmptyName { game_index: usize, game_id: Seq<char> },
}

impl View for ValidationError {
    type V = ErrorView;

    open spec fn view(&self) -> ErrorView {
        match self {
            ValidationError::JsonParseError(m) => ErrorView::JsonParseError(m@),
            ValidationError::SchemaViolation { game_index, game_id, error } =>
                ErrorView::SchemaViolation { game_index: *game_index, game_id: game_id@, error: error@ },
            ValidationError::DuplicateId { game_index, id } => ErrorView::DuplicateId { game_index: *game_index, id: id@ },
            ValidationError::NoExecutables { game_index, game_id } =>
                ErrorView::NoExecutables { game_index: *game_index, game_id: game_id@ },
            ValidationError::InvalidExecutable { game_index, game_id, executable_index, error } =>
                ErrorView::InvalidExecutable {
                    game_index: *game_index,
                    game_id: game_id@,
                    executable_index: *executable_index,
                    error: error@,
                },
        }
    }
}

impl View for ValidationWarning {
    type V = WarningView;

    open spec fn view(&self) -> WarningView {
        match self {
            ValidationWarning::DuplicateName { game_index, name } => WarningView::DuplicateName { game_index: *game_index, name: name@ },
            ValidationWarning::NoLinuxExecutable { game_index, game_id } =>
                WarningView::NoLinuxExecutable { game_index: *game_index, game_id: game_id@ },
            ValidationWarning::EmptyName { game_index, game_id } => WarningView::EmptyName { game_index: *game_index, game_id: game_id@ },
        }
    }
}

pub open spec fn error_views(s: Seq<ValidationError>) -> Seq<ErrorView> {
    Seq::new(s.len(), |i: int| s[i]@)
}

pub open spec fn warning_views(s: Seq<ValidationWarning>) -> Seq<WarningView> {
    Seq::new(s.len(), |i: int| s[i]@)
}

/// What differs between two versions of the database.
pub struct ComparisonResult {
    pub added_games: Vec<GameEntry>,
    pub removed_games: Vec<GameEntry>,
    pub modified_games: Vec<GameModification>,
    pub stats_change: StatsChange,
}

/// A game present in both versions whose content changed.
pub struct GameModification {
    pub id: String,
    pub old_game: GameEntry,
    pub new_game: GameEntry,
    pub changes: Vec<String>,
}

/// Counts of a comparison.
#[derive(PartialEq, Eq, Structural, Debug)]
pub struct StatsChange {
    pub old_count: usize,
    pub new_count: usize,
    pub net_change: i32,
    pub added_count: usize,
    pub removed_count: usize,
    pub modified_count: usize,
}

/// How strictly a database is validated.
pub struct ValidationConfig {
    pub strict_mode: bool,
    pub max_database_size: u64,
    pub min_game_count: usize,
    pub require_linux_games: bool,
}

impl Default for ValidationConfig {
    fn default() -> (r: Self)
        ensures
            !r.strict_mode,
            r.max_database_size == 10 * 1024 * 1024,
            r.min_game_count == 1000,
            r.require_linux_games,
    {
        ValidationConfig {
            strict_mode: false,
            max_database_size: 10 * 1024 * 1024,
            min_game_count: 1000,
            require_linux_games: true,
        }
    }
}

/// Validates databases against a configuration.
pub struct DatabaseValidator {
    config: ValidationConfig,
}

/// The text a boolean is written as.
pub open spec fn bool_text(b: bool) -> Seq<char> {
    if b { "true"@ } else { "false"@ }
}

/// The changes between two versions of a game, described in words, in this
/// order: name, aliases, hook, overlay, executables.
pub open spec fn changes_of(old: GameView, new: GameView) -> Seq<Seq<char>> {
    let a = if old.name != new.name {
        seq!["Name: '"@ + old.name + "' -> '"@ + new.name + "'"@]
    } else {
        Seq::empty()
    };
    let b = if old.aliases != new.aliases { seq!["Aliases changed"@] } else { Seq::empty() };
    let c = if old.hook != new.hook {
        seq!["Hook: "@ + bool_text(old.hook) + " -> "@ + bool_text(new.hook)]
    } else {
        Seq::empty()
    };
    let d = if old.overlay != new.overlay {
        seq!["Overlay: "@ + bool_text(old.overlay) + " -> "@ + bool_text(new.overlay)]
    } else {
        Seq::empty()
    };
    let e = if old.executables != new.executables { seq!["Executables changed"@] } else { Seq::empty() };
    a + b + c + d + e
}


/// A platform name the database may use.
pub open spec fn os_known(os: Seq<char>) -> bool {
    os == "linux"@ || os == "win32"@ || os == "darwin"@
}

/// The errors about the executables of the game at `index` with id `id`.
pub open spec fn exe_errors(exes: Seq<ExecutableView>, index: usize, id: Seq<char>) -> Seq<ErrorView>
    decreases exes.len(),
{
    if exes.len() == 0 {
        Seq::empty()
    } else {
        let k = (exes.len() - 1) as usize;
        let e = exes.last();
        let a = if e.name.len() == 0 {
            seq![ErrorView::InvalidExecutable { game_index: index, game_id: id, executable_index: k, error: "Executable name cannot be empty"@ }]
        } else {
            Seq::empty()
        };
        let b = if !os_known(e.os) {
            seq![ErrorView::InvalidExecutable { game_index: index, game_id: id, executable_index: k, error: "Invalid OS: "@ + e.os }]
        } else {
            Seq::empty()
        };
        exe_errors(exes.drop_last(), index, id) + a + b
    }
}

/// The errors about one game: an empty id, no executables, and those about
/// its executables.
pub open spec fn entry_errors(g: GameView, index: usize) -> Seq<ErrorView> {
    let a = if g.id.len() == 0 {
        seq![ErrorView::SchemaViolation { game_index: index, game_id: g.id, error: "Game ID cannot be empty"@ }]
    } else {
        Seq::empty()
    };
    let b = if g.executables.len() == 0 {
        seq![ErrorView::NoExecutables { game_index: index, game_id: g.id }]
    } else {
        Seq::empty()
    };
    a + b + exe_errors(g.executables, index, g.id)
}

/// The warnings about one game: an empty name.
pub open spec fn entry_warnings(g: GameView, index: usize) -> Seq<WarningView> {
    if g.name.len() == 0 {
        seq![WarningView::EmptyName { game_index: index, game_id: g.id }]
    } else {
        Seq::empty()
    }
}

/// An earlier game has the same id.
pub open spec fn id_seen_before(gs: Seq<GameView>, k: int) -> bool {
    exists|j: int| 0 <= j < k && gs[j].id == gs[k].id
}

/// An earlier game has the same name.
pub open spec fn name_seen_before(gs: Seq<GameView>, k: int) -> bool {
    exists|j: int| 0 <= j < k && gs[j].name == gs[k].name
}

/// The errors of the rules over the whole database: an id used before.
pub open spec fn rule_errors(gs: Seq<GameView>) -> Seq<ErrorView>
    decreases gs.len(),
{
    if gs.len() == 0 {
        Seq::empty()
    } else {
        let k = gs.len() - 1;
        let p = rule_errors(gs.drop_last());
        if id_seen_before(gs, k) {
            p.push(ErrorView::DuplicateId { game_index: k as usize, id: gs[k].id })
        } else {
            p
        }
    }
}

/// The warnings of the rules over the whole database: a name used before,
/// a game with no Linux executable.
pub open spec fn rule_warnings(gs: Seq<GameView>) -> Seq<WarningView>
    decreases gs.len(),
{
    if gs.len() == 0 {
        Seq::empty()
    } else {
        let k = gs.len() - 1;
        let p = rule_warnings(gs.drop_last());
        let a = if name_seen_before(gs, k) {
            seq![WarningView::DuplicateName { game_index: k as usize, name: gs[k].name }]
        } else {
            Seq::empty()
        };
        let b = if !has_linux_exe(gs[k]) {
            seq![WarningView::NoLinuxExecutable { game_index: k as usize, game_id: gs[k].id }]
        } else {
            Seq::empty()
        };
        p + a + b
    }
}

/// The game has an executable for the platform.
pub open spec fn has_os(g: GameView, os: Seq<char>) -> bool {
    exists|i: int| 0 <= i < g.executables.len() && g.executables[i].os == os
}

/// The game has a launcher executable.
pub open spec fn has_launcher(g: GameView) -> bool {
    exists|i: int| 0 <= i < g.executables.len() && g.executables[i].is_launcher
}

/// How many games have an executable for the platform.
pub open spec fn count_os(gs: Seq<GameView>, os: Seq<char>) -> nat
    decreases gs.len(),
{
    if gs.len() == 0 {
        0
    } else {
        count_os(gs.drop_last(), os) + if has_os(gs.last(), os) { 1nat } else { 0nat }
    }
}

/// How many games have a launcher executable.
pub open spec fn count_launchers(gs: Seq<GameView>) -> nat
    decreases gs.len(),
{
    if gs.len() == 0 {
        0
    } else {
        count_launchers(gs.drop_last()) + if has_launcher(gs.last()) { 1nat } else { 0nat }
    }
}

/// The executable names used in the database.
pub open spec fn exe_names(gs: Seq<GameView>) -> Set<Seq<char>> {
    Set::new(|n: Seq<char>| exists|i: int, k: int| 0 <= i < gs.len() && 0 <= k < gs[i].executables.len()
        && gs[i].executables[k].name == n)
}

/// The counts of a database.
pub open spec fn stats_of(gs: Seq<GameView>) -> ValidationStats {
    ValidationStats {
        total_games: gs.len() as usize,
        linux_games: count_os(gs, "linux"@) as usize,
        windows_games: count_os(gs, "win32"@) as usize,
        macos_games: count_os(gs, "darwin"@) as usize,
        games_with_launchers: count_launchers(gs) as usize,
        unique_executables: exe_names(gs).len() as usize,
    }
}


/// The errors about every game, game by game.
pub open spec fn all_entry_errors(gs: Seq<GameView>) -> Seq<ErrorView>
    decreases gs.len(),
{
    if gs.len() == 0 {
        Seq::empty()
    } else {
        all_entry_errors(gs.drop_last()) + entry_errors(gs.last(), (gs.len() - 1) as usize)
    }
}

/// The warnings about every game, game by game.
pub open spec fn all_entry_warnings(gs: Seq<GameView>) -> Seq<WarningView>
    decreases gs.len(),
{
    if gs.len() == 0 {
        Seq::empty()
    } else {
        all_entry_warnings(gs.drop_last()) + entry_warnings(gs.last(), (gs.len() - 1) as usize)
    }
}

/// An error about the database as a whole.
pub open spec fn global_error(message: Seq<char>) -> ErrorView {
    ErrorView::SchemaViolation { game_index: 0, game_id: "global"@, error: message }
}

/// The error for a database of more bytes than allowed.
pub open spec fn size_errors(size: nat, max: u64) -> Seq<ErrorView> {
    if size > max {
        seq![global_error("Database size "@ + decimal(size) + " exceeds maximum "@ + decimal(max as nat))]
    } else {
        Seq::empty()
    }
}

/// The outcome of validating `size` bytes that read as `parsed` (the games,
/// or why the bytes are no game list): validity, errors, warnings, counts.
pub open spec fn raw_validation(config: ValidationConfig, size: nat, parsed: Result<Seq<GameView>, Seq<char>>)
    -> (bool, Seq<ErrorView>, Seq<WarningView>, ValidationStats)
{
    match parsed {
        Err(m) => (false, size_errors(size, config.max_database_size).push(ErrorView::JsonParseError(m)), Seq::empty(),
            ValidationStats {
                total_games: 0,
                linux_games: 0,
                windows_games: 0,
                macos_games: 0,
                games_with_launchers: 0,
                unique_executables: 0,
            }),
        Ok(gs) => {
            let count = if gs.len() < config.min_game_count {
                seq![global_error("Game count "@ + decimal(gs.len()) + " below minimum "@ + decimal(config.min_game_count as nat))]
            } else {
                Seq::empty()
            };
            let stats = stats_of(gs);
            let linux = if config.require_linux_games && stats.linux_games == 0 {
                seq![global_error("No Linux games found in database"@)]
            } else {
                Seq::empty()
            };
            let errors = size_errors(size, config.max_database_size) + count + all_entry_errors(gs) + rule_errors(gs) + linux;
            let warnings = all_entry_warnings(gs) + rule_warnings(gs);
            (errors.len() == 0 && (!config.strict_mode || warnings.len() == 0), errors, warnings, stats)
        },
    }
}

/// The plain content of a validation result.
pub open spec fn result_view(r: ValidationResult) -> (bool, Seq<ErrorView>, Seq<WarningView>, ValidationStats) {
    (r.is_valid, error_views(r.errors@), warning_views(r.warnings@), r.stats)
}

/// The games, or the reason the bytes are no game list.
pub open spec fn parsed_view(parsed: Result<Vec<GameEntry>, String>) -> Result<Seq<GameView>, Seq<char>> {
    match parsed {
        Ok(v) => Ok(game_views(v@)),
        Err(m) => Err(m@),
    }
}


/// The position of the last game with the id.
pub open spec fn last_index(gs: Seq<GameView>, id: Seq<char>) -> Option<int>
    decreases gs.len(),
{
    if gs.len() == 0 {
        None
    } else if gs.last().id == id {
        Some(gs.len() - 1)
    } else {
        last_index(gs.drop_last(), id)
    }
}

/// The game at `i` is the last one with its id; a later game with the same
/// id takes its place.
pub open spec fn is_last_of_id(gs: Seq<GameView>, i: int) -> bool {
    last_index(gs, gs[i].id) == Some(i)
}

/// The games of `new` among its first `k` whose id `old` does not have.
pub open spec fn pick_added(old: Seq<GameView>, new: Seq<GameView>, k: int) -> Seq<GameView>
    decreases k,
{
    if k <= 0 {
        Seq::empty()
    } else {
        let p = pick_added(old, new, k - 1);
        let i = k - 1;
        if is_last_of_id(new, i) && last_index(old, new[i].id) is None {
            p.push(new[i])
        } else {
            p
        }
    }
}

/// A game present in both versions with a different content.
pub struct ModView {
    pub id: Seq<char>,
    pub old_game: GameView,
    pub new_game: GameView,
    pub changes: Seq<Seq<char>>,
}

/// The games of `new` among its first `k` whose id `old` has with another
/// content.
pub open spec fn pick_modified(old: Seq<GameView>, new: Seq<GameView>, k: int) -> Seq<ModView>
    decreases k,
{
    if k <= 0 {
        Seq::empty()
    } else {
        let p = pick_modified(old, new, k - 1);
        let i = k - 1;
        match last_index(old, new[i].id) {
            Some(j) => if is_last_of_id(new, i) && old[j] != new[i] {
                p.push(ModView { id: new[i].id, old_game: old[j], new_game: new[i], changes: changes_of(old[j], new[i]) })
            } else {
                p
            },
            None => p,
        }
    }
}

/// What a comparison finds, with the games of each version taken by id
/// (the last game with an id stands for it): the games only the new
/// version has, in its order; those only the old one has, in its order;
/// those whose content changed, in the new version's order; and the
/// counts.
pub open spec fn comparison_of(old: Seq<GameView>, new: Seq<GameView>) -> (Seq<GameView>, Seq<GameView>, Seq<ModView>, StatsChange) {
    let added = pick_added(old, new, new.len() as int);
    let removed = pick_added(new, old, old.len() as int);
    let modified = pick_modified(old, new, new.len() as int);
    (added, removed, modified, StatsChange {
        old_count: old.len() as usize,
        new_count: new.len() as usize,
        net_change: (new.len() - old.len()) as i32,
        added_count: added.len() as usize,
        removed_count: removed.len() as usize,
        modified_count: modified.len() as usize,
    })
}

pub open spec fn mod_views(s: Seq<GameModification>) -> Seq<ModView> {
    Seq::new(s.len(), |i: int| ModView {
        id: s[i].id@,
        old_game: s[i].old_game@,
        new_game: s[i].new_game@,
        changes: string_views(s[i].changes@),
    })
}

/// The plain content of a comparison.
pub open spec fn comparison_view(r: ComparisonResult) -> (Seq<GameView>, Seq<GameView>, Seq<ModView>, StatsChange) {
    (game_views(r.added_games@), game_views(r.removed_games@), mod_views(r.modified_games@), r.stats_change)
}

proof fn lemma_last_index(gs: Seq<GameView>, id: Seq<char>)
    ensures
        last_index(gs, id) matches Some(j) ==> 0 <= j < gs.len() && gs[j].id == id
            && forall|k: int| j < k < gs.len() ==> gs[k].id != id,
        last_index(gs, id) is None ==> forall|k: int| 0 <= k < gs.len() ==> gs[k].id != id,
    decreases gs.len(),
{
    if gs.len() > 0 {
        lemma_last_index(gs.drop_last(), id);
        assert forall|k: int| 0 <= k < gs.len() - 1 implies gs[k] == gs.drop_last()[k] by {}
    }
}

/// An index from id to the position of the last game with it, for the
/// first `i` games.
pub open spec fn indexes_last(m: Map<Seq<char>, usize>, gs: Seq<GameView>, i: int) -> bool {
    forall|id: Seq<char>| #[trigger] m.contains_key(id) == (last_index(gs.take(i), id) is Some)
        && (m.contains_key(id) ==> m[id] as int == last_index(gs.take(i), id)->Some_0)
}

/// A database that validates has no errors, and in strict mode no
/// warnings either; bytes that are no game list never validate.
pub proof fn law_valid_means_clean(config: ValidationConfig, size: nat, parsed: Result<Seq<GameView>, Seq<char>>)
    ensures
        raw_validation(config, size, parsed).0 ==> raw_validation(config, size, parsed).1.len() == 0,
        raw_validation(config, size, parsed).0 && config.strict_mode ==> raw_validation(config, size, parsed).2.len() == 0,
        parsed is Err ==> !raw_validation(config, size, parsed).0,
{
}

/// A database compared with itself shows no game added, removed or
/// modified.
pub proof fn law_self_comparison_is_empty(gs: Seq<GameView>)
    ensures
        comparison_of(gs, gs).0.len() == 0,
        comparison_of(gs, gs).1.len() == 0,
        comparison_of(gs, gs).2.len() == 0,
        comparison_of(gs, gs).3.net_change == 0,
{
    lemma_nothing_picked(gs, gs.len() as int);
}

/// The ids of modified games, in order.
pub open spec fn mod_ids(ms: Seq<ModView>) -> Seq<Seq<char>> {
    Seq::new(ms.len(), |i: int| ms[i].id)
}

/// Comparing two versions the other way round swaps the games added and
/// the games removed, finds the same ids modified (each once, so as many),
/// and, when the counts fit the net change's 32 bits, negates the net
/// change in the number of games.
pub proof fn law_comparison_reversed(a: Seq<GameView>, b: Seq<GameView>)
    ensures
        comparison_of(a, b).0 == comparison_of(b, a).1,
        comparison_of(a, b).1 == comparison_of(b, a).0,
        mod_ids(comparison_of(a, b).2).to_set() == mod_ids(comparison_of(b, a).2).to_set(),
        a.len() <= i32::MAX && b.len() <= i32::MAX
            ==> comparison_of(a, b).3.net_change == -comparison_of(b, a).3.net_change,
        comparison_of(a, b).3.added_count == comparison_of(b, a).3.removed_count,
        comparison_of(a, b).3.removed_count == comparison_of(b, a).3.added_count,
        comparison_of(a, b).3.modified_count == comparison_of(b, a).3.modified_count,
{
    let ab = mod_ids(comparison_of(a, b).2);
    let ba = mod_ids(comparison_of(b, a).2);
    assert(comparison_of(a, b).2 == pick_modified(a, b, b.len() as int));
    assert(comparison_of(b, a).2 == pick_modified(b, a, a.len() as int));
    assert forall|x: Seq<char>| ab.contains(x) <==> ba.contains(x) by {
        lemma_modified_ids(a, b, b.len() as int, x);
        lemma_modified_ids(b, a, a.len() as int, x);
        lemma_last_index(a, x);
        lemma_last_index(b, x);
    }
    assert(ab.to_set() =~= ba.to_set());
    lemma_modified_ids_distinct(a, b, b.len() as int);
    lemma_modified_ids_distinct(b, a, a.len() as int);
    ab.unique_seq_to_set();
    ba.unique_seq_to_set();
}

/// No id is modified twice.
proof fn lemma_modified_ids_distinct(old: Seq<GameView>, new: Seq<GameView>, k: int)
    requires
        0 <= k <= new.len(),
    ensures
        mod_ids(pick_modified(old, new, k)).no_duplicates(),
    decreases k,
{
    if k > 0 {
        lemma_modified_ids_distinct(old, new, k - 1);
        let p = pick_modified(old, new, k - 1);
        let i = k - 1;
        let y = new[i].id;
        if pick_modified(old, new, k) != p {
            let j = last_index(old, y)->Some_0;
            let m = ModView { id: y, old_game: old[j], new_game: new[i], changes: changes_of(old[j], new[i]) };
            assert(pick_modified(old, new, k) == p.push(m));
            assert(mod_ids(p.push(m)) =~= mod_ids(p).push(y));
            lemma_modified_ids(old, new, k - 1, y);
            assert(last_index(new, y) == Some(i));
            assert(!mod_ids(p).contains(y));
            assert forall|s: int, t: int| 0 <= s < mod_ids(p).len() + 1 && 0 <= t < mod_ids(p).len() + 1 && s != t
                implies mod_ids(p).push(y)[s] != mod_ids(p).push(y)[t] by {
                if s == mod_ids(p).len() {
                    assert(mod_ids(p)[t] != y);
                } else if t == mod_ids(p).len() {
                    assert(mod_ids(p)[s] != y);
                }
            }
        }
    }
}

/// An id is among the first `k` modified games of `new` against `old`
/// exactly when its last game in `new` stands before `k` and differs from
/// its last game in `old`.
proof fn lemma_modified_ids(old: Seq<GameView>, new: Seq<GameView>, k: int, x: Seq<char>)
    requires
        0 <= k <= new.len(),
    ensures
        mod_ids(pick_modified(old, new, k)).contains(x) <==> (last_index(new, x) matches Some(i) && i < k
            && (last_index(old, x) matches Some(j) && old[j] != new[i])),
    decreases k,
{
    lemma_last_index(new, x);
    lemma_last_index(old, x);
    if k > 0 {
        lemma_modified_ids(old, new, k - 1, x);
        let p = pick_modified(old, new, k - 1);
        let i = k - 1;
        let y = new[i].id;
        lemma_last_index(new, y);
        lemma_last_index(old, y);
        let rhs = last_index(new, x) matches Some(i2) && i2 < k && (last_index(old, x) matches Some(j) && old[j] != new[i2]);
        let rhs1 = last_index(new, x) matches Some(i2) && i2 < k - 1 && (last_index(old, x) matches Some(j) && old[j] != new[i2]);
        if y != x {
            assert(last_index(new, x) != Some(i));
            assert(rhs == rhs1);
        }
        let added = match last_index(old, y) {
            Some(j) => is_last_of_id(new, i) && old[j] != new[i],
            None => false,
        };
        if added {
            let j = last_index(old, y)->Some_0;
            let m = ModView { id: y, old_game: old[j], new_game: new[i], changes: changes_of(old[j], new[i]) };
            assert(pick_modified(old, new, k) == p.push(m));
            assert(mod_ids(p.push(m)) =~= mod_ids(p).push(y));
            assert(mod_ids(p.push(m)).contains(x) <==> (mod_ids(p).contains(x) || y == x)) by {
                if y == x {
                    assert(mod_ids(p.push(m))[mod_ids(p).len() as int] == x);
                }
                if mod_ids(p.push(m)).contains(x) && y != x {
                    let t = choose|t: int| 0 <= t < mod_ids(p.push(m)).len() && mod_ids(p.push(m))[t] == x;
                    assert(mod_ids(p)[t] == x);
                }
                if mod_ids(p).contains(x) {
                    let t = choose|t: int| 0 <= t < mod_ids(p).len() && mod_ids(p)[t] == x;
                    assert(mod_ids(p.push(m))[t] == x);
                }
            }
            if y == x {
                assert(last_index(new, x) == Some(i));
            }
        } else {
            assert(pick_modified(old, new, k) == p);
            if y == x && is_last_of_id(new, i) {
                assert(last_index(new, x) == Some(i));
                assert(!rhs);
            }
            if y == x && !is_last_of_id(new, i) {
                assert(last_index(new, x) != Some(i));
                assert(rhs == rhs1);
            }
        }
    } else {
        assert(mod_ids(pick_modified(old, new, k)) =~= Seq::<Seq<char>>::empty());
    }
}

proof fn lemma_nothing_picked(gs: Seq<GameView>, k: int)
    requires
        k <= gs.len(),
    ensures
        pick_added(gs, gs, k).len() == 0,
        pick_modified(gs, gs, k).len() == 0,
    decreases k,
{
    if k > 0 {
        lemma_nothing_picked(gs, k - 1);
        let i = k - 1;
        if is_last_of_id(gs, i) {
            assert(last_index(gs, gs[i].id) == Some(i));
        }
    }
}

proof fn lemma_os_names_differ()
    ensures
        "linux"@ != "win32"@,
        "linux"@ != "darwin"@,
        "win32"@ != "darwin"@,
{
    reveal_strlit("linux");
    reveal_strlit("win32");
    reveal_strlit("darwin");
    assert("linux"@[0] != "win32"@[0]);
    assert("linux"@[0] != "darwin"@[0]);
    assert("win32"@[0] != "darwin"@[0]);
}

proof fn lemma_counts_bounded(gs: Seq<GameView>, os: Seq<char>)
    ensures
        count_os(gs, os) <= gs.len(),
        count_launchers(gs) <= gs.len(),
    decreases gs.len(),
{
    if gs.len() > 0 {
        lemma_counts_bounded(gs.drop_last(), os);
    }
}

/// `true` or `false`, as a string.
fn bool_string(b: bool) -> (r: String)
    ensures
        r@ == bool_text(b),
{
    if b {
        string_from_chars(chars_of("true").as_slice())
    } else {
        string_from_chars(chars_of("false").as_slice())
    }
}

/// A new string with the characters of `s`.
fn owned(s: &str) -> (r: String)
    ensures
        r@ == s@,
{
    string_from_chars(chars_of(s).as_slice())
}

impl DatabaseValidator {
    /// A validator with the configuration.
    pub fn new(config: ValidationConfig) -> (r: Self)
        ensures
            r.config() == config,
    {
        DatabaseValidator { config }
    }

    /// The configuration.
    pub closed spec fn config(&self) -> ValidationConfig {
        self.config
    }

    /// Validates the bytes of a downloaded database; `parsed` is what the
    /// bytes read as a game list (see `raw_validation`).
    pub fn validate_raw_data(&self, data: &[u8], parsed: Result<Vec<GameEntry>, String>) -> (r: ValidationResult)
        ensures
            result_view(r) == raw_validation(self.config(), data@.len(), parsed_view(parsed)),
    {
        let ghost pv = parsed_view(parsed);
        let mut errors: Vec<ValidationError> = Vec::new();
        let mut warnings: Vec<ValidationWarning> = Vec::new();
        proof {
            reveal_strlit("global");
        }
        if data.len() as u64 > self.config.max_database_size {
            let mut m = owned("Database size ");
            push_str(&mut m, string_from_chars(decimal_chars(data.len() as u128).as_slice()).as_str());
            push_str(&mut m, " exceeds maximum ");
            push_str(&mut m, string_from_chars(decimal_chars(self.config.max_database_size as u128).as_slice()).as_str());
            errors.push(ValidationError::SchemaViolation { game_index: 0, game_id: owned("global"), error: m });
        }
        assert(error_views(errors@) =~= size_errors(data@.len(), self.config.max_database_size));
        let games = match parsed {
            Ok(games) => games,
            Err(e) => {
                let ghost before = error_views(errors@);
                errors.push(ValidationError::JsonParseError(e));
                assert(error_views(errors@) =~= before.push(ErrorView::JsonParseError(pv->Err_0)));
                assert(warning_views(warnings@) =~= Seq::<WarningView>::empty());
                return ValidationResult { is_valid: false, errors, warnings, stats: ValidationStats::default() };
            },
        };
        let ghost gs = game_views(games@);
        let ghost size_part = error_views(errors@);
        let ghost count = if gs.len() < self.config.min_game_count {
            seq![global_error("Game count "@ + decimal(gs.len()) + " below minimum "@ + decimal(self.config.min_game_count as nat))]
        } else {
            Seq::empty()
        };
        if games.len() < self.config.min_game_count {
            let mut m = owned("Game count ");
            push_str(&mut m, string_from_chars(decimal_chars(games.len() as u128).as_slice()).as_str());
            push_str(&mut m, " below minimum ");
            push_str(&mut m, string_from_chars(decimal_chars(self.config.min_game_count as u128).as_slice()).as_str());
            errors.push(ValidationError::SchemaViolation { game_index: 0, game_id: owned("global"), error: m });
        }
        let ghost head = error_views(errors@);
        assert(head =~= size_part + count);
        let n = games.len();
        assert(gs.take(0) =~= Seq::<GameView>::empty());
        for index in 0..n
            invariant
                n == games@.len(),
                gs == game_views(games@),
                error_views(errors@) == head + all_entry_errors(gs.take(index as int)),
                warning_views(warnings@) == all_entry_warnings(gs.take(index as int)),
        {
            assert(gs.take(index + 1).drop_last() =~= gs.take(index as int));
            assert(gs.take(index + 1).last() == games@[index as int]@);
            self.validate_single_entry(&games[index], index, &mut errors, &mut warnings);
            assert(error_views(errors@) =~= head + all_entry_errors(gs.take(index + 1)));
            assert(warning_views(warnings@) =~= all_entry_warnings(gs.take(index + 1)));
        }
        assert(gs.take(n as int) =~= gs);
        self.validate_business_rules(&games, &mut errors, &mut warnings);
        let stats = self.calculate_stats(&games);
        let ghost before_linux = error_views(errors@);
        assert(before_linux =~= size_part + count + all_entry_errors(gs) + rule_errors(gs));
        let ghost linux = if self.config.require_linux_games && stats.linux_games == 0 {
            seq![global_error("No Linux games found in database"@)]
        } else {
            Seq::empty()
        };
        if self.config.require_linux_games && stats.linux_games == 0 {
            errors.push(ValidationError::SchemaViolation {
                game_index: 0,
                game_id: owned("global"),
                error: owned("No Linux games found in database"),
            });
        }
        assert(error_views(errors@) =~= before_linux + linux);
        let is_valid = errors.len() == 0 && (!self.config.strict_mode || warnings.len() == 0);
        let r = ValidationResult { is_valid, errors, warnings, stats };
        proof {
            let expected = raw_validation(self.config(), data@.len(), pv);
            assert(error_views(r.errors@) =~= expected.1);
            assert(warning_views(r.warnings@) =~= expected.2);
        }
        r
    }

    /// The position of the last game with each id.
    fn last_positions(games: &Vec<GameEntry>) -> (r: StringHashMap<usize>)
        ensures
            indexes_last(r@, game_views(games@), games@.len() as int),
    {
        let ghost gs = game_views(games@);
        let mut m: StringHashMap<usize> = StringHashMap::new();
        let n = games.len();
        assert(gs.take(0) =~= Seq::<GameView>::empty());
        for i in 0..n
            invariant
                n == games@.len(),
                gs == game_views(games@),
                indexes_last(m@, gs, i as int),
        {
            let ghost before = m@;
            m.insert(games[i].id.clone(), i);
            proof {
                let t = gs.take(i + 1);
                assert(t.drop_last() =~= gs.take(i as int));
                assert(t.last() == games@[i as int]@);
                assert forall|id: Seq<char>| #[trigger] m@.contains_key(id) == (last_index(t, id) is Some)
                    && (m@.contains_key(id) ==> m@[id] as int == last_index(t, id)->Some_0) by {
                    if id != games@[i as int]@.id {
                        assert(before.contains_key(id) == m@.contains_key(id));
                    }
                }
            }
        }
        assert(gs.take(n as int) =~= gs);
        m
    }

    /// Compares two versions of the database (see `comparison_of`).
    pub fn compare_databases(&self, old: &Vec<GameEntry>, new: &Vec<GameEntry>) -> (r: ComparisonResult)
        requires
            old@.len() <= i32::MAX,
            new@.len() <= i32::MAX,
        ensures
            comparison_view(r) == comparison_of(game_views(old@), game_views(new@)),
    {
        let ghost ov = game_views(old@);
        let ghost nv = game_views(new@);
        let old_map = Self::last_positions(old);
        let new_map = Self::last_positions(new);
        assert(ov.take(old@.len() as int) =~= ov);
        assert(nv.take(new@.len() as int) =~= nv);
        let mut added_games: Vec<GameEntry> = Vec::new();
        let mut removed_games: Vec<GameEntry> = Vec::new();
        let mut modified_games: Vec<GameModification> = Vec::new();
        let n = new.len();
        for i in 0..n
            invariant
                n == new@.len(),
                ov == game_views(old@),
                nv == game_views(new@),
                indexes_last(old_map@, ov, ov.len() as int),
                indexes_last(new_map@, nv, nv.len() as int),
                ov.take(ov.len() as int) == ov,
                nv.take(nv.len() as int) == nv,
                game_views(added_games@) == pick_added(ov, nv, i as int),
                mod_views(modified_games@) == pick_modified(ov, nv, i as int),
        {
            let game = &new[i];
            assert(nv[i as int] == game@);
            let last = match new_map.get(game.id.as_str()) {
                Some(j) => *j == i,
                None => false,
            };
            proof {
                lemma_last_index(nv, game@.id);
                assert(last == is_last_of_id(nv, i as int));
            }
            match old_map.get(game.id.as_str()) {
                None => {
                    if last {
                        let ghost before = game_views(added_games@);
                        added_games.push(game.duplicate());
                        assert(game_views(added_games@) =~= before.push(nv[i as int]));
                    }
                },
                Some(j) => {
                    let j = *j;
                    proof {
                        lemma_last_index(ov, game@.id);
                    }
                    assert(j < old@.len());
                    let old_game = &old[j];
                    assert(ov[j as int] == old_game@);
                    if last && !self.games_equal(old_game, game) {
                        let ghost before = mod_views(modified_games@);
                        let changes = self.identify_changes(old_game, game);
                        let m = GameModification {
                            id: game.id.clone(),
                            old_game: old_game.duplicate(),
                            new_game: game.duplicate(),
                            changes,
                        };
                        modified_games.push(m);
                        assert(mod_views(modified_games@) =~= before.push(ModView {
                            id: nv[i as int].id,
                            old_game: ov[j as int],
                            new_game: nv[i as int],
                            changes: changes_of(ov[j as int], nv[i as int]),
                        }));
                    }
                },
            }
        }
        let m = old.len();
        for i in 0..m
            invariant
                m == old@.len(),
                ov == game_views(old@),
                nv == game_views(new@),
                indexes_last(old_map@, ov, ov.len() as int),
                indexes_last(new_map@, nv, nv.len() as int),
                ov.take(ov.len() as int) == ov,
                nv.take(nv.len() as int) == nv,
                game_views(removed_games@) == pick_added(nv, ov, i as int),
        {
            let game = &old[i];
            assert(ov[i as int] == game@);
            let last = match old_map.get(game.id.as_str()) {
                Some(j) => *j == i,
                None => false,
            };
            proof {
                lemma_last_index(ov, game@.id);
            }
            if last && !new_map.contains_key(game.id.as_str()) {
                let ghost before = game_views(removed_games@);
                removed_games.push(game.duplicate());
                assert(game_views(removed_games@) =~= before.push(ov[i as int]));
            }
        }
        let stats_change = StatsChange {
            old_count: old.len(),
            new_count: new.len(),
            net_change: new.len() as i32 - old.len() as i32,
            added_count: added_games.len(),
            removed_count: removed_games.len(),
            modified_count: modified_games.len(),
        };
        ComparisonResult { added_games, removed_games, modified_games, stats_change }
    }

    /// Checks one game: an empty id or no executables is an error, an empty
    /// name a warning, and every executable needs a name and a known
    /// platform.
    pub fn validate_single_entry(
        &self,
        game: &GameEntry,
        index: usize,
        errors: &mut Vec<ValidationError>,
        warnings: &mut Vec<ValidationWarning>,
    )
        ensures
            error_views(final(errors)@) == error_views(old(errors)@) + entry_errors(game@, index),
            warning_views(final(warnings)@) == warning_views(old(warnings)@) + entry_warnings(game@, index),
    {
        let ghost e0 = error_views(errors@);
        let ghost w0 = warning_views(warnings@);
        let ghost g = game@;
        if game.id.as_str().is_empty() {
            errors.push(ValidationError::SchemaViolation {
                game_index: index,
                game_id: game.id.clone(),
                error: owned("Game ID cannot be empty"),
            });
        }
        if game.name.as_str().is_empty() {
            warnings.push(ValidationWarning::EmptyName { game_index: index, game_id: game.id.clone() });
        }
        assert(warning_views(warnings@) =~= w0 + entry_warnings(g, index));
        if game.executables.len() == 0 {
            errors.push(ValidationError::NoExecutables { game_index: index, game_id: game.id.clone() });
        }
        let ghost head = if g.id.len() == 0 {
            seq![ErrorView::SchemaViolation { game_index: index, game_id: g.id, error: "Game ID cannot be empty"@ }]
        } else {
            Seq::empty()
        } + if g.executables.len() == 0 {
            seq![ErrorView::NoExecutables { game_index: index, game_id: g.id }]
        } else {
            Seq::empty()
        };
        assert(error_views(errors@) =~= e0 + head);
        let n = game.executables.len();
        assert(g.executables.take(0) =~= Seq::<ExecutableView>::empty());
        for k in 0..n
            invariant
                n == game.executables@.len(),
                g == game@,
                error_views(errors@) == e0 + head + exe_errors(g.executables.take(k as int), index, g.id),
        {
            let ghost before = error_views(errors@);
            let exe = &game.executables[k];
            proof {
                assert(g.executables.take(k + 1).drop_last() =~= g.executables.take(k as int));
                assert(g.executables.take(k + 1).last() == exe@);
                reveal_strlit("linux");
                reveal_strlit("win32");
                reveal_strlit("darwin");
            }
            let ghost a = if exe@.name.len() == 0 {
                seq![ErrorView::InvalidExecutable { game_index: index, game_id: g.id, executable_index: k, error: "Executable name cannot be empty"@ }]
            } else {
                Seq::empty()
            };
            let ghost b = if !os_known(exe@.os) {
                seq![ErrorView::InvalidExecutable { game_index: index, game_id: g.id, executable_index: k, error: "Invalid OS: "@ + exe@.os }]
            } else {
                Seq::empty()
            };
            assert(exe_errors(g.executables.take(k + 1), index, g.id) == exe_errors(g.executables.take(k as int), index, g.id) + a + b);
            if exe.name.as_str().is_empty() {
                errors.push(ValidationError::InvalidExecutable {
                    game_index: index,
                    game_id: game.id.clone(),
                    executable_index: k,
                    error: owned("Executable name cannot be empty"),
                });
            }
            assert(error_views(errors@) =~= before + a);
            let os = exe.os.as_str();
            if !(str_eq(os, "linux") || str_eq(os, "win32") || str_eq(os, "darwin")) {
                let mut m = owned("Invalid OS: ");
                push_str(&mut m, os);
                errors.push(ValidationError::InvalidExecutable {
                    game_index: index,
                    game_id: game.id.clone(),
                    executable_index: k,
                    error: m,
                });
            }
            assert(error_views(errors@) =~= before + a + b);
            assert(error_views(errors@) =~= e0 + head + exe_errors(g.executables.take(k + 1), index, g.id));
        }
        assert(g.executables.take(n as int) =~= g.executables);
        assert(error_views(errors@) =~= e0 + entry_errors(g, index));
    }

    /// Checks the rules over the whole database: an id used twice is an
    /// error; a name used twice and a game with no Linux executable are
    /// warnings.
    pub fn validate_business_rules(
        &self,
        games: &Vec<GameEntry>,
        errors: &mut Vec<ValidationError>,
        warnings: &mut Vec<ValidationWarning>,
    )
        ensures
            error_views(final(errors)@) == error_views(old(errors)@) + rule_errors(game_views(games@)),
            warning_views(final(warnings)@) == warning_views(old(warnings)@) + rule_warnings(game_views(games@)),
    {
        let ghost gs = game_views(games@);
        let ghost e0 = error_views(errors@);
        let ghost w0 = warning_views(warnings@);
        let mut seen_ids = StringHashSet::new();
        let mut seen_names = StringHashSet::new();
        let n = games.len();
        assert(gs.take(0) =~= Seq::<GameView>::empty());
        for i in 0..n
            invariant
                n == games@.len(),
                gs == game_views(games@),
                error_views(errors@) == e0 + rule_errors(gs.take(i as int)),
                warning_views(warnings@) == w0 + rule_warnings(gs.take(i as int)),
                forall|s: Seq<char>| #[trigger] seen_ids@.contains(s) <==> exists|j: int| 0 <= j < i && gs[j].id == s,
                forall|s: Seq<char>| #[trigger] seen_names@.contains(s) <==> exists|j: int| 0 <= j < i && gs[j].name == s,
        {
            let game = &games[i];
            let ghost t = gs.take(i + 1);
            proof {
                assert(t.drop_last() =~= gs.take(i as int));
                assert(gs[i as int] == game@);
                assert(t[i as int] == game@);
                assert forall|j: int| 0 <= j < i implies t[j] == gs[j] by {}
                assert(id_seen_before(t, i as int) == seen_ids@.contains(game@.id));
                assert(name_seen_before(t, i as int) == seen_names@.contains(game@.name));
            }
            let ghost eb = error_views(errors@);
            let ghost wb = warning_views(warnings@);
            let ghost dup = ErrorView::DuplicateId { game_index: i, id: game@.id };
            assert(rule_errors(t) == if id_seen_before(t, i as int) {
                rule_errors(gs.take(i as int)).push(dup)
            } else {
                rule_errors(gs.take(i as int))
            });
            let ghost wa = if name_seen_before(t, i as int) {
                seq![WarningView::DuplicateName { game_index: i, name: game@.name }]
            } else {
                Seq::empty()
            };
            let ghost wl = if !has_linux_exe(game@) {
                seq![WarningView::NoLinuxExecutable { game_index: i, game_id: game@.id }]
            } else {
                Seq::empty()
            };
            assert(rule_warnings(t) == rule_warnings(gs.take(i as int)) + wa + wl);
            if !seen_ids.insert(game.id.clone()) {
                errors.push(ValidationError::DuplicateId { game_index: i, id: game.id.clone() });
                assert(error_views(errors@) =~= eb.push(dup));
            }
            assert(error_views(errors@) =~= e0 + rule_errors(t));
            if !seen_names.insert(game.name.clone()) {
                warnings.push(ValidationWarning::DuplicateName { game_index: i, name: game.name.clone() });
            }
            assert(warning_views(warnings@) =~= wb + wa);
            let ghost wm = warning_views(warnings@);
            if !game.has_linux_executable() {
                warnings.push(ValidationWarning::NoLinuxExecutable { game_index: i, game_id: game.id.clone() });
            }
            assert(warning_views(warnings@) =~= wm + wl);
            assert(warning_views(warnings@) =~= w0 + rule_warnings(t));
            proof {
                assert forall|s: Seq<char>| #[trigger] seen_ids@.contains(s) <==> exists|j: int| 0 <= j < i + 1 && gs[j].id == s by {
                    if s == game@.id {
                        assert(gs[i as int].id == s);
                    }
                }
                assert forall|s: Seq<char>| #[trigger] seen_names@.contains(s) <==> exists|j: int| 0 <= j < i + 1 && gs[j].name == s by {
                    if s == game@.name {
                        assert(gs[i as int].name == s);
                    }
                }
            }
        }
        assert(gs.take(n as int) =~= gs);
    }

    /// The counts of a database (see `stats_of`).
    pub fn calculate_stats(&self, games: &Vec<GameEntry>) -> (r: ValidationStats)
        ensures
            r == stats_of(game_views(games@)),
    {
        let ghost gs = game_views(games@);
        let mut stats = ValidationStats::default();
        let mut names = StringHashSet::new();
        stats.total_games = games.len();
        let n = games.len();
        assert(gs.take(0) =~= Seq::<GameView>::empty());
        assert(names@ =~= exe_names(gs.take(0)));
        for i in 0..n
            invariant
                n == games@.len(),
                gs == game_views(games@),
                stats.total_games == n,
                stats.linux_games == count_os(gs.take(i as int), "linux"@),
                stats.windows_games == count_os(gs.take(i as int), "win32"@),
                stats.macos_games == count_os(gs.take(i as int), "darwin"@),
                stats.games_with_launchers == count_launchers(gs.take(i as int)),
                names@ == exe_names(gs.take(i as int)),
        {
            proof {
                lemma_counts_bounded(gs.take(i as int), "linux"@);
                lemma_counts_bounded(gs.take(i as int), "win32"@);
                lemma_counts_bounded(gs.take(i as int), "darwin"@);
                reveal_strlit("linux");
                reveal_strlit("win32");
                reveal_strlit("darwin");
            }
            let game = &games[i];
            let ghost g = game@;
            let ghost t = gs.take(i + 1);
            let ghost prev_names = names@;
            assert(t.drop_last() =~= gs.take(i as int));
            assert(t.last() == g);
            let mut has_linux = false;
            let mut has_windows = false;
            let mut has_macos = false;
            let mut has_launcher_exe = false;
            let m = game.executables.len();
            for k in 0..m
                invariant
                    m == game.executables@.len(),
                    g == game@,
                    has_linux == exists|x: int| 0 <= x < k && g.executables[x].os == "linux"@,
                    has_windows == exists|x: int| 0 <= x < k && g.executables[x].os == "win32"@,
                    has_macos == exists|x: int| 0 <= x < k && g.executables[x].os == "darwin"@,
                    has_launcher_exe == exists|x: int| 0 <= x < k && g.executables[x].is_launcher,
                    forall|s: Seq<char>| #[trigger] names@.contains(s) <==> (prev_names.contains(s)
                        || exists|x: int| 0 <= x < k && g.executables[x].name == s),
            {
                let exe = &game.executables[k];
                assert(g.executables[k as int] == exe@);
                proof {
                    lemma_os_names_differ();
                }
                names.insert(exe.name.clone());
                let os = exe.os.as_str();
                if str_eq(os, "linux") {
                    has_linux = true;
                } else if str_eq(os, "win32") {
                    has_windows = true;
                } else if str_eq(os, "darwin") {
                    has_macos = true;
                }
                if exe.is_launcher {
                    has_launcher_exe = true;
                }
            }
            if has_linux {
                stats.linux_games = stats.linux_games + 1;
            }
            if has_windows {
                stats.windows_games = stats.windows_games + 1;
            }
            if has_macos {
                stats.macos_games = stats.macos_games + 1;
            }
            if has_launcher_exe {
                stats.games_with_launchers = stats.games_with_launchers + 1;
            }
            proof {
                assert(has_linux == has_os(g, "linux"@));
                assert(has_windows == has_os(g, "win32"@));
                assert(has_macos == has_os(g, "darwin"@));
                assert(has_launcher_exe == has_launcher(g));
                assert forall|s: Seq<char>| names@.contains(s) == exe_names(t).contains(s) by {
                    if names@.contains(s) {
                        if prev_names.contains(s) {
                            let (a, b) = choose|a: int, b: int| 0 <= a < gs.take(i as int).len()
                                && 0 <= b < gs.take(i as int)[a].executables.len() && gs.take(i as int)[a].executables[b].name == s;
                            assert(t[a] == gs.take(i as int)[a]);
                        } else {
                            let x = choose|x: int| 0 <= x < m && g.executables[x].name == s;
                            assert(t[i as int].executables[x].name == s);
                        }
                    }
                    if exe_names(t).contains(s) {
                        let (a, b) = choose|a: int, b: int| 0 <= a < t.len() && 0 <= b < t[a].executables.len()
                            && t[a].executables[b].name == s;
                        if a < i {
                            assert(t[a] == gs.take(i as int)[a]);
                            assert(exe_names(gs.take(i as int)).contains(s));
                        } else {
                            assert(t[a] == g);
                        }
                    }
                }
                assert(names@ =~= exe_names(t));
            }
        }
        assert(gs.take(n as int) =~= gs);
        stats.unique_executables = names.len();
        stats
    }

    /// Whether two games agree in every field, executables included.
    pub fn games_equal(&self, old: &GameEntry, new: &GameEntry) -> (r: bool)
        ensures
            r == (old@ == new@),
    {
        let r = str_eq(old.id.as_str(), new.id.as_str()) && str_eq(old.name.as_str(), new.name.as_str())
            && strings_equal(&old.aliases, &new.aliases) && old.hook == new.hook && old.overlay == new.overlay
            && self.executables_equal(&old.executables, &new.executables);
        proof {
            if old@.id == new@.id && old@.name == new@.name && old@.aliases == new@.aliases && old@.hook == new@.hook
                && old@.overlay == new@.overlay && old@.executables == new@.executables {
                assert(old@ == new@);
            }
        }
        r
    }

    /// Whether two lists of executables agree, entry by entry, in name,
    /// platform, launcher flag and arguments.
    pub fn executables_equal(&self, old: &Vec<ExecutableEntry>, new: &Vec<ExecutableEntry>) -> (r: bool)
        ensures
            r == (exe_views(old@) == exe_views(new@)),
    {
        if old.len() != new.len() {
            assert(exe_views(old@).len() != exe_views(new@).len());
            return false;
        }
        let n = old.len();
        for i in 0..n
            invariant
                n == old@.len(),
                n == new@.len(),
                forall|k: int| 0 <= k < i ==> exe_views(old@)[k] == exe_views(new@)[k],
        {
            let a = &old[i];
            let b = &new[i];
            let same_args = match (&a.arguments, &b.arguments) {
                (Some(x), Some(y)) => str_eq(x.as_str(), y.as_str()),
                (None, None) => true,
                _ => false,
            };
            if !str_eq(a.name.as_str(), b.name.as_str()) || !str_eq(a.os.as_str(), b.os.as_str())
                || a.is_launcher != b.is_launcher || !same_args {
                assert(exe_views(old@)[i as int] != exe_views(new@)[i as int]);
                return false;
            }
            assert(exe_views(old@)[i as int] == a@);
            assert(exe_views(new@)[i as int] == b@);
        }
        assert(exe_views(old@) =~= exe_views(new@));
        true
    }

    /// The changes between two versions of a game (see `changes_of`).
    pub fn identify_changes(&self, old: &GameEntry, new: &GameEntry) -> (r: Vec<String>)
        ensures
            string_views(r@) == changes_of(old@, new@),
    {
        let mut changes: Vec<String> = Vec::new();
        if !str_eq(old.name.as_str(), new.name.as_str()) {
            let mut m = owned("Name: '");
            push_str(&mut m, old.name.as_str());
            push_str(&mut m, "' -> '");
            push_str(&mut m, new.name.as_str());
            push_str(&mut m, "'");
            changes.push(m);
        }
        if !strings_equal(&old.aliases, &new.aliases) {
            changes.push(owned("Aliases changed"));
        }
        if old.hook != new.hook {
            let mut m = owned("Hook: ");
            push_str(&mut m, bool_string(old.hook).as_str());
            push_str(&mut m, " -> ");
            push_str(&mut m, bool_string(new.hook).as_str());
            changes.push(m);
        }
        if old.overlay != new.overlay {
            let mut m = owned("Overlay: ");
            push_str(&mut m, bool_string(old.overlay).as_str());
            push_str(&mut m, " -> ");
            push_str(&mut m, bool_string(new.overlay).as_str());
            changes.push(m);
        }
        if !self.executables_equal(&old.executables, &new.executables) {
            changes.push(owned("Executables changed"));
        }
        assert(string_views(changes@) =~= changes_of(old@, new@));
        changes
    }
}

} // verus!
