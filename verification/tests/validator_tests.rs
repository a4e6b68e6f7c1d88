use arrus::db::validator::{DatabaseValidator, ValidationConfig, ValidationError, ValidationStats, ValidationWarning};
use arrus::process::database::{ExecutableEntry, GameEntry};

fn exe(name: &str, os: &str, is_launcher: bool) -> ExecutableEntry {
    ExecutableEntry { name: name.to_string(), os: os.to_string(), is_launcher, arguments: None }
}

fn game(id: &str, name: &str, executables: Vec<ExecutableEntry>) -> GameEntry {
    GameEntry {
        id: id.to_string(),
        name: name.to_string(),
        executables,
        aliases: vec![],
        hook: false,
        overlay: false,
    }
}

fn lenient() -> DatabaseValidator {
    DatabaseValidator::new(ValidationConfig {
        strict_mode: false,
        max_database_size: 1000,
        min_game_count: 1,
        require_linux_games: true,
    })
}

#[test]
fn default_config_values() {
    let c = ValidationConfig::default();
    assert!(!c.strict_mode);
    assert_eq!(c.max_database_size, 10 * 1024 * 1024);
    assert_eq!(c.min_game_count, 1000);
    assert!(c.require_linux_games);
}

#[test]
fn unparsable_data_is_refused() {
    let r = lenient().validate_raw_data(b"not json", Err("expected value".to_string()));
    assert!(!r.is_valid);
    assert_eq!(r.errors.len(), 1);
    assert!(matches!(&r.errors[0], ValidationError::JsonParseError(m) if m == "expected value"));
    assert_eq!(r.stats, ValidationStats::default());
}

#[test]
fn a_sound_database_is_valid_with_its_counts() {
    let games = vec![
        game("1", "One", vec![exe("one", "linux", false), exe("one.exe", "win32", true)]),
        game("2", "Two", vec![exe("two.app", "darwin", false)]),
    ];
    let r = lenient().validate_raw_data(b"[..]", Ok(games));
    assert!(r.is_valid);
    assert!(r.errors.is_empty());
    assert_eq!(r.warnings.len(), 1);
    assert!(matches!(&r.warnings[0], ValidationWarning::NoLinuxExecutable { game_index: 1, game_id } if game_id == "2"));
    assert_eq!(
        r.stats,
        ValidationStats {
            total_games: 2,
            linux_games: 1,
            windows_games: 1,
            macos_games: 1,
            games_with_launchers: 1,
            unique_executables: 3,
        }
    );
}

#[test]
fn strict_mode_refuses_warnings() {
    let v = DatabaseValidator::new(ValidationConfig {
        strict_mode: true,
        max_database_size: 1000,
        min_game_count: 1,
        require_linux_games: false,
    });
    let r = v.validate_raw_data(b"[]", Ok(vec![game("1", "", vec![exe("a", "linux", false)])]));
    assert!(r.errors.is_empty());
    assert!(matches!(&r.warnings[0], ValidationWarning::EmptyName { game_index: 0, .. }));
    assert!(!r.is_valid);
}

#[test]
fn errors_of_entries_and_rules() {
    let games = vec![
        game("", "A", vec![]),
        game("x", "B", vec![exe("", "beos", false)]),
        game("x", "B", vec![exe("b", "linux", false)]),
    ];
    let data = vec![b' '; 2000];
    let r = lenient().validate_raw_data(&data, Ok(games));
    assert!(!r.is_valid);
    let m: Vec<String> = r
        .errors
        .iter()
        .map(|e| match e {
            ValidationError::SchemaViolation { error, .. } => error.clone(),
            ValidationError::NoExecutables { game_index, .. } => format!("none at {}", game_index),
            ValidationError::InvalidExecutable { error, executable_index, .. } => format!("{} #{}", error, executable_index),
            ValidationError::DuplicateId { game_index, id } => format!("dup {} at {}", id, game_index),
            ValidationError::JsonParseError(m) => m.clone(),
        })
        .collect();
    assert_eq!(
        m,
        vec![
            "Database size 2000 exceeds maximum 1000".to_string(),
            "Game ID cannot be empty".to_string(),
            "none at 0".to_string(),
            "Executable name cannot be empty #0".to_string(),
            "Invalid OS: beos #0".to_string(),
            "dup x at 2".to_string(),
        ]
    );
}

#[test]
fn too_few_games_and_no_linux() {
    let v = DatabaseValidator::new(ValidationConfig::default());
    let r = v.validate_raw_data(b"[]", Ok(vec![game("1", "A", vec![exe("a.exe", "win32", false)])]));
    assert!(!r.is_valid);
    assert!(matches!(&r.errors[0], ValidationError::SchemaViolation { error, .. } if error == "Game count 1 below minimum 1000"));
    assert!(matches!(&r.errors[1], ValidationError::SchemaViolation { game_id, error, .. }
        if game_id == "global" && error == "No Linux games found in database"));
}

#[test]
fn comparison_finds_added_removed_and_modified() {
    let old = vec![game("1", "One", vec![exe("one", "linux", false)]), game("2", "Two", vec![exe("two", "linux", false)])];
    let mut renamed = game("1", "Uno", vec![exe("one", "linux", false)]);
    renamed.hook = true;
    let new = vec![renamed, game("3", "Three", vec![exe("three", "linux", false)])];
    let c = lenient().compare_databases(&old, &new);
    assert_eq!(c.added_games.len(), 1);
    assert_eq!(c.added_games[0].id, "3");
    assert_eq!(c.removed_games.len(), 1);
    assert_eq!(c.removed_games[0].id, "2");
    assert_eq!(c.modified_games.len(), 1);
    assert_eq!(c.modified_games[0].id, "1");
    assert_eq!(c.modified_games[0].changes, vec!["Name: 'One' -> 'Uno'".to_string(), "Hook: false -> true".to_string()]);
    assert_eq!(c.stats_change.old_count, 2);
    assert_eq!(c.stats_change.new_count, 2);
    assert_eq!(c.stats_change.net_change, 0);
    assert_eq!(c.stats_change.added_count, 1);
    assert_eq!(c.stats_change.removed_count, 1);
    assert_eq!(c.stats_change.modified_count, 1);
}

#[test]
fn comparing_a_database_with_itself_finds_nothing() {
    let db = vec![game("1", "One", vec![exe("one", "linux", false)]), game("2", "Two", vec![])];
    let c = lenient().compare_databases(&db, &db);
    assert!(c.added_games.is_empty());
    assert!(c.removed_games.is_empty());
    assert!(c.modified_games.is_empty());
}

#[test]
fn comparing_the_other_way_round_swaps_added_and_removed() {
    let old = vec![
        game("1", "One", vec![exe("one", "linux", false)]),
        game("2", "Two", vec![]),
        game("4", "Four", vec![]),
    ];
    let new = vec![game("1", "Uno", vec![exe("one", "linux", false)]), game("3", "Three", vec![])];
    let v = lenient();
    let forward = v.compare_databases(&old, &new);
    let backward = v.compare_databases(&new, &old);
    let ids = |gs: &Vec<GameEntry>| gs.iter().map(|g| g.id.clone()).collect::<Vec<_>>();
    assert_eq!(ids(&forward.added_games), ids(&backward.removed_games));
    assert_eq!(ids(&forward.removed_games), ids(&backward.added_games));
    assert_eq!(forward.modified_games.len(), 1);
    assert_eq!(backward.modified_games.len(), 1);
    assert_eq!(forward.modified_games[0].id, backward.modified_games[0].id);
    assert_eq!(forward.stats_change.net_change, -1);
    assert_eq!(backward.stats_change.net_change, 1);
}

#[test]
fn change_descriptions() {
    let v = lenient();
    let a = game("1", "A", vec![exe("a", "linux", false)]);
    let mut b = game("1", "A", vec![exe("a", "linux", true)]);
    b.aliases = vec!["alias".to_string()];
    b.overlay = true;
    assert!(v.games_equal(&a, &game("1", "A", vec![exe("a", "linux", false)])));
    assert!(!v.games_equal(&a, &b));
    assert!(!v.executables_equal(&a.executables, &b.executables));
    assert_eq!(
        v.identify_changes(&a, &b),
        vec!["Aliases changed".to_string(), "Overlay: false -> true".to_string(), "Executables changed".to_string()]
    );
}
