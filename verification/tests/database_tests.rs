use arrus::database::http_client::response_for;
use arrus::database::{FetchError, FetchResponse};
use arrus::database::{DatabaseChange, ExecutableEntry, GameDBFetcher, GameDatabase, GameEntry, OperatingSystem};

fn create_test_game(id: &str, name: &str, executables: Vec<ExecutableEntry>) -> GameEntry {
    GameEntry {
        id: id.to_string(),
        name: name.to_string(),
        executables,
    }
}

fn create_test_executable(name: &str, os: OperatingSystem) -> ExecutableEntry {
    ExecutableEntry {
        name: name.to_string(),
        os,
        is_launcher: false,
        arguments: None,
    }
}

#[test]
fn test_diff_added() {
    let old_db = GameDatabase {
        entries: vec![create_test_game(
            "game1",
            "Game 1",
            vec![create_test_executable("game1.exe", OperatingSystem::Windows)],
        )],
        etag: "old".to_string(),
    };

    let new_db = GameDatabase {
        entries: vec![
            create_test_game(
                "game1",
                "Game 1",
                vec![create_test_executable("game1.exe", OperatingSystem::Windows)],
            ),
            create_test_game(
                "game2",
                "Game 2",
                vec![create_test_executable("game2.exe", OperatingSystem::Windows)],
            ),
        ],
        etag: "new".to_string(),
    };

    let result = GameDBFetcher::diff(&old_db, &new_db);
    assert!(matches!(result, DatabaseChange::Added));
}

#[test]
fn test_diff_touched() {
    let old_db = GameDatabase {
        entries: vec![create_test_game(
            "game1",
            "Game 1",
            vec![create_test_executable("game1.exe", OperatingSystem::Windows)],
        )],
        etag: "old".to_string(),
    };

    let new_db = GameDatabase {
        entries: vec![create_test_game(
            "game1",
            "Game 1",
            vec![
                create_test_executable("game1.exe", OperatingSystem::Windows),
                create_test_executable("game1_linux", OperatingSystem::Linux),
            ],
        )],
        etag: "new".to_string(),
    };

    let result = GameDBFetcher::diff(&old_db, &new_db);
    if let DatabaseChange::Touched(touched_ids) = result {
        assert_eq!(touched_ids, vec!["game1"]);
    } else {
        panic!("Expected DatabaseChange::Touched, got {:?}", result);
    }
}

#[test]
fn test_diff_none() {
    let old_db = GameDatabase {
        entries: vec![create_test_game(
            "game1",
            "Game 1",
            vec![create_test_executable("game1.exe", OperatingSystem::Windows)],
        )],
        etag: "old".to_string(),
    };

    let new_db = GameDatabase {
        entries: vec![create_test_game(
            "game1",
            "Game 1",
            vec![create_test_executable("game1.exe", OperatingSystem::Windows)],
        )],
        etag: "new".to_string(),
    };

    let result = GameDBFetcher::diff(&old_db, &new_db);
    assert!(matches!(result, DatabaseChange::Unchanged));
}

#[test]
fn diff_of_a_database_with_itself_is_unchanged() {
    let db = GameDatabase::new(
        vec![
            create_test_game("a", "A", vec![create_test_executable("a.exe", OperatingSystem::Windows)]),
            create_test_game("b", "B", vec![create_test_executable("b", OperatingSystem::Linux)]),
        ],
        "tag".to_string(),
    );
    assert!(matches!(GameDBFetcher::diff(&db, &db), DatabaseChange::Unchanged));
}

#[test]
fn diff_names_only_games_whose_executables_changed() {
    let old_db = GameDatabase::new(
        vec![
            create_test_game("a", "A", vec![create_test_executable("a.exe", OperatingSystem::Windows)]),
            create_test_game("b", "B", vec![create_test_executable("b", OperatingSystem::Linux)]),
        ],
        "1".to_string(),
    );
    let new_db = GameDatabase::new(
        vec![
            create_test_game("a", "A", vec![create_test_executable("a.exe", OperatingSystem::Windows)]),
            create_test_game("b", "B", vec![create_test_executable("b2", OperatingSystem::Linux)]),
        ],
        "2".to_string(),
    );
    match GameDBFetcher::diff(&old_db, &new_db) {
        DatabaseChange::Touched(ids) => assert_eq!(ids, vec!["b".to_string()]),
        other => panic!("unexpected {:?}", other),
    }
}

#[test]
fn etag_is_kept() {
    let db = GameDatabase::new(vec![], "abc".to_string());
    assert_eq!(db.get_etag(), "abc");
}

#[test]
fn answers_to_a_download() {
    let ok = response_for(200, vec![1, 2, 3], Some("\"t\"".to_string())).ok().unwrap();
    assert_eq!(ok.status, 200);
    assert_eq!(ok.data, vec![1, 2, 3]);
    assert_eq!(ok.etag.as_deref(), Some("\"t\""));
    let same = response_for(304, vec![9], Some("x".to_string())).ok().unwrap();
    assert_eq!(same.status, 304);
    assert!(same.data.is_empty());
    assert!(same.etag.is_none());
    assert!(matches!(response_for(500, vec![], None), Err(500)));
}

#[test]
fn fetch_keeps_the_store_when_not_modified() {
    let (tx, mut rx) = tokio::sync::broadcast::channel(4);
    let fetcher = GameDBFetcher(tx);
    let stored = GameDatabase::new(
        vec![create_test_game("a", "A", vec![create_test_executable("a", OperatingSystem::Linux)])],
        "v1".to_string(),
    );
    let kept = fetcher.complete_fetch(Some(&stored), FetchResponse::NotModified).ok().unwrap();
    assert_eq!(kept.get_etag(), "v1");
    assert_eq!(kept.entries.len(), 1);
    assert!(matches!(fetcher.complete_fetch(None, FetchResponse::NotModified), Err(FetchError::NotModifiedWithoutStore)));
    let fresh = fetcher
        .complete_fetch(
            Some(&stored),
            FetchResponse::Fresh {
                entries: vec![
                    create_test_game("a", "A", vec![create_test_executable("a", OperatingSystem::Linux)]),
                    create_test_game("b", "B", vec![]),
                ],
                etag: None,
            },
        )
        .ok()
        .unwrap();
    assert_eq!(fresh.get_etag(), "");
    assert!(matches!(rx.try_recv().unwrap(), DatabaseChange::Added));
}
