use arrus::db::file_manager::stale_temp_file;
use arrus::db::file_manager::{
    backup_file_name, backup_id, backup_id_from_file_name, backups_to_remove, checksum, join_path,
    sort_newest_first, temp_file_name, to_hex, BackupInfo, FileManager,
};

fn backup(id: &str, timestamp: u128) -> BackupInfo {
    BackupInfo {
        id: id.to_string(),
        timestamp,
        size: 1,
        checksum: String::new(),
        version_info: None,
    }
}

#[test]
fn checksum_is_sha256_in_lower_hex() {
    assert_eq!(checksum(b"abc"), "ba7816bf8f01cfea414140de5dae2223b00361a396177a9cb410ff61f20015ad");
    assert_eq!(checksum(b""), "e3b0c44298fc1c149afbf4c8996fb92427ae41e4649b934ca495991b7852b855");
}

#[test]
fn hex_encoding() {
    assert_eq!(to_hex(&[0x00, 0x0f, 0xa0, 0xff]), "000fa0ff");
}

#[test]
fn paths_are_joined_like_path_join() {
    assert_eq!(join_path("/var/db", "x.json"), "/var/db/x.json");
    assert_eq!(join_path("/var/db/", "x.json"), "/var/db/x.json");
    assert_eq!(join_path("", "x.json"), "x.json");
}

#[test]
fn layout_under_the_base_path() {
    let fm = FileManager::new("/data");
    assert_eq!(fm.get_database_path(), "/data/detectable.json");
    assert_eq!(fm.get_temp_dir(), "/data/temp");
    assert_eq!(fm.get_backup_dir(), "/data/backups");
    assert_eq!(fm.backup_path("17_manual"), "/data/backups/17_manual.json");
    let temp = fm.new_temp_path();
    assert!(temp.starts_with("/data/temp/detectable_"));
    assert!(temp.ends_with(".json.tmp"));
    assert_eq!(temp.len(), "/data/temp/detectable_".len() + 36 + ".json.tmp".len());
    assert_ne!(fm.new_temp_path(), temp);
}

#[test]
fn backup_names() {
    assert_eq!(backup_id(1700000000, "pre_update"), "1700000000_pre_update");
    assert_eq!(backup_file_name("1_a"), "1_a.json");
    assert_eq!(temp_file_name("abc"), "detectable_abc.json.tmp");
    assert_eq!(backup_id_from_file_name("1_a.json"), Some("1_a".to_string()));
    assert_eq!(backup_id_from_file_name(".json"), None);
    assert_eq!(backup_id_from_file_name("1_a.txt"), None);
}

#[test]
fn backups_sorted_newest_first() {
    let sorted = sort_newest_first(vec![backup("a", 5), backup("b", 9), backup("c", 1), backup("d", 7)]);
    let ids: Vec<&str> = sorted.iter().map(|b| b.id.as_str()).collect();
    assert_eq!(ids, vec!["b", "d", "a", "c"]);
    assert!(sort_newest_first(vec![]).is_empty());
}

#[test]
fn old_backups_beyond_the_kept_count_are_removed() {
    let list = vec![backup("a", 3), backup("b", 2), backup("c", 1)];
    assert_eq!(backups_to_remove(&list, 1), vec![1, 2]);
    assert_eq!(backups_to_remove(&list, 3), Vec::<usize>::new());
    assert_eq!(backups_to_remove(&list, 10), Vec::<usize>::new());
}

#[test]
fn stale_temporary_copies() {
    assert!(stale_temp_file("detectable_x.json.tmp", 3601));
    assert!(!stale_temp_file("detectable_x.json.tmp", 3600));
    assert!(!stale_temp_file(".tmp", 99999));
    assert!(stale_temp_file("a.tmp", 99999));
    assert!(!stale_temp_file("a.json", 99999));
}

#[test]
fn backups_made_at_the_same_time_keep_their_order() {
    let sorted = sort_newest_first(vec![backup("a", 5), backup("b", 7), backup("c", 5), backup("d", 7)]);
    let ids: Vec<&str> = sorted.iter().map(|b| b.id.as_str()).collect();
    assert_eq!(ids, vec!["b", "d", "a", "c"]);
}
