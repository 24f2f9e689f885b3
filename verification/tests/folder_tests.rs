use videovault::folder::{
    resolve_thread_count, BuildError, FolderManager, ParallelScanConfig, DEFAULT_MAX_FILES_PER_DIR,
    HARD_DEPTH_CEILING,
};
use videovault::identity::generate_deterministic_root_id;

fn is_uuid_text(s: &str) -> bool {
    let c: Vec<char> = s.chars().collect();
    c.len() == 36
        && c.iter().enumerate().all(|(i, ch)| {
            if i == 8 || i == 13 || i == 18 || i == 23 {
                *ch == '-'
            } else {
                ch.is_ascii_digit() || ('a'..='f').contains(ch)
            }
        })
}

#[test]
fn test_add_root_folder() {
    let mut manager = FolderManager::new();
    let temp_dir = "/tmp".to_string();

    let id = manager.add_root_folder(temp_dir.clone(), Some("Test Folder".to_string()));
    let folder = manager.get_root_folder(&id);
    assert!(folder.is_some());
    assert_eq!(folder.unwrap().name, "Test Folder");
}

#[test]
fn test_remove_root_folder() {
    let mut manager = FolderManager::new();
    let temp_dir = "/tmp".to_string();

    let id = manager.add_root_folder(temp_dir, None);
    assert!(manager.remove_root_folder(&id));
    assert!(manager.get_root_folder(&id).is_none());
}

#[test]
fn a_new_folder_is_enabled_unlimited_and_never_scanned() {
    let mut manager = FolderManager::new();
    let id = manager.add_root_folder("/media/films".to_string(), None);
    assert!(is_uuid_text(&id), "{}", id);
    let folder = manager.get_root_folder(&id).unwrap();
    assert_eq!(folder.id, id);
    assert_eq!(folder.path, "/media/films");
    assert_eq!(folder.name, "films");
    assert!(folder.enabled);
    assert_eq!(folder.max_depth, -1);
    assert_eq!(folder.last_scan, None);
}

#[test]
fn a_folder_without_a_name_of_its_own_is_called_unknown() {
    let mut manager = FolderManager::new();
    let id = manager.add_root_folder("/".to_string(), None);
    assert_eq!(manager.get_root_folder(&id).unwrap().name, "Unknown");
}

#[test]
fn random_ids_differ() {
    let mut manager = FolderManager::new();
    let a = manager.add_root_folder("/a".to_string(), None);
    let b = manager.add_root_folder("/a".to_string(), None);
    assert_ne!(a, b);
    assert_eq!(manager.get_all_root_folders().len(), 2);
}

#[test]
fn folders_are_listed_in_the_order_of_registration() {
    let mut manager = FolderManager::new();
    assert!(manager.get_all_root_folders().is_empty());
    manager.add_root_folder_with_id("b".to_string(), "/b".to_string(), None);
    manager.add_root_folder_with_id("a".to_string(), "/a".to_string(), None);
    manager.add_root_folder_with_id("c".to_string(), "/c".to_string(), None);
    let ids: Vec<String> = manager.get_all_root_folders().iter().map(|f| f.id.clone()).collect();
    assert_eq!(ids, vec!["b", "a", "c"]);

    // Registering under a known id replaces the folder and keeps its place.
    let id = manager.add_root_folder_with_id("a".to_string(), "/other".to_string(), Some("n".to_string()));
    assert_eq!(id, "a");
    let all = manager.get_all_root_folders();
    assert_eq!(all.len(), 3);
    assert_eq!(all[1].id, "a");
    assert_eq!(all[1].path, "/other");
    assert_eq!(all[1].name, "n");

    assert!(manager.remove_root_folder("b"));
    assert!(!manager.remove_root_folder("b"));
    let ids: Vec<String> = manager.get_all_root_folders().iter().map(|f| f.id.clone()).collect();
    assert_eq!(ids, vec!["a", "c"]);
}

#[test]
fn deterministic_registration_repeats_the_id() {
    let mut manager = FolderManager::new();
    let first = manager.add_root_folder_deterministic("/media/films".to_string(), None, "unix:1:2");
    let again = manager.add_root_folder_deterministic("/media/films/".to_string(), None, "unix:1:2");
    assert_eq!(first, again);
    assert_eq!(first, generate_deterministic_root_id("/media/films", "unix:1:2"));
    assert_eq!(manager.get_all_root_folders().len(), 1);
    let moved = manager.add_root_folder_deterministic("/media/films".to_string(), None, "unix:9:2");
    assert_ne!(first, moved);
    assert_eq!(manager.get_all_root_folders().len(), 2);
}

#[test]
fn settings_of_a_folder_can_be_changed() {
    let mut manager = FolderManager::new();
    manager.add_root_folder_with_id("a".to_string(), "/a".to_string(), None);
    manager.add_root_folder_with_id("b".to_string(), "/b".to_string(), None);

    assert!(manager.set_folder_enabled("a", false));
    assert!(manager.set_max_depth("a", 3));
    assert!(manager.set_scan_time("a", 1700000000000));
    let a = manager.get_root_folder("a").unwrap();
    assert!(!a.enabled);
    assert_eq!(a.max_depth, 3);
    assert_eq!(a.last_scan, Some(1700000000000));
    assert_eq!(a.path, "/a");
    assert_eq!(a.name, "a");

    let b = manager.get_root_folder("b").unwrap();
    assert!(b.enabled);
    assert_eq!(b.max_depth, -1);
    assert_eq!(b.last_scan, None);

    assert!(!manager.set_folder_enabled("zz", false));
    assert!(!manager.set_max_depth("zz", 3));
    assert!(!manager.set_scan_time("zz", 1));
    assert!(!manager.update_scan_time("zz"));
    assert_eq!(manager.get_all_root_folders().len(), 2);
}

#[test]
fn update_scan_time_records_the_present() {
    let mut manager = FolderManager::new();
    manager.add_root_folder_with_id("a".to_string(), "/a".to_string(), None);
    assert!(manager.update_scan_time("a"));
    let stamp = manager.get_root_folder("a").unwrap().last_scan.unwrap();
    // After the year 2020 and before the year 2200, in milliseconds.
    assert!(stamp > 1_577_836_800_000, "{}", stamp);
    assert!(stamp < 7_258_118_400_000, "{}", stamp);
}

#[test]
fn default_settings() {
    let manager = FolderManager::new();
    let config = manager.get_parallel_config();
    assert!(config.max_threads >= 1);
    assert_eq!(config.max_files_per_dir, 10000);
    assert_eq!(config.max_depth, 100);
    assert!(config.enabled);
    assert_eq!(DEFAULT_MAX_FILES_PER_DIR, 10000);
    assert_eq!(HARD_DEPTH_CEILING, 100);
    assert_eq!(
        ParallelScanConfig::with_processors(6),
        ParallelScanConfig { max_threads: 6, max_files_per_dir: 10000, max_depth: 100, enabled: true }
    );
    let d = ParallelScanConfig::default();
    assert_eq!(d, ParallelScanConfig::with_processors(d.max_threads));
}

#[test]
fn settings_of_the_scan_can_be_changed() {
    let mut manager = FolderManager::new();
    manager.set_max_threads(3);
    manager.set_max_files_per_dir(50);
    manager.set_max_scan_depth(7);
    manager.set_parallel_scan_enabled(false);
    assert_eq!(
        *manager.get_parallel_config(),
        ParallelScanConfig { max_threads: 3, max_files_per_dir: 50, max_depth: 7, enabled: false }
    );
    manager.set_max_threads(0);
    assert!(manager.get_parallel_config().max_threads >= 1);
    assert_eq!(manager.get_parallel_config().max_files_per_dir, 50);

    let config = ParallelScanConfig { max_threads: 9, max_files_per_dir: 1, max_depth: 2, enabled: true };
    manager.update_parallel_config(config);
    assert_eq!(*manager.get_parallel_config(), config);
}

#[test]
fn thread_count_of_zero_means_every_processor() {
    assert_eq!(resolve_thread_count(0, 8), 8);
    assert_eq!(resolve_thread_count(3, 8), 3);
    assert_eq!(resolve_thread_count(16, 8), 16);
}

#[test]
fn build_errors_in_words() {
    assert_eq!(BuildError::NotFound.message(), "root folder not found");
    assert_eq!(BuildError::Disabled.message(), "root folder is disabled");
}
