use ucp_gui_core::digest::get_sha256_of_bytes;
use ucp_gui_core::errors::GuiError;
use ucp_gui_core::file_support::filter_paths;
use ucp_gui_core::levels::{
    get_level_from_usize, get_level_or_default_from_string, Level, LevelFilter,
};
use ucp_gui_core::recent::{GuiConfig, RecentFolder};

#[test]
fn level_from_usize_maps_the_known_numbers() {
    assert_eq!(get_level_from_usize(1), Ok(Level::Error));
    assert_eq!(get_level_from_usize(2), Ok(Level::Warn));
    assert_eq!(get_level_from_usize(3), Ok(Level::Info));
    assert_eq!(get_level_from_usize(4), Ok(Level::Debug));
    assert_eq!(get_level_from_usize(5), Ok(Level::Trace));
    assert_eq!(
        get_level_from_usize(0),
        Err("Received invalid log level number.".to_string())
    );
    assert_eq!(
        get_level_from_usize(6),
        Err("Received invalid log level number.".to_string())
    );
}

#[test]
fn level_names_parse_in_any_letter_case() {
    assert_eq!(get_level_or_default_from_string("OFF"), LevelFilter::Off);
    assert_eq!(get_level_or_default_from_string("off"), LevelFilter::Off);
    assert_eq!(get_level_or_default_from_string("Error"), LevelFilter::Error);
    assert_eq!(get_level_or_default_from_string("warn"), LevelFilter::Warn);
    assert_eq!(get_level_or_default_from_string("iNfO"), LevelFilter::Info);
    assert_eq!(get_level_or_default_from_string("DEBUG"), LevelFilter::Debug);
    assert_eq!(get_level_or_default_from_string("trace"), LevelFilter::Trace);
}

#[test]
fn unknown_level_names_fall_back_to_the_default() {
    assert_eq!(get_level_or_default_from_string(""), LevelFilter::Info);
    assert_eq!(get_level_or_default_from_string("verbose"), LevelFilter::Info);
    assert_eq!(get_level_or_default_from_string("INFOS"), LevelFilter::Info);
}

#[test]
fn recent_folder_keeps_path_and_date() {
    let mut rf = RecentFolder::new("/home/someone/project", 1_000);
    assert_eq!(rf.path, "/home/someone/project");
    assert_eq!(rf.date, 1_000);
    rf.update_entry_date(2_000);
    assert_eq!(rf.path, "/home/someone/project");
    assert_eq!(rf.date, 2_000);
}

#[test]
fn selecting_folders_keeps_newest_first() {
    let mut config = GuiConfig::new();
    assert_eq!(config.select_recent_folder("/a", true, 10), Some("/a".to_string()));
    assert_eq!(config.select_recent_folder("/b", true, 20), Some("/b".to_string()));
    assert_eq!(config.select_recent_folder("/c", true, 15), Some("/c".to_string()));
    assert_eq!(
        config.get_recent_folders(),
        vec!["/b".to_string(), "/c".to_string(), "/a".to_string()]
    );
    // Re-selecting a known folder re-stamps it and moves it up.
    assert_eq!(config.select_recent_folder("/a", false, 30), Some("/a".to_string()));
    assert_eq!(
        config.get_recent_folders(),
        vec!["/a".to_string(), "/b".to_string(), "/c".to_string()]
    );
}

#[test]
fn unknown_folder_without_new_is_rejected() {
    let mut config = GuiConfig::new();
    config.select_recent_folder("/known", true, 1).unwrap();
    assert_eq!(config.select_recent_folder("/unknown", false, 2), None);
    assert_eq!(config.get_recent_folders(), vec!["/known".to_string()]);
}

#[test]
fn the_folder_list_is_capped() {
    let mut config = GuiConfig::new();
    for i in 0..15u64 {
        let path = format!("/folder{i}");
        config.select_recent_folder(path.as_str(), true, i).unwrap();
    }
    let folders = config.get_recent_folders();
    assert_eq!(folders.len(), 10);
    // The newest survive, newest first.
    assert_eq!(folders[0], "/folder14");
    assert_eq!(folders[9], "/folder5");
}

#[test]
fn removing_a_folder_keeps_the_order_of_the_rest() {
    let mut config = GuiConfig::new();
    config.select_recent_folder("/a", true, 1).unwrap();
    config.select_recent_folder("/b", true, 2).unwrap();
    config.select_recent_folder("/c", true, 3).unwrap();
    config.remove_recent_folder("/b");
    assert_eq!(
        config.get_recent_folders(),
        vec!["/c".to_string(), "/a".to_string()]
    );
    // Removing an unknown path changes nothing.
    config.remove_recent_folder("/zzz");
    assert_eq!(config.get_recent_folders().len(), 2);
}

#[test]
fn loading_saved_entries_merges_and_sorts() {
    let mut config = GuiConfig::new();
    config.select_recent_folder("/live", true, 50).unwrap();
    let saved = vec![
        RecentFolder::new("/old", 10),
        RecentFolder::new("/newest", 99),
    ];
    config.load_saved_config(saved, Some("debug"));
    assert_eq!(
        config.get_recent_folders(),
        vec!["/newest".to_string(), "/live".to_string(), "/old".to_string()]
    );
    assert_eq!(config.get_log_level(), LevelFilter::Debug);
}

#[test]
fn set_log_level_normalizes() {
    let mut config = GuiConfig::new();
    assert_eq!(config.get_log_level(), LevelFilter::Info);
    config.set_log_level("TRACE");
    assert_eq!(config.get_log_level(), LevelFilter::Trace);
    config.set_log_level("nonsense");
    assert_eq!(config.get_log_level(), LevelFilter::Info);
}

#[test]
fn sha256_matches_the_published_vectors() {
    assert_eq!(
        get_sha256_of_bytes(b"abc"),
        "ba7816bf8f01cfea414140de5dae2223b00361a396177a9cb410ff61f20015ad"
    );
    assert_eq!(
        get_sha256_of_bytes(b""),
        "e3b0c44298fc1c149afbf4c8996fb92427ae41e4649b934ca495991b7852b855"
    );
}

#[test]
fn path_filtering_follows_the_pinned_rules() {
    let paths: Vec<String> = ["src/a.rs", "src/sub/b.rs", "README.md", ".hidden"]
        .iter()
        .map(|s| s.to_string())
        .collect();
    assert_eq!(filter_paths(paths.clone(), "").unwrap(), paths);
    assert_eq!(
        filter_paths(paths.clone(), "src/*.rs").unwrap(),
        vec!["src/a.rs".to_string()]
    );
    assert_eq!(
        filter_paths(paths.clone(), "*").unwrap(),
        vec!["README.md".to_string()]
    );
    assert_eq!(filter_paths(paths, "[bad"), Err(GuiError::InvalidInput));
}
