use worksentry::commands::{rebuild_index, RebuildStep};
use worksentry::config::{
    add_indexed_folder, default_browser_search, get_browser_status, get_config,
    get_indexed_folders, remove_indexed_folder, set_browser_enabled, set_hotkey, Config,
};

#[test]
fn test_config_default() {
    let config = Config::default();

    assert!(config.indexed_folders.is_empty());
    assert_eq!(config.hotkey.modifiers, vec!["Alt"]);
    assert_eq!(config.hotkey.key, "Space");
    assert!(!config.enable_browser_search);
    assert!(!default_browser_search());
}

#[test]
fn test_folder_path_validation() {
    fn is_valid_folder(path: &str) -> bool {
        let path = std::path::Path::new(path);
        path.exists() && path.is_dir()
    }

    let temp_dir = tempfile::TempDir::new().unwrap();
    let folder = temp_dir.path().to_str().unwrap();
    assert!(is_valid_folder(folder));
    assert!(!is_valid_folder("/nonexistent/path"));

    let mut config = Config::default();
    let added = add_indexed_folder(&mut config, folder.to_string(), is_valid_folder(folder));
    assert_eq!(added, Ok(true));
    let refused = add_indexed_folder(
        &mut config,
        "/nonexistent/path".to_string(),
        is_valid_folder("/nonexistent/path"),
    );
    assert_eq!(refused, Err("Invalid folder path".to_string()));
    assert_eq!(get_indexed_folders(&config), vec![folder.to_string()]);
}

#[test]
fn test_folders_are_listed_once_in_the_order_added() {
    let mut config = Config::default();
    assert_eq!(add_indexed_folder(&mut config, "/b".to_string(), true), Ok(true));
    assert_eq!(add_indexed_folder(&mut config, "/a".to_string(), true), Ok(true));
    assert_eq!(add_indexed_folder(&mut config, "/b".to_string(), true), Ok(false));
    assert_eq!(add_indexed_folder(&mut config, "/c".to_string(), true), Ok(true));
    assert_eq!(get_indexed_folders(&config), vec!["/b", "/a", "/c"]);

    remove_indexed_folder(&mut config, &"/a".to_string());
    assert_eq!(get_indexed_folders(&config), vec!["/b", "/c"]);
    remove_indexed_folder(&mut config, &"/missing".to_string());
    assert_eq!(get_indexed_folders(&config), vec!["/b", "/c"]);
}

#[test]
fn test_hotkey_and_browser_settings() {
    let mut config = Config::default();
    add_indexed_folder(&mut config, "/docs".to_string(), true).unwrap();
    set_hotkey(&mut config, vec!["Ctrl".to_string(), "Shift".to_string()], "K".to_string());
    assert_eq!(config.hotkey.modifiers, vec!["Ctrl", "Shift"]);
    assert_eq!(config.hotkey.key, "K");
    assert_eq!(config.indexed_folders, vec!["/docs"]);
    assert!(!config.enable_browser_search);

    set_browser_enabled(&mut config, true);
    assert!(config.enable_browser_search);
    assert_eq!(config.hotkey.key, "K");

    let copy = get_config(&config);
    assert_eq!(copy.indexed_folders, config.indexed_folders);
    assert_eq!(copy.hotkey.modifiers, config.hotkey.modifiers);
    assert_eq!(copy.hotkey.key, config.hotkey.key);
    assert_eq!(copy.enable_browser_search, config.enable_browser_search);
}

#[test]
fn test_browser_status() {
    assert!(get_browser_status(false, false).installed_browsers.is_empty());
    assert_eq!(get_browser_status(true, false).installed_browsers, vec!["Google Chrome"]);
    assert_eq!(get_browser_status(false, true).installed_browsers, vec!["Microsoft Edge"]);
    assert_eq!(
        get_browser_status(true, true).installed_browsers,
        vec!["Google Chrome", "Microsoft Edge"]
    );
}

#[test]
fn test_rebuild_clears_first_then_scans_each_folder() {
    let mut config = Config::default();
    let steps = rebuild_index(&config);
    assert_eq!(steps.len(), 1);
    assert!(matches!(steps[0], RebuildStep::Clear));

    add_indexed_folder(&mut config, "/one".to_string(), true).unwrap();
    add_indexed_folder(&mut config, "/two".to_string(), true).unwrap();
    let steps = rebuild_index(&config);
    assert_eq!(steps.len(), 3);
    assert!(matches!(steps[0], RebuildStep::Clear));
    assert!(matches!(&steps[1], RebuildStep::IndexFolder(f) if f == "/one"));
    assert!(matches!(&steps[2], RebuildStep::IndexFolder(f) if f == "/two"));
}
