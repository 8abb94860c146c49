use hypreact::lsp_workspace::{discover_config_entry_for_path, InMemorySourceProvider, SourceProvider};

#[test]
fn in_memory_source_provider_tracks_virtual_files() {
    let root = "/virtual/project".to_string();
    let config = format!("{}/config.ts", root);
    let mut provider = InMemorySourceProvider::default();
    provider.insert(config.clone(), "export default {};".to_string());

    let discovered = discover_config_entry_for_path(
        &format!("{}/layouts/master-stack/index.tsx", root),
        false,
        &provider,
    )
    .unwrap();

    assert_eq!(discovered, config);
}

#[test]
fn config_entries_prefer_tsx_and_the_nearest_directory() {
    let mut provider = InMemorySourceProvider::default();
    provider.insert("/p/config.js".to_string(), String::new());
    provider.insert("/p/a/config.ts".to_string(), String::new());
    provider.insert("/p/a/config.tsx".to_string(), String::new());

    assert_eq!(
        discover_config_entry_for_path("/p/a/b/file.css", false, &provider),
        Some("/p/a/config.tsx".to_string())
    );
    assert_eq!(
        discover_config_entry_for_path("/p/a", true, &provider),
        Some("/p/a/config.tsx".to_string())
    );
    assert_eq!(
        discover_config_entry_for_path("/p/a", false, &provider),
        Some("/p/config.js".to_string())
    );
    assert_eq!(discover_config_entry_for_path("/q/x.css", false, &provider), None);
    assert_eq!(discover_config_entry_for_path("/", true, &provider), None);
}

#[test]
fn in_memory_source_provider_reads_and_forgets_files() {
    let mut provider = InMemorySourceProvider::default();
    provider.insert("/a.css".to_string(), "x".to_string());
    assert!(provider.path_exists("/a.css"));
    assert_eq!(provider.read_to_string("/a.css"), Some("x".to_string()));
    provider.insert("/a.css".to_string(), "y".to_string());
    assert_eq!(provider.source_at("/a.css"), Some("y".to_string()));
    provider.remove(&"/a.css".to_string());
    assert!(!provider.path_exists("/a.css"));
    assert_eq!(provider.read_to_string("/a.css"), None);
}

#[test]
fn relative_paths_climb_to_the_empty_directory() {
    let mut provider = InMemorySourceProvider::default();
    provider.insert("config.js".to_string(), String::new());
    assert_eq!(
        discover_config_entry_for_path("src/deep/x.css", false, &provider),
        Some("config.js".to_string())
    );
}
