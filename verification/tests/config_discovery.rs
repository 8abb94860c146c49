use hypreact::config::{ConfigDiscoveryOptions, ConfigPaths, LayoutConfigError, PathProbe};

struct Existing(Vec<String>);

impl PathProbe for Existing {
    fn path_exists(&self, path: &str) -> bool {
        self.0.iter().any(|existing| existing == path)
    }
}

fn options(home: Option<&str>, config: Option<&str>, cache: Option<&str>, authored: Option<&str>) -> ConfigDiscoveryOptions {
    ConfigDiscoveryOptions {
        home_dir: home.map(str::to_string),
        config_dir_override: config.map(str::to_string),
        cache_dir_override: cache.map(str::to_string),
        authored_config_override: authored.map(str::to_string),
    }
}

#[test]
fn discovery_uses_home_directories_and_defaults_to_config_ts() {
    let paths = ConfigPaths::discover(options(Some("/home/me"), None, None, None), &Existing(vec![])).unwrap();
    assert_eq!(paths, ConfigPaths::new("/home/me/.config/hypreact/config.ts", "/home/me/.cache/hypreact/config.js"));
}

#[test]
fn discovery_prefers_the_first_existing_entry_and_overrides() {
    let probe = Existing(vec!["/cfg/config.jsx".to_string(), "/cfg/config.js".to_string()]);
    let paths = ConfigPaths::discover(options(None, Some("/cfg"), Some("/cache"), None), &probe).unwrap();
    assert_eq!(paths.authored_config, "/cfg/config.jsx");
    assert_eq!(paths.prepared_config, "/cache/config.js");

    let paths = ConfigPaths::discover(options(None, Some("/cfg"), Some("/cache"), Some("/x/app.ts")), &probe).unwrap();
    assert_eq!(paths.authored_config, "/x/app.ts");
}

#[test]
fn discovery_needs_a_home_or_overrides() {
    assert_eq!(
        ConfigPaths::discover(ConfigDiscoveryOptions::default(), &Existing(vec![])),
        Err(LayoutConfigError::ReadConfig {
            path: "config discovery requires a home_dir or config_dir_override".to_string()
        })
    );
    assert_eq!(
        ConfigPaths::discover(options(None, Some("/cfg"), None, None), &Existing(vec![])),
        Err(LayoutConfigError::ReadConfig {
            path: "config discovery requires a home_dir or cache_dir_override".to_string()
        })
    );
}
