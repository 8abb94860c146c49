//! Where the configuration lives: the authored configuration file and the
//! prepared (compiled) one, found from the home directory or overrides.
//! Paths are `/`-separated text.
use vstd::prelude::*;
use vstd::string::*;

use crate::id_map::IdMap;
use crate::lsp_workspace::join_path;
use crate::types::copy_opt_string;

verus! {

/// Which layout each workspace and monitor uses, and the default.
#[derive(Debug)]
pub struct LayoutSelectionConfig {
    pub default: Option<String>,
    pub per_workspace: Vec<String>,
    pub per_monitor: IdMap<String, String>,
}

#[derive(Debug, PartialEq, Eq)]
pub enum LayoutConfigError {
    UnknownLayout { name: String },
    ArtifactLayoutMismatch { expected: String, actual: String },
    ReadConfig { path: String },
    ParseConfig { path: String },
    CompileAuthoredConfig { path: String, message: String },
    EvaluateAuthoredConfig { path: String, message: String },
    DecodeAuthoredConfig { path: String, message: String },
}

/// The authored configuration file and where its prepared form goes.
#[derive(Debug, PartialEq, Eq)]
pub struct ConfigPaths {
    pub authored_config: String,
    pub prepared_config: String,
}

/// What configuration discovery starts from.
#[derive(Debug, PartialEq, Eq, Default)]
pub struct ConfigDiscoveryOptions {
    pub home_dir: Option<String>,
    pub config_dir_override: Option<String>,
    pub cache_dir_override: Option<String>,
    pub authored_config_override: Option<String>,
}

/// Tells whether a file exists.
pub trait PathProbe {
    /// What the probe reports of `path`. An implementation that does not
    /// define it answers as some function of the probe and the path that
    /// nothing here knows; one that reads the file system meets this while
    /// the files it is asked about do not change.
    closed spec fn spec_exists(&self, path: Seq<char>) -> bool {
        (choose|answer: spec_fn(&Self, Seq<char>) -> bool| #[trigger] answer(self, path) || true)(self, path)
    }

    fn path_exists(&self, path: &str) -> (r: bool)
        ensures
            r == self.spec_exists(path@),
    ;
}

pub open spec fn config_subdir() -> Seq<char> {
    seq!['.', 'c', 'o', 'n', 'f', 'i', 'g', '/', 'h', 'y', 'p', 'r', 'e', 'a', 'c', 't']
}

pub open spec fn cache_subdir() -> Seq<char> {
    seq!['.', 'c', 'a', 'c', 'h', 'e', '/', 'h', 'y', 'p', 'r', 'e', 'a', 'c', 't']
}

/// The directory `override_dir`, else `sub` under the home directory.
pub open spec fn root_dir(override_dir: Option<String>, home: Option<String>, sub: Seq<char>) -> Option<Seq<char>> {
    match override_dir {
        Some(p) => Some(p@),
        None => match home {
            Some(h) => Some(join_path(h@, sub)),
            None => None,
        },
    }
}

/// The authored configuration: the override, else the first of
/// `config.tsx`, `config.ts`, `config.jsx`, `config.js` that exists in the
/// configuration directory, else `config.ts` there.
/// The authored configuration: the override, else the first entry the
/// probe reports in the configuration directory, else `config.ts` there.
pub open spec fn authored_config_in(
    present: spec_fn(Seq<char>) -> bool,
    override_path: Option<String>,
    config_root: Seq<char>,
) -> Seq<char> {
    match override_path {
        Some(p) => p@,
        None => match crate::lsp_workspace::config_entry_in(present, config_root) {
            Some(found) => found,
            None => crate::lsp_workspace::join_path(config_root, crate::lsp_workspace::config_entry_names()[1]),
        },
    }
}

/// Asks the probe for `config.tsx`, `config.ts`, `config.jsx` and
/// `config.js` in `dir`, in that order, until one is reported.
fn entry_in<P: PathProbe>(dir: &str, probe: &P) -> (r: Option<String>)
    ensures
        match r {
            Some(e) => crate::lsp_workspace::config_entry_in(|p: Seq<char>| probe.spec_exists(p), dir@) == Some(e@),
            None => crate::lsp_workspace::config_entry_in(|p: Seq<char>| probe.spec_exists(p), dir@) is None,
        },
{
    proof {
        reveal_strlit("config.tsx");
        reveal_strlit("config.ts");
        reveal_strlit("config.jsx");
        reveal_strlit("config.js");
        assert("config.tsx"@ =~= crate::lsp_workspace::config_entry_names()[0]);
        assert("config.ts"@ =~= crate::lsp_workspace::config_entry_names()[1]);
        assert("config.jsx"@ =~= crate::lsp_workspace::config_entry_names()[2]);
        assert("config.js"@ =~= crate::lsp_workspace::config_entry_names()[3]);
    }
    let mut found = [false, false, false, false];
    found[0] = probe.path_exists(crate::lsp_workspace::join_text(dir, "config.tsx").as_str());
    if !found[0] {
        found[1] = probe.path_exists(crate::lsp_workspace::join_text(dir, "config.ts").as_str());
        if !found[1] {
            found[2] = probe.path_exists(crate::lsp_workspace::join_text(dir, "config.jsx").as_str());
            if !found[2] {
                found[3] = probe.path_exists(crate::lsp_workspace::join_text(dir, "config.js").as_str());
            }
        }
    }
    crate::lsp_workspace::select_config_entry(dir, found)
}

impl ConfigPaths {
    pub fn new(authored_config: &str, prepared_config: &str) -> (r: Self)
        ensures
            r.authored_config@ == authored_config@,
            r.prepared_config@ == prepared_config@,
    {
        ConfigPaths { authored_config: authored_config.to_owned(), prepared_config: prepared_config.to_owned() }
    }

    /// Finds the configuration paths. The configuration directory is the
    /// override or `~/.config/hypreact`, the cache directory the override
    /// or `~/.cache/hypreact`; without a home directory and an override
    /// either is a `ReadConfig` error, the configuration directory's first.
    /// The authored configuration is the override, else the first entry
    /// name the probe reports in the configuration directory, else
    /// `config.ts` there. The prepared configuration is `config.js` in the
    /// cache directory.
    pub fn discover<P: PathProbe>(options: ConfigDiscoveryOptions, probe: &P) -> (r: Result<Self, LayoutConfigError>)
        ensures
            ({
                let present = |p: Seq<char>| probe.spec_exists(p);
                let config_root = root_dir(options.config_dir_override, options.home_dir, config_subdir());
                let cache_root = root_dir(options.cache_dir_override, options.home_dir, cache_subdir());
                match r {
                    Ok(paths) => config_root is Some && cache_root is Some && paths.authored_config@
                        == authored_config_in(present, options.authored_config_override, config_root->0)
                        && paths.prepared_config@ == join_path(
                        cache_root->0,
                        crate::lsp_workspace::config_entry_names()[3],
                    ),
                    Err(LayoutConfigError::ReadConfig { path }) => (config_root is None && path@
                        == "config discovery requires a home_dir or config_dir_override"@) || (config_root is Some
                        && cache_root is None && path@
                        == "config discovery requires a home_dir or cache_dir_override"@),
                    Err(_) => false,
                }
            }),
    {
        let config_root = match copy_opt_string(&options.config_dir_override) {
            Some(path) => path,
            None => match &options.home_dir {
                Some(home) => {
                    proof {
                        reveal_strlit(".config/hypreact");
                        assert(".config/hypreact"@ =~= config_subdir());
                    }
                    crate::lsp_workspace::join_text(home.as_str(), ".config/hypreact")
                },
                None => {
                    return Err(
                        LayoutConfigError::ReadConfig {
                            path: "config discovery requires a home_dir or config_dir_override".to_owned(),
                        },
                    );
                },
            },
        };
        let cache_root = match copy_opt_string(&options.cache_dir_override) {
            Some(path) => path,
            None => match &options.home_dir {
                Some(home) => {
                    proof {
                        reveal_strlit(".cache/hypreact");
                        assert(".cache/hypreact"@ =~= cache_subdir());
                    }
                    crate::lsp_workspace::join_text(home.as_str(), ".cache/hypreact")
                },
                None => {
                    return Err(
                        LayoutConfigError::ReadConfig {
                            path: "config discovery requires a home_dir or cache_dir_override".to_owned(),
                        },
                    );
                },
            },
        };
        proof {
            reveal_strlit("config.ts");
            reveal_strlit("config.js");
            assert("config.ts"@ =~= crate::lsp_workspace::config_entry_names()[1]);
            assert("config.js"@ =~= crate::lsp_workspace::config_entry_names()[3]);
        }
        let authored_config = match copy_opt_string(&options.authored_config_override) {
            Some(path) => path,
            None => match entry_in(config_root.as_str(), probe) {
                Some(found) => found,
                None => {
                    let d = crate::lsp_workspace::join_text(config_root.as_str(), "config.ts");
                    assert(d@ == crate::lsp_workspace::join_path(config_root@, crate::lsp_workspace::config_entry_names()[1]));
                    d
                },
            },
        };
        let prepared_config = crate::lsp_workspace::join_text(cache_root.as_str(), "config.js");
        Ok(ConfigPaths { authored_config, prepared_config })
    }
}

} // verus!
