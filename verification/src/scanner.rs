//! Where VST3 plugins are looked for on each platform.

use vstd::prelude::*;
use std::path::PathBuf;
use crate::core_types::{join_path, path_from, path_from_text, path_joined};

verus! {

/// Operating systems with distinct plugin locations.
#[derive(Debug, Clone, Copy, PartialEq, Eq, Structural)]
pub enum Platform {
    MacOs,
    Windows,
    Linux,
    /// Any other system: no default locations.
    Other,
}

/// The default VST3 search paths of a platform, given the user's home
/// directory if one is known.
pub open spec fn search_paths_for(platform: Platform, home: Option<PathBuf>) -> Seq<PathBuf> {
    match platform {
        Platform::MacOs => {
            let system = seq![path_from_text("/Library/Audio/Plug-Ins/VST3"@)];
            match home {
                Some(h) => system.push(path_joined(h, "Library/Audio/Plug-Ins/VST3"@)),
                None => system,
            }
        },
        Platform::Windows => seq![path_from_text("C:\\Program Files\\Common Files\\VST3"@)],
        Platform::Linux => {
            let system = seq![path_from_text("/usr/lib/vst3"@)];
            match home {
                Some(h) => system.push(path_joined(h, ".vst3"@)),
                None => system,
            }
        },
        Platform::Other => Seq::empty(),
    }
}

/// The user's home directory (`dirs::home_dir`). It depends on the
/// environment and the user database, so nothing is stated of it.
#[verifier::external_body]
fn home_dir() -> Option<PathBuf> {
    dirs::home_dir()
}

/// The default VST3 search paths of `platform`, with `home` as the user's
/// home directory.
pub fn default_search_paths(platform: Platform, home: Option<PathBuf>) -> (r: Vec<PathBuf>)
    ensures
        r@ == search_paths_for(platform, home),
{
    let mut paths: Vec<PathBuf> = Vec::new();
    match platform {
        Platform::MacOs => {
            paths.push(path_from("/Library/Audio/Plug-Ins/VST3"));
            if let Some(h) = &home {
                paths.push(join_path(h, "Library/Audio/Plug-Ins/VST3"));
            }
        },
        Platform::Windows => {
            paths.push(path_from("C:\\Program Files\\Common Files\\VST3"));
        },
        Platform::Linux => {
            paths.push(path_from("/usr/lib/vst3"));
            if let Some(h) = &home {
                paths.push(join_path(h, ".vst3"));
            }
        },
        Platform::Other => {},
    }
    assert(paths@ =~= search_paths_for(platform, home));
    paths
}

/// Scans for VST3 plugins on the system.
pub struct PluginScanner {
    search_paths: Vec<PathBuf>,
}

/// A plugin found by a scan.
#[derive(Debug, Clone)]
pub struct PluginInfo {
    pub name: String,
    pub vendor: String,
    pub path: PathBuf,
    pub uid: [u8; 16],
}

impl PluginScanner {
    /// The directories searched.
    pub closed spec fn paths(&self) -> Seq<PathBuf> {
        self.search_paths@
    }

    /// A scanner over the default search paths of `platform`, using the
    /// current user's home directory when the system reports one.
    pub fn new(platform: Platform) -> (r: PluginScanner)
        ensures
            exists|home: Option<PathBuf>| r.paths() == search_paths_for(platform, home),
    {
        let home = home_dir();
        let ghost h = home;
        let search_paths = default_search_paths(platform, home);
        let r = PluginScanner { search_paths };
        assert(r.paths() == search_paths_for(platform, h));
        r
    }

    /// A scanner over the given directories.
    pub fn with_search_paths(search_paths: Vec<PathBuf>) -> (r: PluginScanner)
        ensures
            r.paths() == search_paths@,
    {
        PluginScanner { search_paths }
    }

    /// The directories searched.
    pub fn search_paths(&self) -> (r: &Vec<PathBuf>)
        ensures
            r@ == self.paths(),
    {
        &self.search_paths
    }

    /// Scans for available plugins. Plugin loading is not supported, so no
    /// plugin is ever reported.
    pub fn scan(&self) -> (r: Vec<PluginInfo>)
        ensures
            r@.len() == 0,
    {
        Vec::new()
    }
}

} // verus!
