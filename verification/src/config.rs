//! Where the settings live, and the saved paths that are kept between runs.
use vstd::prelude::*;
use crate::text::{chars_of, key_views, string_from};
use crate::winpath::{join, join_exec, parent, parent_exec};

verus! {

/// A scan root as saved in the settings.
#[derive(Debug, Clone)]
pub struct SavedScanRoot {
    pub path: String,
    pub enabled: bool,
}

/// A user-added personal-data path as saved in the settings.
#[derive(Debug, Clone)]
pub struct SavedCustomUserRoot {
    pub path: String,
    pub label: String,
    pub enabled: bool,
}

/// Calls `dirs::config_dir`. Its result depends on the platform and the environment,
/// so the contract states nothing of it.
#[verifier::external_body]
fn platform_config_dir() -> (r: Option<String>) {
    dirs::config_dir().map(|p| p.display().to_string())
}

/// Calls `dirs::home_dir`. Its result depends on the platform and the environment,
/// so the contract states nothing of it.
#[verifier::external_body]
fn platform_home_dir() -> (r: Option<String>) {
    dirs::home_dir().map(|p| p.display().to_string())
}

/// The settings file: `WinRehome\config.json` under the configuration folder, or
/// `.winrehome\config.json` under the home folder where there is none.
pub open spec fn spec_config_path(config_dir: Option<Seq<char>>, home_dir: Option<Seq<char>>) -> Option<Seq<char>> {
    match config_dir {
        Some(c) => Some(join(join(c, "WinRehome"@), "config.json"@)),
        None => match home_dir {
            Some(h) => Some(join(join(h, ".winrehome"@), "config.json"@)),
            None => None,
        },
    }
}

pub open spec fn opt_view(o: Option<&str>) -> Option<Seq<char>> {
    match o {
        Some(s) => Some(s@),
        None => None,
    }
}

fn join_str(a: &str, b: &str) -> (r: String)
    ensures
        r@ == join(a@, b@),
{
    let av = chars_of(a);
    let bv = chars_of(b);
    let j = join_exec(av.as_slice(), bv.as_slice());
    string_from(j.as_slice())
}

/// The settings file for the given configuration and home folders.
pub fn config_path_from(config_dir: Option<&str>, home_dir: Option<&str>) -> (r: Option<String>)
    ensures
        match r {
            Some(p) => spec_config_path(opt_view(config_dir), opt_view(home_dir)) == Some(p@),
            None => spec_config_path(opt_view(config_dir), opt_view(home_dir)) is None,
        },
{
    match config_dir {
        Some(c) => {
            let d = join_str(c, "WinRehome");
            Some(join_str(d.as_str(), "config.json"))
        },
        None => match home_dir {
            Some(h) => {
                let d = join_str(h, ".winrehome");
                Some(join_str(d.as_str(), "config.json"))
            },
            None => None,
        },
    }
}

/// Why the settings file cannot be placed.
#[derive(Debug, Clone, Copy, PartialEq, Eq, Structural)]
pub enum ConfigPathError {
    NoConfigDirectory,
    NoParentDirectory,
}

impl ConfigPathError {
    /// The error's message.
    pub fn message(&self) -> (r: String)
        ensures
            r@ == match self {
                ConfigPathError::NoConfigDirectory => "unable to determine a config directory for WinRehome"@,
                ConfigPathError::NoParentDirectory => "config path does not have a parent directory"@,
            },
    {
        match self {
            ConfigPathError::NoConfigDirectory => "unable to determine a config directory for WinRehome".to_string(),
            ConfigPathError::NoParentDirectory => "config path does not have a parent directory".to_string(),
        }
    }
}

/// The settings file on this machine. Where it is found, it ends in `config.json`.
pub fn config_path() -> (r: Result<String, ConfigPathError>)
    ensures
        r matches Ok(p) ==> exists|d: Seq<char>| p@ == join(d, "config.json"@),
        r matches Err(e) ==> e == ConfigPathError::NoConfigDirectory,
{
    let config_dir = platform_config_dir();
    let home_dir = if config_dir.is_some() {
        None
    } else {
        platform_home_dir()
    };
    let c = match &config_dir {
        Some(s) => Some(s.as_str()),
        None => None,
    };
    let h = match &home_dir {
        Some(s) => Some(s.as_str()),
        None => None,
    };
    match config_path_from(c, h) {
        Some(p) => {
            proof {
                match c {
                    Some(cd) => {
                        assert(p@ == join(join(cd@, "WinRehome"@), "config.json"@));
                    },
                    None => {
                        let hd = h.unwrap();
                        assert(p@ == join(join(hd@, ".winrehome"@), "config.json"@));
                    },
                }
            }
            Ok(p)
        },
        None => Err(ConfigPathError::NoConfigDirectory),
    }
}

/// A settings file path has a parent folder unless it reads as a bare UNC share
/// (`\\server\config.json`).
proof fn lemma_settings_file_has_parent(d: Seq<char>)
    ensures
        parent(join(d, "config.json"@)) is Some || crate::winpath::is_unc(join(d, "config.json"@)),
{
    reveal_strlit("config.json");
    let p = join(d, "config.json"@);
    assert(p.len() >= 11);
    assert(p.last() == 'n');
    let lb = crate::winpath::body_start(p);
    if !crate::winpath::is_unc(p) {
        assert(lb <= 4);
        assert(crate::winpath::trim_back(p, lb) == p);
    }
}

/// The window-state file that sits beside the settings file.
pub open spec fn spec_eframe_persistence_path(config_path: Seq<char>) -> Option<Seq<char>> {
    match parent(config_path) {
        Some(dir) => Some(join(dir, "eframe-state.ron"@)),
        None => None,
    }
}

/// `eframe-state.ron` in the folder of the given settings file.
pub fn eframe_persistence_path_for(config_path: &str) -> (r: Option<String>)
    ensures
        match r {
            Some(p) => spec_eframe_persistence_path(config_path@) == Some(p@),
            None => spec_eframe_persistence_path(config_path@) is None,
        },
{
    let c = chars_of(config_path);
    match parent_exec(c.as_slice()) {
        Some(dir) => {
            let f = chars_of("eframe-state.ron");
            let j = join_exec(dir.as_slice(), f.as_slice());
            Some(string_from(j.as_slice()))
        },
        None => None,
    }
}

/// The window-state file on this machine: beside the settings file. It fails where no
/// configuration folder is found, or where the settings path reads as a bare UNC
/// share and so has no parent folder.
pub fn eframe_persistence_path() -> (r: Result<String, ConfigPathError>)
    ensures
        r matches Ok(p) ==> exists|c: Seq<char>| spec_eframe_persistence_path(c) == Some(p@),
        r matches Err(e) ==> e == ConfigPathError::NoConfigDirectory || (e == ConfigPathError::NoParentDirectory
            && exists|d: Seq<char>| #[trigger] crate::winpath::is_unc(join(d, "config.json"@)) && parent(join(d, "config.json"@)) is None),
{
    let c = match config_path() {
        Ok(c) => c,
        Err(e) => return Err(e),
    };
    proof {
        let d = choose|d: Seq<char>| c@ == join(d, "config.json"@);
        lemma_settings_file_has_parent(d);
    }
    match eframe_persistence_path_for(c.as_str()) {
        Some(p) => Ok(p),
        None => Err(ConfigPathError::NoParentDirectory),
    }
}

/// The saved paths that still exist, in order: `exists[i]` tells whether `paths[i]` does.
pub fn normalize_existing_paths(paths: &[String], exists: &[bool]) -> (r: Vec<String>)
    requires
        exists.len() == paths.len(),
    ensures
        key_views(r@) == keep_existing(key_views(paths@), exists@, paths.len() as int),
{
    let mut out: Vec<String> = Vec::new();
    let mut i: usize = 0;
    while i < paths.len()
        invariant
            i <= paths.len() == exists.len(),
            key_views(out@) == keep_existing(key_views(paths@), exists@, i as int),
        decreases paths.len() - i,
    {
        let ghost before = key_views(out@);
        if exists[i] {
            out.push(paths[i].clone());
            assert(key_views(out@) =~= before.push(paths@[i as int]@));
        }
        i += 1;
    }
    out
}

/// The paths among the first `k` whose flag is set, in order.
pub open spec fn keep_existing(paths: Seq<Seq<char>>, exists: Seq<bool>, k: int) -> Seq<Seq<char>>
    decreases k,
{
    if k <= 0 {
        seq![]
    } else {
        keep_existing(paths, exists, k - 1) + if exists[k - 1] {
            seq![paths[k - 1]]
        } else {
            seq![]
        }
    }
}

} // verus!
