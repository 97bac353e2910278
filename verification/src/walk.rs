//! Directory walks: the caller walks the file system and hands each entry to a
//! verified step, which says whether to go on, skip the entry's directory or stop.
use vstd::prelude::*;
use crate::models::PathStats;
use crate::text::chars_of;
use crate::winpath::{components, components_exec, path_starts_with, views};

verus! {

/// One entry of a directory walk, as the walker saw it: its path, its depth below
/// the walk's root, its kind and, for a file, its length where it could be read.
#[derive(Debug, Clone)]
pub struct WalkEntry {
    pub path: String,
    pub depth: usize,
    pub is_dir: bool,
    pub is_file: bool,
    pub len: Option<u64>,
}

/// What the walker does after an entry.
#[derive(Debug, Clone, Copy, PartialEq, Eq, Structural)]
pub enum WalkAction {
    Continue,
    SkipDir,
    Stop,
}

/// The action that leaves an entry out: its directory is not entered.
pub open spec fn skip_action(is_dir: bool) -> WalkAction {
    if is_dir {
        WalkAction::SkipDir
    } else {
        WalkAction::Continue
    }
}

/// `Path::strip_prefix`: the components of `path` after those of `root`, where
/// `root`'s components begin `path`'s.
pub open spec fn relative_segments(root: Seq<char>, path: Seq<char>) -> Option<Seq<Seq<char>>> {
    if path_starts_with(path, root) {
        Some(components(path).skip(components(root).len() as int))
    } else {
        None
    }
}

pub fn relative_segments_exec(root: &str, path: &str) -> (r: Option<Vec<Vec<char>>>)
    ensures
        match r {
            Some(v) => relative_segments(root@, path@) == Some(views(v@)),
            None => relative_segments(root@, path@) is None,
        },
{
    let p = chars_of(path);
    let b = chars_of(root);
    if !crate::winpath::path_starts_with_exec(p.as_slice(), b.as_slice()) {
        return None;
    }
    let ps = components_exec(p.as_slice());
    let bs = components_exec(b.as_slice());
    let mut out: Vec<Vec<char>> = Vec::new();
    let mut i: usize = bs.len();
    while i < ps.len()
        invariant
            bs@.len() <= i <= ps@.len(),
            views(ps@) == components(p@),
            views(bs@) == components(b@),
            views(out@) == components(p@).subrange(bs@.len() as int, i as int),
        decreases ps.len() - i,
    {
        let seg = crate::winpath::copy_range(ps[i].as_slice(), 0, ps[i].len());
        assert(seg@ =~= ps@[i as int]@);
        assert(views(ps@)[i as int] == ps@[i as int]@);
        let ghost old_out = out@;
        out.push(seg);
        assert(views(out@) =~= views(old_out).push(seg@));
        i += 1;
        assert(views(out@) =~= components(p@).subrange(bs@.len() as int, i as int));
    }
    assert(components(p@).subrange(bs@.len() as int, ps@.len() as int) =~= components(p@).skip(bs@.len() as int));
    Some(out)
}

/// The size a walk of a folder adds up: entries below the root that are left out
/// of every walk are skipped, and each file adds one file and its length (nothing
/// where its length could not be read).
pub open spec fn stats_step(stats: PathStats, entry: WalkEntry) -> (PathStats, WalkAction) {
    if entry.depth > 0 && crate::plan::spec_is_known_noise(entry.path@) {
        (stats, skip_action(entry.is_dir))
    } else if entry.is_file {
        match entry.len {
            Some(n) => (PathStats { file_count: (stats.file_count + 1) as u64, total_bytes: (stats.total_bytes + n) as u64 }, WalkAction::Continue),
            None => (stats, WalkAction::Continue),
        }
    } else {
        (stats, WalkAction::Continue)
    }
}

/// The stats of a path that is not walked: nothing where it does not exist, one file
/// of its length where it is a file (nothing where the length could not be read).
/// `None` where the path is a folder to walk.
pub fn path_stats_without_walk(exists: bool, is_file: bool, len: Option<u64>) -> (r: Option<PathStats>)
    ensures
        !exists ==> r == Some(PathStats { file_count: 0, total_bytes: 0 }),
        exists && is_file ==> r == Some(
            match len {
                Some(n) => PathStats { file_count: 1, total_bytes: n },
                None => PathStats { file_count: 0, total_bytes: 0 },
            },
        ),
        exists && !is_file ==> r is None,
{
    if !exists {
        return Some(PathStats { file_count: 0, total_bytes: 0 });
    }
    if is_file {
        return match len {
            Some(n) => Some(PathStats { file_count: 1, total_bytes: n }),
            None => Some(PathStats { file_count: 0, total_bytes: 0 }),
        };
    }
    None
}

/// One step of measuring a folder.
pub fn record_stats_entry(stats: &mut PathStats, entry: &WalkEntry) -> (r: WalkAction)
    requires
        old(stats).file_count < u64::MAX,
        entry.len matches Some(n) ==> old(stats).total_bytes + n <= u64::MAX,
    ensures
        (*final(stats), r) == stats_step(*old(stats), *entry),
{
    if entry.depth > 0 && crate::plan::should_exclude_path(entry.path.as_str()) {
        return if entry.is_dir {
            WalkAction::SkipDir
        } else {
            WalkAction::Continue
        };
    }
    if entry.is_file {
        match entry.len {
            Some(n) => {
                stats.add(PathStats { file_count: 1, total_bytes: n });
            },
            None => {},
        }
    }
    WalkAction::Continue
}

} // verus!
