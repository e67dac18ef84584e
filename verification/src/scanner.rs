//! The library scanner's decisions: tallying a scan, sorting filesystem
//! events into changed and removed paths, and where folder artwork may
//! be found. Walking directories and touching files stays with the caller.
use vstd::prelude::*;

use crate::paths::{join_path, joined, parent_of, path_parent};
use crate::text::{chars_of, nat_text, push_str, skip_ws_end, skip_ws_start, string_of, trim, u64_text};

verus! {

// ---------------------------------------------------------------- tallies

/// Counts of one scan.
#[derive(Debug, Clone, Copy, PartialEq, Eq, Structural)]
pub struct ScanReport {
    pub added: u32,
    pub updated: u32,
    pub removed: u32,
    pub skipped: u32,
    pub errors: u32,
}

impl Default for ScanReport {
    fn default() -> (r: ScanReport)
        ensures
            r == (ScanReport { added: 0, updated: 0, removed: 0, skipped: 0, errors: 0 }),
    {
        ScanReport { added: 0, updated: 0, removed: 0, skipped: 0, errors: 0 }
    }
}

/// How importing one file went.
#[derive(Debug, Clone, Copy, PartialEq, Eq, Structural)]
pub enum ImportOutcome {
    Added,
    Skipped,
    Failed,
}

impl ScanReport {
    /// The report with one more file counted under its outcome.
    pub open spec fn counted(self, o: ImportOutcome) -> ScanReport {
        match o {
            ImportOutcome::Added => ScanReport { added: (self.added + 1) as u32, ..self },
            ImportOutcome::Skipped => ScanReport { skipped: (self.skipped + 1) as u32, ..self },
            ImportOutcome::Failed => ScanReport { errors: (self.errors + 1) as u32, ..self },
        }
    }

    /// Counts one imported file. A single bad file never aborts a scan: it
    /// is counted as an error.
    pub fn count(&mut self, o: ImportOutcome)
        requires
            old(self).added < u32::MAX,
            old(self).skipped < u32::MAX,
            old(self).errors < u32::MAX,
        ensures
            *final(self) == old(self).counted(o),
    {
        match o {
            ImportOutcome::Added => self.added = self.added + 1,
            ImportOutcome::Skipped => self.skipped = self.skipped + 1,
            ImportOutcome::Failed => self.errors = self.errors + 1,
        }
    }

    /// Directory entries that could not be read count as errors.
    pub fn add_walk_errors(&mut self, n: u32)
        requires
            old(self).errors + n <= u32::MAX,
        ensures
            *final(self) == (ScanReport { errors: (old(self).errors + n) as u32, ..*old(self) }),
    {
        self.errors = self.errors + n;
    }
}

/// Every file counted lands in exactly one of added, skipped or errors.
pub proof fn law_each_file_counted_once(r: ScanReport, o: ImportOutcome)
    requires
        r.added < u32::MAX,
        r.skipped < u32::MAX,
        r.errors < u32::MAX,
    ensures
        r.counted(o).added + r.counted(o).skipped + r.counted(o).errors == r.added + r.skipped
            + r.errors + 1,
        r.counted(o).updated == r.updated,
        r.counted(o).removed == r.removed,
{
}

/// The message shown when a scan finds no audio at all; unreadable entries
/// point at a permissions problem.
pub open spec fn empty_scan_text(root: Seq<char>, walk_errors: u32) -> Seq<char> {
    if walk_errors > 0 {
        "no audio files found in "@ + root + " ("@ + nat_text(walk_errors as nat)
            + " unreadable entries \u{2014} likely a permissions problem; use the folder picker or grant access in System Settings \u{2192} Privacy \u{2192} Files & Folders)"@
    } else {
        "no audio files found in "@ + root
    }
}

pub fn empty_scan_message(root: &str, walk_errors: u32) -> (s: String)
    ensures
        s@ == empty_scan_text(root@, walk_errors),
{
    let mut out: Vec<char> = Vec::new();
    push_str(&mut out, "no audio files found in ");
    push_str(&mut out, root);
    if walk_errors > 0 {
        push_str(&mut out, " (");
        let n = u64_text(walk_errors as u64);
        push_str(&mut out, n.as_str());
        push_str(
            &mut out,
            " unreadable entries \u{2014} likely a permissions problem; use the folder picker or grant access in System Settings \u{2192} Privacy \u{2192} Files & Folders)",
        );
    }
    string_of(out.as_slice())
}

// ---------------------------------------------------------------- watching

/// The kinds of debounced filesystem event the watcher reacts to.
#[derive(Debug, Clone, Copy, PartialEq, Eq, Structural)]
pub enum FsEventKind {
    Create,
    Modify,
    Remove,
    Other,
}

/// What is on disk at a path when its event is handled.
#[derive(Debug, Clone, Copy, PartialEq, Eq, Structural)]
pub enum PathState {
    File,
    Missing,
    /// Present but not a regular file (a directory, say).
    Elsewise,
}

pub open spec fn paths_in(paths: Seq<(String, PathState)>, st: PathState) -> Seq<Seq<char>>
    decreases paths.len(),
{
    if paths.len() == 0 {
        Seq::empty()
    } else {
        let rest = paths_in(paths.drop_last(), st);
        if paths.last().1 == st {
            rest.push(paths.last().0@)
        } else {
            rest
        }
    }
}

pub open spec fn all_paths(paths: Seq<(String, PathState)>) -> Seq<Seq<char>> {
    paths.map_values(|p: (String, PathState)| p.0@)
}

pub open spec fn views(v: Seq<String>) -> Seq<Seq<char>> {
    v.map_values(|s: String| s@)
}

/// Sorts one event's paths. Creations and modifications put existing files
/// on the changed side and vanished paths on the removed side (a rename
/// arrives as a modification naming both its old and new path); a removal
/// puts every path on the removed side; other events are ignored.
pub fn sort_event(
    kind: FsEventKind,
    paths: &Vec<(String, PathState)>,
    changed: &mut Vec<String>,
    removed: &mut Vec<String>,
)
    ensures
        kind is Create || kind is Modify ==> views(final(changed)@) == views(old(changed)@) + paths_in(
            paths@,
            PathState::File,
        ) && views(final(removed)@) == views(old(removed)@) + paths_in(paths@, PathState::Missing),
        kind is Remove ==> views(final(changed)@) == views(old(changed)@) && views(final(removed)@)
            == views(old(removed)@) + all_paths(paths@),
        kind is Other ==> views(final(changed)@) == views(old(changed)@) && views(final(removed)@)
            == views(old(removed)@),
{
    let ghost c0 = changed@;
    let ghost r0 = removed@;
    match kind {
        FsEventKind::Create | FsEventKind::Modify => {
            let mut i: usize = 0;
            assert(paths@.subrange(0, 0) =~= Seq::<(String, PathState)>::empty());
            assert(views(c0) + paths_in(Seq::empty(), PathState::File) =~= views(c0));
            assert(views(r0) + paths_in(Seq::empty(), PathState::Missing) =~= views(r0));
            while i < paths.len()
                invariant
                    i <= paths@.len(),
                    views(changed@) == views(c0) + paths_in(paths@.subrange(0, i as int), PathState::File),
                    views(removed@) == views(r0) + paths_in(paths@.subrange(0, i as int), PathState::Missing),
                decreases paths@.len() - i,
            {
                let ghost pre = paths@.subrange(0, i as int);
                assert(paths@.subrange(0, i + 1).drop_last() =~= pre);
                assert(paths@.subrange(0, i + 1).last() == paths@[i as int]);
                let st = paths[i].1;
                match st {
                    PathState::File => {
                        let ghost before = changed@;
                        changed.push(paths[i].0.clone());
                        assert(views(changed@) =~= views(before).push(paths@[i as int].0@));
                        assert(views(c0) + paths_in(pre, PathState::File).push(paths@[i as int].0@)
                            =~= (views(c0) + paths_in(pre, PathState::File)).push(paths@[i as int].0@));
                    },
                    PathState::Missing => {
                        let ghost before = removed@;
                        removed.push(paths[i].0.clone());
                        assert(views(removed@) =~= views(before).push(paths@[i as int].0@));
                        assert(views(r0) + paths_in(pre, PathState::Missing).push(paths@[i as int].0@)
                            =~= (views(r0) + paths_in(pre, PathState::Missing)).push(paths@[i as int].0@));
                    },
                    PathState::Elsewise => {},
                }
                i = i + 1;
            }
            assert(paths@.subrange(0, paths@.len() as int) =~= paths@);
        },
        FsEventKind::Remove => {
            let mut i: usize = 0;
            assert(views(r0) + all_paths(paths@.subrange(0, 0)) =~= views(r0));
            while i < paths.len()
                invariant
                    i <= paths@.len(),
                    changed@ == c0,
                    views(removed@) == views(r0) + all_paths(paths@.subrange(0, i as int)),
                decreases paths@.len() - i,
            {
                let ghost before = removed@;
                removed.push(paths[i].0.clone());
                assert(views(removed@) =~= views(before).push(paths@[i as int].0@));
                assert(all_paths(paths@.subrange(0, i + 1)) =~= all_paths(paths@.subrange(0, i as int)).push(
                    paths@[i as int].0@,
                ));
                i = i + 1;
            }
            assert(paths@.subrange(0, paths@.len() as int) =~= paths@);
        },
        FsEventKind::Other => {},
    }
}

// ---------------------------------------------------------------- artwork

/// The conventional artwork file names, in the order they are tried.
pub open spec fn folder_art_names() -> Seq<Seq<char>> {
    seq![
        "cover.jpg"@,
        "cover.jpeg"@,
        "cover.png"@,
        "folder.jpg"@,
        "folder.jpeg"@,
        "folder.png"@,
        "front.jpg"@,
        "front.png"@,
    ]
}

/// The artwork paths to try next to a track: each conventional name joined
/// onto the track's directory; none when the path has no parent.
pub open spec fn art_candidates_of(track_path: Seq<char>) -> Option<Seq<Seq<char>>> {
    match parent_of(track_path) {
        Some(dir) => Some(folder_art_names().map_values(|n: Seq<char>| joined(dir, n))),
        None => None,
    }
}

pub fn folder_art_candidates(track_path: &str) -> (r: Option<Vec<String>>)
    ensures
        match r {
            Some(v) => art_candidates_of(track_path@) == Some(views(v@)),
            None => art_candidates_of(track_path@) is None,
        },
{
    let dir = match path_parent(track_path) {
        Some(d) => d,
        None => {
            return None;
        },
    };
    proof {
        reveal_strlit("cover.jpg");
        reveal_strlit("cover.jpeg");
        reveal_strlit("cover.png");
        reveal_strlit("folder.jpg");
        reveal_strlit("folder.jpeg");
        reveal_strlit("folder.png");
        reveal_strlit("front.jpg");
        reveal_strlit("front.png");
    }
    let mut v: Vec<String> = Vec::new();
    v.push(join_path(dir.as_str(), "cover.jpg"));
    v.push(join_path(dir.as_str(), "cover.jpeg"));
    v.push(join_path(dir.as_str(), "cover.png"));
    v.push(join_path(dir.as_str(), "folder.jpg"));
    v.push(join_path(dir.as_str(), "folder.jpeg"));
    v.push(join_path(dir.as_str(), "folder.png"));
    v.push(join_path(dir.as_str(), "front.jpg"));
    v.push(join_path(dir.as_str(), "front.png"));
    assert(views(v@) =~= folder_art_names().map_values(|n: Seq<char>| joined(dir@, n)));
    Some(v)
}

/// The first candidate (in the order tried) that is a regular file on
/// disk: `present[k]` tells whether `candidates[k]` is one.
pub open spec fn first_present(candidates: Seq<Seq<char>>, present: Seq<bool>, k: int) -> Option<Seq<char>>
    decreases candidates.len() - k,
{
    if k < 0 || k >= candidates.len() || k >= present.len() {
        None
    } else if present[k] {
        Some(candidates[k])
    } else {
        first_present(candidates, present, k + 1)
    }
}

/// Looks for conventional artwork next to an audio file, given which of the
/// candidate paths exist as files.
pub fn find_folder_art(candidates: &Vec<String>, present: &Vec<bool>) -> (r: Option<String>)
    ensures
        match r {
            Some(p) => first_present(views(candidates@), present@, 0) == Some(p@),
            None => first_present(views(candidates@), present@, 0) is None,
        },
{
    let mut k: usize = 0;
    while k < candidates.len() && k < present.len()
        invariant
            k <= candidates@.len(),
            first_present(views(candidates@), present@, 0) == first_present(
                views(candidates@),
                present@,
                k as int,
            ),
        decreases candidates@.len() - k,
    {
        if present[k] {
            return Some(candidates[k].clone());
        }
        k = k + 1;
    }
    None
}

// ---------------------------------------------------------------- write-back

/// Fields written back to the audio file when tag write-back is enabled.
#[derive(Debug, Clone)]
pub struct WriteBack {
    pub title: String,
    pub artist: String,
    pub album: Option<String>,
    pub year: Option<u32>,
    pub track_no: Option<u32>,
    pub disc_no: Option<u32>,
    /// A comma-separated list; empty clears.
    pub genre: Option<String>,
}

/// The genre to write: a value that is blank after trimming clears the
/// field instead.
pub fn genre_to_write(genre: &Option<String>) -> (r: Option<String>)
    ensures
        match genre {
            Some(g) => if trim(g@).len() > 0 {
                r == Some(*g)
            } else {
                r is None
            },
            None => r is None,
        },
{
    match genre {
        Some(g) => {
            let cs = chars_of(g.as_str());
            let a = skip_ws_start(&cs, 0, cs.len());
            let b = skip_ws_end(&cs, a, cs.len());
            proof {
                crate::text::lemma_trim_start_shift(cs@, 0, cs@.len() as int);
                assert(cs@.subrange(0, cs@.len() as int) =~= cs@);
                crate::text::lemma_trim_end_shift(cs@, a as int, cs@.len() as int);
                assert(trim(g@) == cs@.subrange(a as int, b as int));
            }
            if a < b {
                Some(g.clone())
            } else {
                None
            }
        },
        None => None,
    }
}

} // verus!
