//! Which local file-system changes the drive watcher reports.
use vstd::prelude::*;
use crate::text::{
    chars_eq, chars_of, ends_with, has_prefix, has_suffix, starts_with, slice_chars,
};
use crate::validation::{components, path_components};
use crate::events::DriveEvent;
use crate::file_commands::relative_path;
use crate::keys::NodeId;
use crate::validation::{is_prefix_of, join_components};
use crate::hex::{encode, hex_encode};
use crate::primitives::{blake3_hash, blake3_hash_of};
use crate::drive::{le_bytes, millis_le_bytes};
use crate::bytes::extend_bytes;

verus! {

/// Patterns of paths that the watcher ignores, in the order checked.
///
/// A pattern starting with `*` matches a path with that suffix; one ending with
/// `*` matches a path whose file name has that prefix; any other pattern matches
/// a path that has it as one of its components.
pub open spec fn ignore_patterns() -> Seq<Seq<char>> {
    seq![
        ".git"@,
        ".svn"@,
        ".hg"@,
        "node_modules"@,
        "__pycache__"@,
        ".DS_Store"@,
        "Thumbs.db"@,
        ".idea"@,
        ".vscode"@,
        "target"@,
        "*.tmp"@,
        "*.swp"@,
        "*.swo"@,
        "~$*"@,
    ]
}

/// The last component of a path, unless the path ends in `..` or has none.
pub open spec fn file_name(path: Seq<char>) -> Option<Seq<char>> {
    let c = components(path);
    if c.len() > 0 && c.last() != seq!['.', '.'] {
        Some(c.last())
    } else {
        None
    }
}

/// One ignore pattern matches a path.
pub open spec fn pattern_matches(pattern: Seq<char>, path: Seq<char>) -> bool {
    if pattern.len() > 0 && pattern[0] == '*' {
        ends_with(path, pattern.drop_first())
    } else if pattern.len() > 0 && pattern.last() == '*' {
        match file_name(path) {
            Some(f) => starts_with(f, pattern.drop_last()),
            None => false,
        }
    } else {
        components(path).contains(pattern)
    }
}

/// Some ignore pattern matches the path.
pub open spec fn ignored(path: Seq<char>) -> bool {
    exists|k: int| 0 <= k < ignore_patterns().len() && pattern_matches(
        #[trigger] ignore_patterns()[k],
        path,
    )
}

/// Whether the components hold `p`.
fn components_contain(c: &Vec<Vec<char>>, p: &[char]) -> (r: bool)
    ensures
        r == c@.map_values(|v: Vec<char>| v@).contains(p@),
{
    let ghost cv = c@.map_values(|v: Vec<char>| v@);
    let mut i: usize = 0;
    while i < c.len()
        invariant
            cv == c@.map_values(|v: Vec<char>| v@),
            i <= c@.len(),
            forall|j: int| 0 <= j < i ==> cv[j] != p@,
        decreases c@.len() - i,
    {
        if chars_eq(c[i].as_slice(), p) {
            assert(cv[i as int] == p@);
            return true;
        }
        i = i + 1;
    }
    false
}

/// Whether one ignore pattern matches the path.
fn matches_pattern(pattern: &[char], path: &[char]) -> (r: bool)
    ensures
        r == pattern_matches(pattern@, path@),
{
    if pattern.len() > 0 && pattern[0] == '*' {
        let suffix = slice_chars(pattern, 1, pattern.len());
        assert(suffix@ =~= pattern@.drop_first());
        has_suffix(path, suffix.as_slice())
    } else if pattern.len() > 0 && pattern[pattern.len() - 1] == '*' {
        let prefix = slice_chars(pattern, 0, pattern.len() - 1);
        assert(prefix@ =~= pattern@.drop_last());
        let comps = path_components(path);
        let ghost cv = comps@.map_values(|v: Vec<char>| v@);
        if comps.len() == 0 {
            return false;
        }
        let last = &comps[comps.len() - 1];
        assert(cv.last() == last@);
        let is_parent = last.len() == 2 && last[0] == '.' && last[1] == '.';
        assert(is_parent == (last@ == seq!['.', '.'])) by {
            if is_parent {
                assert(last@ =~= seq!['.', '.']);
            }
        }
        if is_parent {
            return false;
        }
        has_prefix(last.as_slice(), prefix.as_slice())
    } else {
        let comps = path_components(path);
        components_contain(&comps, pattern)
    }
}

/// Check if a path should be ignored by the watcher.
pub fn should_ignore(path: &str) -> (r: bool)
    ensures
        r == ignored(path@),
{
    let patterns: [&str; 14] = [
        ".git",
        ".svn",
        ".hg",
        "node_modules",
        "__pycache__",
        ".DS_Store",
        "Thumbs.db",
        ".idea",
        ".vscode",
        "target",
        "*.tmp",
        "*.swp",
        "*.swo",
        "~$*",
    ];
    let p = chars_of(path);
    let mut k: usize = 0;
    while k < 14
        invariant
            k <= 14,
            p@ == path@,
            forall|j: int| 0 <= j < 14 ==> (#[trigger] patterns@[j])@ == ignore_patterns()[j],
            forall|j: int| 0 <= j < k ==> !pattern_matches(#[trigger] ignore_patterns()[j], path@),
        decreases 14 - k,
    {
        let pat = chars_of(patterns[k]);
        if matches_pattern(pat.as_slice(), p.as_slice()) {
            assert(pattern_matches(ignore_patterns()[k as int], path@));
            return true;
        }
        k = k + 1;
    }
    false
}

/// The kind of a file-system change, as the watcher sees it.
#[derive(Clone, Copy, Debug, PartialEq, Eq, Structural)]
pub enum FsChangeKind {
    /// A file was created.
    FileCreated,
    /// A file's data was modified.
    DataModified,
    /// A folder was created.
    FolderCreated,
    /// A file was removed.
    FileRemoved,
    /// A folder was removed.
    FolderRemoved,
    /// A path was renamed, both old and new paths given.
    Renamed,
    /// Any other change (access, metadata, ...).
    Other,
}

/// What a file-system change asks of the watcher.
#[derive(Debug)]
pub enum FsStep {
    /// Nothing to report.
    Ignore,
    /// A file changed: its hash and size are to be read from `path` (on
    /// disk), and it is reported under `relative`.
    ReadFile { path: String, relative: String },
    /// A folder was created, reported as an empty file.
    FolderCreated { relative: String },
    /// A path was removed.
    Removed { relative: String },
}

/// A path relative to a root, where it lies under it (see `relative_path`).
pub open spec fn relative_to(path: Seq<char>, root: Seq<char>) -> Option<Seq<char>> {
    if is_prefix_of(components(root), components(path)) {
        Some(join_components(components(path).subrange(components(root).len() as int, components(path).len() as int)))
    } else {
        None
    }
}

/// What a file-system change asks of the watcher: nothing for a change
/// without paths, to an ignored path, or outside the root; for a created
/// or modified file, to read the file; a created folder or a removal is
/// reported at once; a rename with both paths reads the new path (when it
/// lies under the root); other changes are ignored.
pub open spec fn fs_step_spec(kind: FsChangeKind, paths: Seq<Seq<char>>, root: Seq<char>) -> (
    u8,
    Seq<char>,
    Seq<char>,
) {
    if paths.len() == 0 || ignored(paths[0]) || relative_to(paths[0], root) is None {
        (0, Seq::empty(), Seq::empty())
    } else {
        let rel = relative_to(paths[0], root).unwrap();
        match kind {
            FsChangeKind::FileCreated | FsChangeKind::DataModified => (1, paths[0], rel),
            FsChangeKind::FolderCreated => (2, Seq::empty(), rel),
            FsChangeKind::FileRemoved | FsChangeKind::FolderRemoved => (3, Seq::empty(), rel),
            FsChangeKind::Renamed => if paths.len() >= 2 && relative_to(paths[1], root) is Some {
                (1, paths[1], relative_to(paths[1], root).unwrap())
            } else {
                (0, Seq::empty(), Seq::empty())
            },
            FsChangeKind::Other => (0, Seq::empty(), Seq::empty()),
        }
    }
}

/// The shape of a step: its tag, path to read and relative path.
pub open spec fn step_shape(s: FsStep) -> (u8, Seq<char>, Seq<char>) {
    match s {
        FsStep::Ignore => (0, Seq::empty(), Seq::empty()),
        FsStep::ReadFile { path, relative } => (1, path@, relative@),
        FsStep::FolderCreated { relative } => (2, Seq::empty(), relative@),
        FsStep::Removed { relative } => (3, Seq::empty(), relative@),
    }
}

/// The step a file-system change asks for (see `fs_step_spec`).
pub fn plan_fs_change(kind: FsChangeKind, paths: &[String], root: &str) -> (s: FsStep)
    ensures
        step_shape(s) == fs_step_spec(kind, paths@.map_values(|p: String| p@), root@),
{
    let ghost pv = paths@.map_values(|p: String| p@);
    if paths.len() == 0 {
        return FsStep::Ignore;
    }
    assert(pv[0] == paths@[0]@);
    if should_ignore(paths[0].as_str()) {
        return FsStep::Ignore;
    }
    let rel = match relative_path(paths[0].as_str(), root) {
        Some(r) => r,
        None => return FsStep::Ignore,
    };
    match kind {
        FsChangeKind::FileCreated | FsChangeKind::DataModified => FsStep::ReadFile {
            path: paths[0].clone(),
            relative: rel,
        },
        FsChangeKind::FolderCreated => FsStep::FolderCreated { relative: rel },
        FsChangeKind::FileRemoved | FsChangeKind::FolderRemoved => FsStep::Removed { relative: rel },
        FsChangeKind::Renamed => {
            if paths.len() >= 2 {
                assert(pv[1] == paths@[1]@);
                match relative_path(paths[1].as_str(), root) {
                    Some(r2) => FsStep::ReadFile { path: paths[1].clone(), relative: r2 },
                    None => FsStep::Ignore,
                }
            } else {
                FsStep::Ignore
            }
        },
        FsChangeKind::Other => FsStep::Ignore,
    }
}

/// The event a step reports at `now` for this node, given what reading the
/// file gave (its hash and size; `None` where it could not be read): a
/// read file is a change (none where it could not be read), a created
/// folder a change with no hash and size 0, a removal a deletion.
pub fn fs_drive_event(step: FsStep, info: Option<(String, u64)>, node_id: NodeId, now: i64) -> (e:
    Option<DriveEvent>)
    ensures
        match step {
            FsStep::Ignore => e is None,
            FsStep::ReadFile { relative, .. } => match info {
                Some((hash, size)) => e == Some(
                    DriveEvent::FileChanged {
                        path: relative,
                        hash,
                        size,
                        modified_by: node_id,
                        timestamp: now,
                    },
                ),
                None => e is None,
            },
            FsStep::FolderCreated { relative } => e matches Some(
                DriveEvent::FileChanged { path, hash, size, modified_by, timestamp },
            ) && path == relative && hash@.len() == 0 && size == 0 && modified_by == node_id
                && timestamp == now,
            FsStep::Removed { relative } => e == Some(
                DriveEvent::FileDeleted { path: relative, deleted_by: node_id, timestamp: now },
            ),
        },
{
    match step {
        FsStep::Ignore => None,
        FsStep::ReadFile { relative, .. } => match info {
            Some((hash, size)) => Some(
                DriveEvent::FileChanged {
                    path: relative,
                    hash,
                    size,
                    modified_by: node_id,
                    timestamp: now,
                },
            ),
            None => None,
        },
        FsStep::FolderCreated { relative } => Some(
            DriveEvent::FileChanged {
                path: relative,
                hash: String::new(),
                size: 0,
                modified_by: node_id,
                timestamp: now,
            },
        ),
        FsStep::Removed { relative } => Some(
            DriveEvent::FileDeleted { path: relative, deleted_by: node_id, timestamp: now },
        ),
    }
}

/// Files up to this size are hashed whole (10 MiB).
pub const FULL_HASH_LIMIT: u64 = 10485760;

/// How much of a larger file is hashed (1 MiB).
pub const SAMPLE_SIZE: usize = 1048576;

/// The change-detection hash of a file of `size` bytes, given its content
/// (for a file up to 10 MiB) or what was read of its first MiB: the BLAKE3
/// hash (hex) of the whole content, or of the part read followed by the size
/// (little-endian).
pub open spec fn file_hash_spec(data: Seq<u8>, size: u64) -> Seq<char> {
    if size <= FULL_HASH_LIMIT {
        hex_encode(blake3_hash_of(data))
    } else {
        hex_encode(blake3_hash_of(data + le_bytes(size)))
    }
}

/// The change-detection hash of a file (see `file_hash_spec`).
pub fn file_hash(data: &[u8], size: u64) -> (h: String)
    ensures
        h@ == file_hash_spec(data@, size),
{
    if size <= FULL_HASH_LIMIT {
        let d = blake3_hash(data);
        encode(&d)
    } else {
        let mut buf: Vec<u8> = Vec::new();
        extend_bytes(&mut buf, data);
        let signed = #[verifier::truncate] (size as i64);
        assert((#[verifier::truncate] (signed as u64)) == size) by (bit_vector)
            requires
                signed == #[verifier::truncate] (size as i64),
        ;
        let tail = millis_le_bytes(signed);
        extend_bytes(&mut buf, tail.as_slice());
        let d = blake3_hash(buf.as_slice());
        encode(&d)
    }
}

} // verus!
