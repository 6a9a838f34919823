//! Conflicts between local and remote versions of a file: when they arise,
//! how they are suggested to be resolved, and their bookkeeping per drive.
//! Times are Unix milliseconds.
use vstd::prelude::*;
use crate::assoc::{
    assoc_find, assoc_insert, assoc_key_list, assoc_map, assoc_remove, assoc_wf, lemma_assoc_len,
    saturated, sum_over,
};
use crate::bytes::{extend_bytes, sub_bytes};
use crate::clock::{now_millis, INSTANT_BOUND};
use crate::hex::{encode, hex_encode};
use crate::keys::NodeId;
use crate::primitives::{blake3_hash, blake3_hash_of};
use crate::security::{rfc3339_or_empty, rfc3339_text};
use crate::text::{chars_eq, chars_of, slice_chars};
use crate::validation::{components, path_components};
use crate::watcher::file_name;

verus! {

/// Conflict resolution strategy.
#[derive(Clone, Copy, Debug, PartialEq, Eq, Structural)]
pub enum ResolutionStrategy {
    /// Keep the local version, discard the remote one.
    KeepLocal,
    /// Keep the remote version, discard the local one.
    KeepRemote,
    /// Keep both versions (rename the conflicting file).
    KeepBoth,
    /// Merge by hand (text files).
    ManualMerge,
}

impl ResolutionStrategy {
    /// The name of a strategy.
    pub open spec fn spec_name(self) -> Seq<char> {
        match self {
            ResolutionStrategy::KeepLocal => "KeepLocal"@,
            ResolutionStrategy::KeepRemote => "KeepRemote"@,
            ResolutionStrategy::KeepBoth => "KeepBoth"@,
            ResolutionStrategy::ManualMerge => "ManualMerge"@,
        }
    }

    /// The name of a strategy.
    pub fn name(&self) -> (s: String)
        ensures
            s@ == self.spec_name(),
    {
        match self {
            ResolutionStrategy::KeepLocal => String::from_str("KeepLocal"),
            ResolutionStrategy::KeepRemote => String::from_str("KeepRemote"),
            ResolutionStrategy::KeepBoth => String::from_str("KeepBoth"),
            ResolutionStrategy::ManualMerge => String::from_str("ManualMerge"),
        }
    }
}

/// One side of a conflict.
#[derive(Debug)]
pub struct ConflictVersion {
    /// BLAKE3 hash of the content.
    pub hash: String,
    /// Size in bytes.
    pub size: u64,
    /// Last modification time.
    pub modified_at: i64,
    /// Node that made the change.
    pub modified_by: NodeId,
    /// Optional preview of a text file.
    pub preview: Option<String>,
}

impl Clone for ConflictVersion {
    fn clone(&self) -> (r: ConflictVersion)
        ensures
            r == *self,
    {
        ConflictVersion {
            hash: self.hash.clone(),
            size: self.size,
            modified_at: self.modified_at,
            modified_by: self.modified_by,
            preview: crate::access::clone_opt_string(&self.preview),
        }
    }
}

/// A conflict between a local and a remote version of a file.
#[derive(Debug)]
pub struct FileConflict {
    /// Conflict id (from the path and both hashes).
    pub id: String,
    /// Path relative to the drive root.
    pub path: String,
    /// When the conflict was detected.
    pub detected_at: i64,
    /// The local version.
    pub local: ConflictVersion,
    /// The remote version.
    pub remote: ConflictVersion,
    /// Hash of the common ancestor, if known.
    pub base_hash: Option<String>,
    /// Whether the conflict was resolved.
    pub resolved: bool,
    /// The resolution used, if resolved.
    pub resolution: Option<ResolutionStrategy>,
}

impl Clone for FileConflict {
    fn clone(&self) -> (r: FileConflict)
        ensures
            r == *self,
    {
        FileConflict {
            id: self.id.clone(),
            path: self.path.clone(),
            detected_at: self.detected_at,
            local: self.local.clone(),
            remote: self.remote.clone(),
            base_hash: crate::access::clone_opt_string(&self.base_hash),
            resolved: self.resolved,
            resolution: self.resolution,
        }
    }
}

/// The id of a conflict: hex of the first 16 bytes of the BLAKE3 hash of
/// the path, the local hash and the remote hash (UTF-8).
pub open spec fn conflict_id(path: Seq<char>, local_hash: Seq<char>, remote_hash: Seq<char>) -> Seq<
    char,
> {
    hex_encode(
        blake3_hash_of(
            vstd::utf8::encode_utf8(path) + vstd::utf8::encode_utf8(local_hash)
                + vstd::utf8::encode_utf8(remote_hash),
        ).subrange(0, 16),
    )
}

/// The index of the last `.` of a string, or -1.
pub open spec fn last_dot(f: Seq<char>) -> int
    decreases f.len(),
{
    if f.len() == 0 {
        -1
    } else if f.last() == '.' {
        f.len() - 1
    } else {
        last_dot(f.drop_last())
    }
}

/// The extension of a path: what follows the last `.` of its file name,
/// unless that `.` starts the name or there is none.
pub open spec fn extension(path: Seq<char>) -> Option<Seq<char>> {
    match file_name(path) {
        Some(f) => if last_dot(f) > 0 {
            Some(f.subrange(last_dot(f) + 1, f.len() as int))
        } else {
            None
        },
        None => None,
    }
}

/// ASCII lower-casing of a string.
pub open spec fn ascii_lower(s: Seq<char>) -> Seq<char> {
    s.map_values(
        |c: char|
            if 'A' <= c && c <= 'Z' {
                ((c as u8) + 32) as char
            } else {
                c
            },
    )
}

/// Extensions of text files, which can be merged.
pub open spec fn text_extensions() -> Seq<Seq<char>> {
    seq![
        "txt"@, "md"@, "json"@, "yaml"@, "yml"@, "toml"@, "xml"@, "html"@, "css"@, "js"@,
        "ts"@, "jsx"@, "tsx"@, "rs"@, "py"@, "go"@, "java"@, "c"@, "cpp"@, "h"@, "hpp"@,
        "sh"@, "bash"@, "zsh"@, "ps1"@, "bat"@, "cmd"@, "sql"@, "csv"@,
    ]
}

/// A path is a text file: its extension, lower-cased, is a text extension.
///
/// Lower-casing is ASCII here; Unicode lower-casing gives the same answer on
/// this list, since no non-ASCII character lower-cases into one of its words.
pub open spec fn is_text_path(path: Seq<char>) -> bool {
    match extension(path) {
        Some(e) => text_extensions().contains(ascii_lower(e)),
        None => false,
    }
}

/// The suggested resolution: the newer side, or both when equally new.
pub open spec fn suggested(local_time: i64, remote_time: i64) -> ResolutionStrategy {
    if remote_time > local_time {
        ResolutionStrategy::KeepRemote
    } else if local_time > remote_time {
        ResolutionStrategy::KeepLocal
    } else {
        ResolutionStrategy::KeepBoth
    }
}

/// The suggested resolution keeps the side modified strictly later: the
/// remote side when it is newer, the local side when it is newer, and both
/// when they were modified at the same instant.
pub proof fn law_suggestion_keeps_newer_side(local_time: i64, remote_time: i64)
    ensures
        remote_time > local_time ==> suggested(local_time, remote_time)
            == ResolutionStrategy::KeepRemote,
        local_time > remote_time ==> suggested(local_time, remote_time)
            == ResolutionStrategy::KeepLocal,
        local_time == remote_time ==> suggested(local_time, remote_time)
            == ResolutionStrategy::KeepBoth,
        suggested(local_time, remote_time) != ResolutionStrategy::ManualMerge,
{
}

/// Whether a change is a conflict: the hashes differ, and neither side is
/// the common ancestor (when it is known).
pub open spec fn is_conflict(local_hash: Seq<char>, remote_hash: Seq<char>, base: Option<Seq<char>>) -> bool {
    local_hash != remote_hash && match base {
        Some(b) => local_hash != b && remote_hash != b,
        None => true,
    }
}

/// The extension of a path (see `extension`).
pub fn path_extension(path: &str) -> (r: Option<Vec<char>>)
    ensures
        match extension(path@) {
            Some(e) => r matches Some(v) && v@ == e,
            None => r is None,
        },
{
    let p = chars_of(path);
    let comps = path_components(p.as_slice());
    let ghost cv = comps@.map_values(|v: Vec<char>| v@);
    if comps.len() == 0 {
        return None;
    }
    let last = &comps[comps.len() - 1];
    assert(cv.last() == last@);
    let is_parent = last.len() == 2 && last[0] == '.' && last[1] == '.';
    assert(is_parent == (last@ == seq!['.', '.'])) by {
        if is_parent {
            assert(last@ =~= seq!['.', '.']);
        }
    }
    if is_parent {
        return None;
    }
    let ghost f = last@;
    assert(file_name(path@) == Some(f));
    let mut i: usize = last.len();
    assert(f.subrange(0, i as int) =~= f);
    while i > 0
        invariant
            f == last@,
            file_name(path@) == Some(f),
            i <= f.len(),
            last_dot(f) == last_dot(f.subrange(0, i as int)),
        decreases i,
    {
        assert(f.subrange(0, i as int).drop_last() =~= f.subrange(0, i - 1));
        if last[i - 1] == '.' {
            let k = i - 1;
            if k == 0 {
                return None;
            }
            let e = slice_chars(last.as_slice(), k + 1, last.len());
            return Some(e);
        }
        i = i - 1;
    }
    None
}

/// ASCII lower-casing (see `ascii_lower`).
pub fn to_ascii_lower(s: &[char]) -> (r: Vec<char>)
    ensures
        r@ == ascii_lower(s@),
{
    let mut r: Vec<char> = Vec::new();
    let mut i: usize = 0;
    while i < s.len()
        invariant
            i <= s@.len(),
            r@ == ascii_lower(s@.subrange(0, i as int)),
        decreases s@.len() - i,
    {
        let c = s[i];
        let d = if 'A' <= c && c <= 'Z' {
            ((c as u8) + 32) as char
        } else {
            c
        };
        r.push(d);
        i = i + 1;
        assert(r@ =~= ascii_lower(s@.subrange(0, i as int)));
    }
    assert(s@.subrange(0, s@.len() as int) =~= s@);
    r
}

/// Whether a path is a text file (see `is_text_path`).
pub fn is_text_file_path(path: &str) -> (r: bool)
    ensures
        r == is_text_path(path@),
{
    let exts: [&str; 29] = [
        "txt", "md", "json", "yaml", "yml", "toml", "xml", "html", "css", "js", "ts", "jsx", "tsx",
        "rs", "py", "go", "java", "c", "cpp", "h", "hpp", "sh", "bash", "zsh", "ps1", "bat", "cmd",
        "sql", "csv",
    ];
    let e = match path_extension(path) {
        Some(e) => e,
        None => return false,
    };
    let lower = to_ascii_lower(e.as_slice());
    let mut k: usize = 0;
    while k < 29
        invariant
            k <= 29,
            extension(path@) matches Some(ev) && lower@ == ascii_lower(ev),
            forall|j: int| 0 <= j < 29 ==> (#[trigger] exts@[j])@ == text_extensions()[j],
            forall|j: int| 0 <= j < k ==> text_extensions()[j] != lower@,
        decreases 29 - k,
    {
        let x = chars_of(exts[k]);
        if chars_eq(x.as_slice(), lower.as_slice()) {
            assert(text_extensions()[k as int] == lower@);
            assert(text_extensions().contains(lower@));
            return true;
        }
        k = k + 1;
    }
    assert(!text_extensions().contains(lower@)) by {
        if text_extensions().contains(lower@) {
            let j = choose|j: int| 0 <= j < text_extensions().len() && text_extensions()[j] == lower@;
        }
    }
    false
}

/// Whether an incoming change conflicts with the local state.
pub fn conflicts(local_hash: &str, remote_hash: &str, base_hash: &Option<String>) -> (r: bool)
    ensures
        r == is_conflict(
            local_hash@,
            remote_hash@,
            match base_hash {
                Some(b) => Some(b@),
                None => None,
            },
        ),
{
    let l = chars_of(local_hash);
    let rm = chars_of(remote_hash);
    if chars_eq(l.as_slice(), rm.as_slice()) {
        return false;
    }
    match base_hash {
        Some(b) => {
            let bc = chars_of(b.as_str());
            !chars_eq(l.as_slice(), bc.as_slice()) && !chars_eq(rm.as_slice(), bc.as_slice())
        },
        None => true,
    }
}

impl FileConflict {
    /// A new unresolved conflict detected at time `now`.
    pub fn new_at(
        path: String,
        local: ConflictVersion,
        remote: ConflictVersion,
        base_hash: Option<String>,
        now: i64,
    ) -> (c: FileConflict)
        ensures
            c.id@ == conflict_id(path@, local.hash@, remote.hash@),
            c.path == path,
            c.detected_at == now,
            c.local == local,
            c.remote == remote,
            c.base_hash == base_hash,
            !c.resolved,
            c.resolution is None,
    {
        let id = Self::generate_id(path.as_str(), local.hash.as_str(), remote.hash.as_str());
        FileConflict {
            id,
            path,
            detected_at: now,
            local,
            remote,
            base_hash,
            resolved: false,
            resolution: None,
        }
    }

    /// A new unresolved conflict detected now.
    pub fn new(
        path: String,
        local: ConflictVersion,
        remote: ConflictVersion,
        base_hash: Option<String>,
    ) -> (c: FileConflict)
        ensures
            c.id@ == conflict_id(path@, local.hash@, remote.hash@),
            c.path == path,
            c.local == local,
            c.remote == remote,
            c.base_hash == base_hash,
            !c.resolved,
            c.resolution is None,
            -INSTANT_BOUND < c.detected_at < INSTANT_BOUND,
    {
        Self::new_at(path, local, remote, base_hash, now_millis())
    }

    /// The deterministic id of a conflict.
    pub fn generate_id(path: &str, local_hash: &str, remote_hash: &str) -> (s: String)
        ensures
            s@ == conflict_id(path@, local_hash@, remote_hash@),
    {
        let mut data: Vec<u8> = Vec::new();
        extend_bytes(&mut data, path.as_bytes());
        extend_bytes(&mut data, local_hash.as_bytes());
        extend_bytes(&mut data, remote_hash.as_bytes());
        let h = blake3_hash(data.as_slice());
        let head = sub_bytes(&h, 0, 16);
        encode(head.as_slice())
    }

    /// Mark as resolved with a strategy.
    pub fn resolve(&mut self, strategy: ResolutionStrategy)
        ensures
            *final(self) == (FileConflict { resolved: true, resolution: Some(strategy), ..*old(self) }),
    {
        self.resolved = true;
        self.resolution = Some(strategy);
    }

    /// Whether the file is a text file (can be merged).
    pub fn is_text_file(&self) -> (r: bool)
        ensures
            r == is_text_path(self.path@),
    {
        is_text_file_path(self.path.as_str())
    }

    /// The suggested resolution strategy.
    pub fn suggested_resolution(&self) -> (s: ResolutionStrategy)
        ensures
            s == suggested(self.local.modified_at, self.remote.modified_at),
            self.remote.modified_at > self.local.modified_at ==> s == ResolutionStrategy::KeepRemote,
            self.local.modified_at > self.remote.modified_at ==> s == ResolutionStrategy::KeepLocal,
            self.local.modified_at == self.remote.modified_at ==> s == ResolutionStrategy::KeepBoth,
    {
        if self.remote.modified_at > self.local.modified_at {
            ResolutionStrategy::KeepRemote
        } else if self.local.modified_at > self.remote.modified_at {
            ResolutionStrategy::KeepLocal
        } else {
            ResolutionStrategy::KeepBoth
        }
    }
}

/// A conflict as the frontend is shown it.
#[derive(Clone, Debug)]
pub struct FileConflictDto {
    pub id: String,
    pub path: String,
    pub detected_at: String,
    pub local_hash: String,
    pub local_size: u64,
    pub local_modified_at: String,
    pub local_modified_by: String,
    pub local_preview: Option<String>,
    pub remote_hash: String,
    pub remote_size: u64,
    pub remote_modified_at: String,
    pub remote_modified_by: String,
    pub remote_preview: Option<String>,
    pub is_text_file: bool,
    pub suggested_resolution: String,
    pub resolved: bool,
}

impl FileConflictDto {
    /// The record of a conflict.
    pub fn from_conflict(c: &FileConflict) -> (d: FileConflictDto)
        ensures
            d.id@ == c.id@,
            d.path@ == c.path@,
            d.detected_at@ == rfc3339_text(c.detected_at),
            d.local_hash@ == c.local.hash@,
            d.local_size == c.local.size,
            d.local_modified_at@ == rfc3339_text(c.local.modified_at),
            d.local_modified_by@ == hex_encode(c.local.modified_by.0@),
            d.local_preview == c.local.preview,
            d.remote_hash@ == c.remote.hash@,
            d.remote_size == c.remote.size,
            d.remote_modified_at@ == rfc3339_text(c.remote.modified_at),
            d.remote_modified_by@ == hex_encode(c.remote.modified_by.0@),
            d.remote_preview == c.remote.preview,
            d.is_text_file == is_text_path(c.path@),
            d.suggested_resolution@ == suggested(
                c.local.modified_at,
                c.remote.modified_at,
            ).spec_name(),
            d.resolved == c.resolved,
    {
        FileConflictDto {
            id: c.id.clone(),
            path: c.path.clone(),
            detected_at: rfc3339_or_empty(c.detected_at),
            local_hash: c.local.hash.clone(),
            local_size: c.local.size,
            local_modified_at: rfc3339_or_empty(c.local.modified_at),
            local_modified_by: c.local.modified_by.to_hex(),
            local_preview: crate::access::clone_opt_string(&c.local.preview),
            remote_hash: c.remote.hash.clone(),
            remote_size: c.remote.size,
            remote_modified_at: rfc3339_or_empty(c.remote.modified_at),
            remote_modified_by: c.remote.modified_by.to_hex(),
            remote_preview: crate::access::clone_opt_string(&c.remote.preview),
            is_text_file: c.is_text_file(),
            suggested_resolution: c.suggested_resolution().name(),
            resolved: c.resolved,
        }
    }
}

/// How many resolved conflicts a drive keeps.
pub const MAX_RESOLVED: usize = 100;

/// The conflicts of one drive: unresolved ones by path, and the history of
/// resolved ones (oldest first, at most 100).
#[derive(Debug)]
pub struct DriveConflictManager {
    conflicts: Vec<(String, FileConflict)>,
    resolved: Vec<FileConflict>,
}

impl DriveConflictManager {
    /// One unresolved conflict per path; the history is bounded.
    pub closed spec fn wf(&self) -> bool {
        &&& assoc_wf(self.conflicts@)
        &&& self.resolved@.len() <= MAX_RESOLVED
        &&& forall|j: int|
            0 <= j < self.conflicts@.len() ==> (#[trigger] self.conflicts@[j]).1.path@
                == self.conflicts@[j].0@
    }

    /// The unresolved conflicts by path.
    pub closed spec fn conflicts_view(&self) -> Map<Seq<char>, FileConflict> {
        assoc_map(self.conflicts@)
    }

    /// The resolved conflicts, oldest first.
    pub closed spec fn resolved_view(&self) -> Seq<FileConflict> {
        self.resolved@
    }

    /// No conflicts.
    pub fn new() -> (m: DriveConflictManager)
        ensures
            m.wf(),
            m.conflicts_view() == Map::<Seq<char>, FileConflict>::empty(),
            m.resolved_view() == Seq::<FileConflict>::empty(),
    {
        DriveConflictManager { conflicts: Vec::new(), resolved: Vec::new() }
    }

    /// Add a conflict (replacing one of the same path).
    pub fn add_conflict(&mut self, conflict: FileConflict)
        requires
            old(self).wf(),
        ensures
            final(self).wf(),
            final(self).conflicts_view() == old(self).conflicts_view().insert(
                conflict.path@,
                conflict,
            ),
            final(self).resolved_view() == old(self).resolved_view(),
    {
        let path = conflict.path.clone();
        let ghost before = self.conflicts@;
        assoc_insert(&mut self.conflicts, path.as_str(), conflict);
        proof {
            assert forall|j: int|
                0 <= j < self.conflicts@.len() implies (#[trigger] self.conflicts@[j]).1.path@
                == self.conflicts@[j].0@ by {
                if before.contains(self.conflicts@[j]) {
                    let m = choose|m: int| 0 <= m < before.len() && before[m] == self.conflicts@[j];
                    assert(before[m].1.path@ == before[m].0@);
                }
            }
        }
    }

    /// The unresolved conflict of a path.
    pub fn get_conflict(&self, path: &str) -> (r: Option<FileConflict>)
        requires
            self.wf(),
        ensures
            self.conflicts_view().dom().contains(path@) ==> r == Some(self.conflicts_view()[path@]),
            !self.conflicts_view().dom().contains(path@) ==> r is None,
    {
        match assoc_find(&self.conflicts, path) {
            Some(i) => Some(self.conflicts[i].1.clone()),
            None => None,
        }
    }

    /// The unresolved conflict with an id.
    pub fn get_conflict_by_id(&self, id: &str) -> (r: Option<FileConflict>)
        requires
            self.wf(),
        ensures
            r matches Some(c) ==> c.id@ == id@ && exists|p: Seq<char>|
                self.conflicts_view().dom().contains(p) && self.conflicts_view()[p] == c,
            r is None ==> forall|p: Seq<char>|
                self.conflicts_view().dom().contains(p) ==> self.conflicts_view()[p].id@ != id@,
    {
        let k = chars_of(id);
        let mut i: usize = 0;
        while i < self.conflicts.len()
            invariant
                self.wf(),
                k@ == id@,
                i <= self.conflicts@.len(),
                forall|j: int| 0 <= j < i ==> self.conflicts@[j].1.id@ != id@,
            decreases self.conflicts@.len() - i,
        {
            let c = chars_of(self.conflicts[i].1.id.as_str());
            if chars_eq(c.as_slice(), k.as_slice()) {
                proof {
                    crate::assoc::lemma_assoc_at(self.conflicts@, i as int);
                }
                return Some(self.conflicts[i].1.clone());
            }
            i = i + 1;
        }
        proof {
            assert forall|p: Seq<char>|
                self.conflicts_view().dom().contains(p) implies self.conflicts_view()[p].id@
                != id@ by {
                let j = crate::assoc::lemma_assoc_index(self.conflicts@, p);
            }
        }
        None
    }

    /// The unresolved conflicts.
    pub fn list_conflicts(&self) -> (v: Vec<FileConflict>)
        requires
            self.wf(),
        ensures
            v@.len() == self.conflicts_view().len(),
            forall|i: int|
                0 <= i < v@.len() ==> self.conflicts_view().dom().contains(#[trigger] v@[i].path@)
                    && self.conflicts_view()[v@[i].path@] == v@[i],
            forall|i: int, j: int| 0 <= i < j < v@.len() ==> v@[i].path@ != v@[j].path@,
    {
        let mut v: Vec<FileConflict> = Vec::new();
        let mut i: usize = 0;
        while i < self.conflicts.len()
            invariant
                self.wf(),
                i <= self.conflicts@.len(),
                v@.len() == i,
                forall|j: int| 0 <= j < i ==> #[trigger] v@[j] == self.conflicts@[j].1,
                forall|j: int| 0 <= j < self.conflicts@.len() ==> (#[trigger] self.conflicts@[j]).1.path@
                    == self.conflicts@[j].0@,
            decreases self.conflicts@.len() - i,
        {
            v.push(self.conflicts[i].1.clone());
            i = i + 1;
        }
        proof {
            lemma_assoc_len(self.conflicts@);
            assert forall|i: int|
                0 <= i < v@.len() implies self.conflicts_view().dom().contains(#[trigger] v@[i].path@)
                && self.conflicts_view()[v@[i].path@] == v@[i] by {
                crate::assoc::lemma_assoc_at(self.conflicts@, i);
            }
            assert forall|i: int, j: int| 0 <= i < j < v@.len() implies v@[i].path@ != v@[j].path@ by {
                assert(crate::assoc::assoc_keys(self.conflicts@)[i] == self.conflicts@[i].0@);
                assert(crate::assoc::assoc_keys(self.conflicts@)[j] == self.conflicts@[j].0@);
            }
        }
        v
    }

    /// Resolve the conflict of a path: it leaves the unresolved ones and
    /// joins the history (which keeps the newest 100).
    pub fn resolve_conflict(&mut self, path: &str, strategy: ResolutionStrategy) -> (r: Option<
        FileConflict,
    >)
        requires
            old(self).wf(),
        ensures
            final(self).wf(),
            final(self).conflicts_view() == old(self).conflicts_view().remove(path@),
            !old(self).conflicts_view().dom().contains(path@) ==> r is None && final(self).resolved_view() == old(self).resolved_view(),
            old(self).conflicts_view().dom().contains(path@) ==> {
                let c = FileConflict {
                    resolved: true,
                    resolution: Some(strategy),
                    ..old(self).conflicts_view()[path@]
                };
                &&& r == Some(c)
                &&& final(self).resolved_view() == bounded_history(old(self).resolved_view().push(c))
            },
    {
        match assoc_remove(&mut self.conflicts, path) {
            Some(mut c) => {
                c.resolve(strategy);
                let ghost before = self.resolved@;
                self.resolved.push(c.clone());
                if self.resolved.len() > MAX_RESOLVED {
                    self.resolved.remove(0);
                    assert(self.resolved@ =~= bounded_history(before.push(c)));
                }
                Some(c)
            },
            None => None,
        }
    }

    /// The number of unresolved conflicts.
    pub fn conflict_count(&self) -> (n: usize)
        requires
            self.wf(),
        ensures
            n == self.conflicts_view().len(),
    {
        proof {
            lemma_assoc_len(self.conflicts@);
        }
        self.conflicts.len()
    }

    /// Drop every unresolved conflict.
    pub fn clear_all(&mut self)
        requires
            old(self).wf(),
        ensures
            final(self).wf(),
            final(self).conflicts_view() == Map::<Seq<char>, FileConflict>::empty(),
            final(self).resolved_view() == old(self).resolved_view(),
    {
        self.conflicts = Vec::new();
    }

    /// Drop resolved conflicts detected at or before `cutoff`; returns how
    /// many were dropped.
    pub fn cleanup_old_resolved(&mut self, cutoff: i64) -> (n: usize)
        requires
            old(self).wf(),
        ensures
            final(self).wf(),
            final(self).resolved_view() == old(self).resolved_view().filter(
                |c: FileConflict| c.detected_at > cutoff,
            ),
            final(self).conflicts_view() == old(self).conflicts_view(),
            n == old(self).resolved_view().len() - final(self).resolved_view().len(),
    {
        let ghost old_r = self.resolved@;
        let mut kept: Vec<FileConflict> = Vec::new();
        let mut i: usize = 0;
        while i < self.resolved.len()
            invariant
                old_r == self.resolved@,
                i <= old_r.len(),
                kept@ == old_r.subrange(0, i as int).filter(|c: FileConflict| c.detected_at > cutoff),
                kept@.len() <= i,
            decreases old_r.len() - i,
        {
            assert(old_r.subrange(0, i + 1).drop_last() =~= old_r.subrange(0, i as int));
            proof {
                reveal(Seq::filter);
            }
            if self.resolved[i].detected_at > cutoff {
                kept.push(self.resolved[i].clone());
            }
            i = i + 1;
        }
        assert(old_r.subrange(0, old_r.len() as int) =~= old_r);
        let n = self.resolved.len() - kept.len();
        self.resolved = kept;
        n
    }
}

/// A history with one entry too many loses its oldest entry.
pub open spec fn bounded_history(h: Seq<FileConflict>) -> Seq<FileConflict> {
    if h.len() > MAX_RESOLVED {
        h.drop_first()
    } else {
        h
    }
}


/// Every manager of a list is well formed.
pub open spec fn managers_wf(s: Seq<(String, DriveConflictManager)>) -> bool {
    forall|i: int| 0 <= i < s.len() ==> (#[trigger] s[i]).1.wf()
}

proof fn lemma_managers_wf_sub(
    old: Seq<(String, DriveConflictManager)>,
    new: Seq<(String, DriveConflictManager)>,
)
    requires
        managers_wf(old),
        forall|j: int| 0 <= j < new.len() ==> old.contains(#[trigger] new[j]),
    ensures
        managers_wf(new),
{
    assert forall|j: int| 0 <= j < new.len() implies (#[trigger] new[j]).1.wf() by {
        assert(old.contains(new[j]));
        let m = choose|m: int| 0 <= m < old.len() && old[m] == new[j];
        assert(old[m].1.wf());
    }
}

proof fn lemma_managers_wf_insert(
    old: Seq<(String, DriveConflictManager)>,
    new: Seq<(String, DriveConflictManager)>,
    key: Seq<char>,
    m: DriveConflictManager,
)
    requires
        managers_wf(old),
        m.wf(),
        forall|j: int|
            0 <= j < new.len() ==> old.contains(#[trigger] new[j]) || (new[j].0@ == key && new[j].1
                == m),
    ensures
        managers_wf(new),
{
    assert forall|j: int| 0 <= j < new.len() implies (#[trigger] new[j]).1.wf() by {
        if old.contains(new[j]) {
            let k = choose|k: int| 0 <= k < old.len() && old[k] == new[j];
            assert(old[k].1.wf());
        }
    }
}

proof fn lemma_managers_map_wf(s: Seq<(String, DriveConflictManager)>, k: Seq<char>)
    requires
        assoc_wf(s),
        managers_wf(s),
        assoc_map(s).dom().contains(k),
    ensures
        assoc_map(s)[k].wf(),
{
    let i = crate::assoc::lemma_assoc_index(s, k);
}

/// The conflicts of all drives, by drive id (hex).
#[derive(Debug)]
pub struct ConflictManager {
    drives: Vec<(String, DriveConflictManager)>,
}

impl ConflictManager {
    /// One manager per drive, each well formed.
    pub closed spec fn wf(&self) -> bool {
        assoc_wf(self.drives@) && managers_wf(self.drives@)
    }

    /// The managers by drive.
    pub closed spec fn drives_view(&self) -> Map<Seq<char>, DriveConflictManager> {
        assoc_map(self.drives@)
    }

    /// The unresolved conflicts of a drive (none for an unknown drive).
    pub open spec fn conflicts_of(&self, drive_id: Seq<char>) -> Map<Seq<char>, FileConflict> {
        if self.drives_view().dom().contains(drive_id) {
            self.drives_view()[drive_id].conflicts_view()
        } else {
            Map::empty()
        }
    }

    /// The number of unresolved conflicts over all drives (saturating at
    /// `usize::MAX`).
    pub closed spec fn total_view(&self) -> usize {
        conflict_total(self.drives@)
    }

    /// No drives.
    pub fn new() -> (m: ConflictManager)
        ensures
            m.wf(),
            m.drives_view() == Map::<Seq<char>, DriveConflictManager>::empty(),
    {
        ConflictManager { drives: Vec::new() }
    }

    fn take_drive(&mut self, drive_id: &str) -> (m: DriveConflictManager)
        requires
            old(self).wf(),
        ensures
            final(self).wf(),
            m.wf(),
            final(self).drives_view() == old(self).drives_view().remove(drive_id@),
            old(self).drives_view().dom().contains(drive_id@) ==> m == old(self).drives_view()[drive_id@],
            !old(self).drives_view().dom().contains(drive_id@) ==> m.conflicts_view() == Map::<
                Seq<char>,
                FileConflict,
            >::empty() && m.resolved_view() == Seq::<FileConflict>::empty(),
    {
        proof {
            if self.drives_view().dom().contains(drive_id@) {
                lemma_managers_map_wf(self.drives@, drive_id@);
            }
        }
        let ghost before = self.drives@;
        let r = assoc_remove(&mut self.drives, drive_id);
        proof {
            lemma_managers_wf_sub(before, self.drives@);
        }
        match r {
            Some(m) => m,
            None => DriveConflictManager::new(),
        }
    }

    fn put_drive(&mut self, drive_id: &str, m: DriveConflictManager)
        requires
            old(self).wf(),
            m.wf(),
        ensures
            final(self).wf(),
            final(self).drives_view() == old(self).drives_view().insert(drive_id@, m),
    {
        let ghost before = self.drives@;
        let ghost mm = m;
        assoc_insert(&mut self.drives, drive_id, m);
        proof {
            lemma_managers_wf_insert(before, self.drives@, drive_id@, mm);
        }
    }

    /// What recording a change of a drive's file at `now` leaves and
    /// answers: no conflict (equal hashes, or one side is the common
    /// ancestor) changes nothing; a conflict is recorded under its path, as
    /// a new unresolved conflict detected at `now`, and returned. Other
    /// drives are untouched.
    pub open spec fn detect_outcome(
        before: ConflictManager,
        after: ConflictManager,
        drive_id: Seq<char>,
        path: String,
        local: ConflictVersion,
        remote: ConflictVersion,
        base_hash: Option<String>,
        now: i64,
        r: Option<FileConflict>,
    ) -> bool {
        let base = match base_hash {
            Some(b) => Some(b@),
            None => None,
        };
        &&& !is_conflict(local.hash@, remote.hash@, base) ==> r is None && after.drives_view()
            == before.drives_view()
        &&& is_conflict(local.hash@, remote.hash@, base) ==> (r matches Some(c) && c.id@
            == conflict_id(path@, local.hash@, remote.hash@) && c.path == path && c.local == local
            && c.remote == remote && c.base_hash == base_hash && c.detected_at == now && !c.resolved
            && c.resolution is None && after.conflicts_of(drive_id) == before.conflicts_of(
            drive_id,
        ).insert(path@, c) && after.drives_view().dom() == before.drives_view().dom().insert(drive_id)
            && forall|d: Seq<char>|
            d != drive_id ==> #[trigger] after.conflicts_of(d) == before.conflicts_of(d))
    }

    /// Record a conflict of a drive at time `now`, if the change is one (see
    /// `detect_outcome`).
    pub fn detect_conflict_at(
        &mut self,
        drive_id: &str,
        path: String,
        local: ConflictVersion,
        remote: ConflictVersion,
        base_hash: Option<String>,
        now: i64,
    ) -> (r: Option<FileConflict>)
        requires
            old(self).wf(),
        ensures
            final(self).wf(),
            Self::detect_outcome(*old(self), *final(self), drive_id@, path, local, remote, base_hash, now, r),
    {
        if !conflicts(local.hash.as_str(), remote.hash.as_str(), &base_hash) {
            return None;
        }
        let conflict = FileConflict::new_at(path, local, remote, base_hash, now);
        let mut m = self.take_drive(drive_id);
        m.add_conflict(conflict.clone());
        self.put_drive(drive_id, m);
        proof {
            let old_v = old(self).drives_view();
            assert(self.drives_view().dom() =~= old_v.dom().insert(drive_id@));
            assert forall|d: Seq<char>| d != drive_id@ implies #[trigger] self.conflicts_of(d)
                == old(self).conflicts_of(d) by {
                assert(self.drives_view().dom().contains(d) == old_v.dom().contains(d));
                if old_v.dom().contains(d) {
                    assert(self.drives_view()[d] == old_v[d]);
                }
            }
        }
        Some(conflict)
    }

    /// Record a conflict of a drive detected now, if the change is one.
    pub fn detect_conflict(
        &mut self,
        drive_id: &str,
        path: String,
        local: ConflictVersion,
        remote: ConflictVersion,
        base_hash: Option<String>,
    ) -> (r: Option<FileConflict>)
        requires
            old(self).wf(),
        ensures
            final(self).wf(),
            exists|now: i64|
                -INSTANT_BOUND < now < INSTANT_BOUND && #[trigger] Self::detect_outcome(
                    *old(self),
                    *final(self),
                    drive_id@,
                    path,
                    local,
                    remote,
                    base_hash,
                    now,
                    r,
                ),
    {
        let now = now_millis();
        self.detect_conflict_at(drive_id, path, local, remote, base_hash, now)
    }

    /// The unresolved conflicts of a drive.
    pub fn list_conflicts(&self, drive_id: &str) -> (v: Vec<FileConflict>)
        requires
            self.wf(),
        ensures
            v@.len() == self.conflicts_of(drive_id@).len(),
            forall|i: int|
                0 <= i < v@.len() ==> self.conflicts_of(drive_id@).dom().contains(
                    #[trigger] v@[i].path@,
                ) && self.conflicts_of(drive_id@)[v@[i].path@] == v@[i],
            forall|i: int, j: int| 0 <= i < j < v@.len() ==> v@[i].path@ != v@[j].path@,
    {
        match assoc_find(&self.drives, drive_id) {
            Some(i) => {
                proof {
                    lemma_managers_map_wf(self.drives@, drive_id@);
                }
                self.drives[i].1.list_conflicts()
            },
            None => {
                assert(Map::<Seq<char>, FileConflict>::empty().len() == 0);
                Vec::new()
            },
        }
    }

    /// Resolve the conflict of a path of a drive.
    pub fn resolve_conflict(&mut self, drive_id: &str, path: &str, strategy: ResolutionStrategy) -> (r:
        Option<FileConflict>)
        requires
            old(self).wf(),
        ensures
            final(self).wf(),
            final(self).conflicts_of(drive_id@) == old(self).conflicts_of(drive_id@).remove(path@),
            !old(self).conflicts_of(drive_id@).dom().contains(path@) ==> r is None,
            old(self).conflicts_of(drive_id@).dom().contains(path@) ==> r == Some(
                FileConflict {
                    resolved: true,
                    resolution: Some(strategy),
                    ..old(self).conflicts_of(drive_id@)[path@]
                },
            ),
    {
        let mut m = self.take_drive(drive_id);
        let r = m.resolve_conflict(path, strategy);
        self.put_drive(drive_id, m);
        r
    }

    /// The unresolved conflict of a path of a drive.
    pub fn get_conflict(&self, drive_id: &str, path: &str) -> (r: Option<FileConflict>)
        requires
            self.wf(),
        ensures
            self.conflicts_of(drive_id@).dom().contains(path@) ==> r == Some(
                self.conflicts_of(drive_id@)[path@],
            ),
            !self.conflicts_of(drive_id@).dom().contains(path@) ==> r is None,
    {
        match assoc_find(&self.drives, drive_id) {
            Some(i) => {
                proof {
                    lemma_managers_map_wf(self.drives@, drive_id@);
                }
                self.drives[i].1.get_conflict(path)
            },
            None => None,
        }
    }

    /// The number of unresolved conflicts of a drive.
    pub fn drive_conflict_count(&self, drive_id: &str) -> (n: usize)
        requires
            self.wf(),
        ensures
            n == self.conflicts_of(drive_id@).len(),
    {
        match assoc_find(&self.drives, drive_id) {
            Some(i) => {
                proof {
                    lemma_managers_map_wf(self.drives@, drive_id@);
                }
                self.drives[i].1.conflict_count()
            },
            None => {
                assert(Map::<Seq<char>, FileConflict>::empty().len() == 0);
                0
            },
        }
    }

    /// The resolved conflicts kept for a drive (none for an unknown drive).
    pub open spec fn resolved_of(&self, drive_id: Seq<char>) -> Seq<FileConflict> {
        if self.drives_view().dom().contains(drive_id) {
            self.drives_view()[drive_id].resolved_view()
        } else {
            Seq::empty()
        }
    }

    /// Drop, on every drive, the resolved conflicts detected at or before
    /// `cutoff`; returns how many were dropped in all (capped at
    /// `usize::MAX`).
    pub fn cleanup_old_resolved(&mut self, cutoff: i64) -> (n: usize)
        requires
            old(self).wf(),
        ensures
            final(self).wf(),
            final(self).drives_view().dom() == old(self).drives_view().dom(),
            forall|d: Seq<char>| #[trigger] final(self).conflicts_of(d) == old(self).conflicts_of(d),
            forall|d: Seq<char>|
                #[trigger] final(self).resolved_of(d) == old(self).resolved_of(d).filter(
                    |c: FileConflict| c.detected_at > cutoff,
                ),
            exists|keys: Seq<Seq<char>>|
                keys.no_duplicates() && (forall|d: Seq<char>|
                    keys.contains(d) <==> old(self).drives_view().dom().contains(d)) && n == saturated(
                    sum_over(
                        keys,
                        |d: Seq<char>|
                            (old(self).resolved_of(d).len() - old(self).resolved_of(d).filter(
                                |c: FileConflict| c.detected_at > cutoff,
                            ).len()) as nat,
                    ),
                ),
    {
        let ghost g = |d: Seq<char>|
            (old(self).resolved_of(d).len() - old(self).resolved_of(d).filter(
                |c: FileConflict| c.detected_at > cutoff,
            ).len()) as nat;
        let keys = assoc_key_list(&self.drives);
        let ghost names = keys@.map_values(|x: String| x@);
        proof {
            crate::assoc::lemma_assoc_dom(self.drives@);
        }
        let mut total: usize = 0;
        let mut i: usize = 0;
        assert(names.subrange(0, 0) =~= Seq::<Seq<char>>::empty());
        while i < keys.len()
            invariant
                self.wf(),
                self.drives_view().dom() == old(self).drives_view().dom(),
                names == keys@.map_values(|x: String| x@),
                names.no_duplicates(),
                forall|k: Seq<char>| names.contains(k) <==> old(self).drives_view().dom().contains(k),
                i <= keys@.len(),
                g == (|d: Seq<char>|
                    (old(self).resolved_of(d).len() - old(self).resolved_of(d).filter(
                        |c: FileConflict| c.detected_at > cutoff,
                    ).len()) as nat),
                total == saturated(sum_over(names.subrange(0, i as int), g)),
                forall|d: Seq<char>| #[trigger] self.conflicts_of(d) == old(self).conflicts_of(d),
                forall|d: Seq<char>|
                    #![trigger self.resolved_of(d)]
                    names.subrange(0, i as int).contains(d) ==> self.resolved_of(d) == old(
                        self,
                    ).resolved_of(d).filter(|c: FileConflict| c.detected_at > cutoff),
                forall|d: Seq<char>|
                    #![trigger self.resolved_of(d)]
                    !names.subrange(0, i as int).contains(d) ==> self.resolved_of(d) == old(
                        self,
                    ).resolved_of(d),
            decreases keys@.len() - i,
        {
            let ghost k = names[i as int];
            assert(keys@[i as int]@ == k);
            assert(!names.subrange(0, i as int).contains(k)) by {
                if names.subrange(0, i as int).contains(k) {
                    let j = choose|j: int| 0 <= j < i && names.subrange(0, i as int)[j] == k;
                    assert(names[j] == names[i as int]);
                }
            }
            assert(old(self).drives_view().dom().contains(k)) by {
                assert(names.contains(k));
            }
            let ghost before = *self;
            let mut m = self.take_drive(keys[i].as_str());
            let ghost m0 = m;
            proof {
                assert(before.drives_view().dom().contains(k));
                assert(m0 == before.drives_view()[k]);
                assert(before.resolved_of(k) == old(self).resolved_of(k));
                assert(m0.resolved_view() == old(self).resolved_of(k));
            }
            let c = m.cleanup_old_resolved(cutoff);
            proof {
                assert(c == g(k));
                assert(names.subrange(0, i + 1).drop_last() =~= names.subrange(0, i as int));
                assert(names.subrange(0, i + 1).last() == k);
            }
            total = total.saturating_add(c);
            let ghost m1 = m;
            self.put_drive(keys[i].as_str(), m);
            proof {
                assert(self.drives_view() == before.drives_view().remove(k).insert(k, m1));
                assert(self.drives_view().dom() =~= old(self).drives_view().dom());
                assert(self.resolved_of(k) == m1.resolved_view());
                assert(self.conflicts_of(k) == m1.conflicts_view());
                assert(names.subrange(0, i + 1) =~= names.subrange(0, i as int).push(k));
                assert forall|d: Seq<char>| #[trigger] self.conflicts_of(d) == old(self).conflicts_of(d) by {
                    assert(before.conflicts_of(d) == old(self).conflicts_of(d));
                    if d != k {
                        if before.drives_view().dom().contains(d) {
                            assert(self.drives_view()[d] == before.drives_view()[d]);
                        }
                    }
                }
                assert forall|d: Seq<char>|
                    names.subrange(0, i + 1).contains(d) implies #[trigger] self.resolved_of(d)
                    == old(self).resolved_of(d).filter(|c: FileConflict| c.detected_at > cutoff) by {
                    crate::assoc::lemma_seq_push_contains(names.subrange(0, i as int), k, d);
                    if d != k {
                        assert(before.resolved_of(d) == old(self).resolved_of(d).filter(
                            |c: FileConflict| c.detected_at > cutoff,
                        ));
                        if before.drives_view().dom().contains(d) {
                            assert(self.drives_view()[d] == before.drives_view()[d]);
                        }
                    }
                }
                assert forall|d: Seq<char>|
                    !names.subrange(0, i + 1).contains(d) implies #[trigger] self.resolved_of(d)
                    == old(self).resolved_of(d) by {
                    crate::assoc::lemma_seq_push_contains(names.subrange(0, i as int), k, d);
                    assert(before.resolved_of(d) == old(self).resolved_of(d));
                    if before.drives_view().dom().contains(d) {
                        assert(self.drives_view()[d] == before.drives_view()[d]);
                    }
                }
            }
            i = i + 1;
        }
        proof {
            assert(names.subrange(0, names.len() as int) =~= names);
            assert forall|d: Seq<char>| #[trigger] self.resolved_of(d) == old(self).resolved_of(d).filter(
                |c: FileConflict| c.detected_at > cutoff,
            ) by {
                if !names.contains(d) {
                    assert(Seq::<FileConflict>::empty().filter(
                        |c: FileConflict| c.detected_at > cutoff,
                    ) =~= Seq::<FileConflict>::empty());
                }
            }
        }
        total
    }

    /// The number of unresolved conflicts over all drives.
    pub fn total_conflict_count(&self) -> (n: usize)
        requires
            self.wf(),
        ensures
            n == self.total_view(),
    {
        let mut total: usize = 0;
        let mut i: usize = 0;
        while i < self.drives.len()
            invariant
                self.wf(),
                i <= self.drives@.len(),
                total == conflict_total(self.drives@.subrange(0, i as int)),
            decreases self.drives@.len() - i,
        {
            assert(self.drives@.subrange(0, i + 1).drop_last() =~= self.drives@.subrange(0, i as int));
            assert(self.drives@[i as int].1.wf());
            let c = self.drives[i].1.conflict_count();
            total = total.saturating_add(c);
            i = i + 1;
        }
        assert(self.drives@.subrange(0, self.drives@.len() as int) =~= self.drives@);
        total
    }
}

/// The number of unresolved conflicts over a list of managers, saturating
/// at `usize::MAX`.
pub open spec fn conflict_total(s: Seq<(String, DriveConflictManager)>) -> usize
    decreases s.len(),
{
    if s.len() == 0 {
        0
    } else {
        let t = conflict_total(s.drop_last()) + s.last().1.conflicts_view().len();
        if t > usize::MAX {
            usize::MAX
        } else {
            t as usize
        }
    }
}


/// A request to resolve a conflict.
#[derive(Clone, Debug)]
pub struct ResolveConflictRequest {
    pub drive_id: String,
    pub path: String,
    pub strategy: String,
}

/// Lower-casing as far as it matters for matching ASCII words: ASCII
/// capitals and the Kelvin sign (the one other character whose lower case is
/// an ASCII letter) are lowered; any other character lowers to something
/// that is not ASCII, and is kept.
pub open spec fn word_lower(s: Seq<char>) -> Seq<char> {
    s.map_values(
        |c: char|
            if 'A' <= c && c <= 'Z' {
                ((c as u8) + 32) as char
            } else if c == '\u{212A}' {
                'k'
            } else {
                c
            },
    )
}

/// The strategy a word names, if any (case-insensitive).
pub open spec fn strategy_named(w: Seq<char>) -> Option<ResolutionStrategy> {
    let l = word_lower(w);
    if l == "keeplocal"@ || l == "keep_local"@ || l == "local"@ {
        Some(ResolutionStrategy::KeepLocal)
    } else if l == "keepremote"@ || l == "keep_remote"@ || l == "remote"@ {
        Some(ResolutionStrategy::KeepRemote)
    } else if l == "keepboth"@ || l == "keep_both"@ || l == "both"@ {
        Some(ResolutionStrategy::KeepBoth)
    } else if l == "manualmerge"@ || l == "manual_merge"@ || l == "merge"@ {
        Some(ResolutionStrategy::ManualMerge)
    } else {
        None
    }
}

fn lower_word(s: &[char]) -> (r: Vec<char>)
    ensures
        r@ == word_lower(s@),
{
    let mut r: Vec<char> = Vec::new();
    let mut i: usize = 0;
    while i < s.len()
        invariant
            i <= s@.len(),
            r@ == word_lower(s@.subrange(0, i as int)),
        decreases s@.len() - i,
    {
        let c = s[i];
        let d = if 'A' <= c && c <= 'Z' {
            ((c as u8) + 32) as char
        } else if c == '\u{212A}' {
            'k'
        } else {
            c
        };
        r.push(d);
        i = i + 1;
        assert(r@ =~= word_lower(s@.subrange(0, i as int)));
    }
    assert(s@.subrange(0, s@.len() as int) =~= s@);
    r
}

fn word_is(w: &Vec<char>, s: &str) -> (r: bool)
    ensures
        r == (w@ == s@),
{
    let c = chars_of(s);
    chars_eq(w.as_slice(), c.as_slice())
}

/// Parse a resolution strategy (case-insensitive): `keeplocal`,
/// `keep_local` or `local`, and likewise for remote, both and manual merge;
/// anything else is a validation error naming the word.
pub fn parse_strategy(strategy: &str) -> (r: Result<ResolutionStrategy, String>)
    ensures
        match strategy_named(strategy@) {
            Some(s) => r == Ok::<ResolutionStrategy, String>(s),
            None => r matches Err(m) && m@ == "Validation error: Invalid resolution strategy: "@
                + strategy@ + ". Use: keeplocal, keepremote, keepboth, or manualmerge"@,
        },
{
    let l = lower_word(chars_of(strategy).as_slice());
    if word_is(&l, "keeplocal") || word_is(&l, "keep_local") || word_is(&l, "local") {
        return Ok(ResolutionStrategy::KeepLocal);
    }
    if word_is(&l, "keepremote") || word_is(&l, "keep_remote") || word_is(&l, "remote") {
        return Ok(ResolutionStrategy::KeepRemote);
    }
    if word_is(&l, "keepboth") || word_is(&l, "keep_both") || word_is(&l, "both") {
        return Ok(ResolutionStrategy::KeepBoth);
    }
    if word_is(&l, "manualmerge") || word_is(&l, "manual_merge") || word_is(&l, "merge") {
        return Ok(ResolutionStrategy::ManualMerge);
    }
    let mut m = String::from_str("Invalid resolution strategy: ");
    m.append(strategy);
    m.append(". Use: keeplocal, keepremote, keepboth, or manualmerge");
    let e = crate::error::AppError::ValidationError(m);
    let msg = e.message();
    proof {
        reveal_strlit("Validation error: ");
        reveal_strlit("Invalid resolution strategy: ");
        reveal_strlit("Validation error: Invalid resolution strategy: ");
        reveal_strlit(". Use: keeplocal, keepremote, keepboth, or manualmerge");
    }
    Err(msg)
}

} // verus!
