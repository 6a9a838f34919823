//! Directory listings of a drive: the entries read from disk, the records the
//! frontend is shown, the order they are shown in (directories first, then
//! by name, ignoring case), and the merge of the metadata synced from peers
//! with the files on disk.
use vstd::prelude::*;
use crate::access::clone_opt_string;
use crate::assoc::{assoc_find, assoc_insert, assoc_map, assoc_wf, lemma_assoc_at, lemma_assoc_index};
use crate::docs::FileMetadata;
use crate::primitives::{lowercase_chars, opt_chars, unicode_lowercase};
use crate::security::{rfc3339_or_empty, rfc3339_text};
use crate::text::starts_with;
use vstd::multiset::Multiset;

verus! {

/// A file or directory found on disk.
#[derive(Debug)]
pub struct FileEntry {
    /// File name.
    pub name: String,
    /// Path relative to the drive root.
    pub path: String,
    /// Whether this is a directory.
    pub is_dir: bool,
    /// Size in bytes (0 for directories).
    pub size: u64,
    /// Last modification (Unix milliseconds).
    pub modified_at: i64,
}

/// A listing entry as the frontend sees it.
#[derive(Debug)]
pub struct FileEntryDto {
    pub name: String,
    pub path: String,
    pub is_dir: bool,
    pub size: u64,
    /// Last modification (RFC 3339).
    pub modified_at: String,
    /// BLAKE3 content hash (hex), where synced metadata knows it.
    pub content_hash: Option<String>,
    /// Whether the file is on this machine (else only its metadata is).
    pub is_local: bool,
}

/// The contents of a listing entry.
pub struct EntryView {
    pub name: Seq<char>,
    pub path: Seq<char>,
    pub is_dir: bool,
    pub size: u64,
    pub modified_at: Seq<char>,
    pub content_hash: Option<Seq<char>>,
    pub is_local: bool,
}

impl View for FileEntryDto {
    type V = EntryView;

    open spec fn view(&self) -> EntryView {
        EntryView {
            name: self.name@,
            path: self.path@,
            is_dir: self.is_dir,
            size: self.size,
            modified_at: self.modified_at@,
            content_hash: opt_chars(self.content_hash),
            is_local: self.is_local,
        }
    }
}

/// The record of a file on disk, with the given content hash.
pub open spec fn local_view(e: FileEntry, hash: Option<Seq<char>>) -> EntryView {
    EntryView {
        name: e.name@,
        path: e.path@,
        is_dir: e.is_dir,
        size: e.size,
        modified_at: rfc3339_text(e.modified_at),
        content_hash: hash,
        is_local: true,
    }
}

/// The record of a file known from synced metadata only.
pub open spec fn remote_view(m: FileMetadata) -> EntryView {
    EntryView {
        name: m.name@,
        path: m.path@,
        is_dir: m.is_dir,
        size: m.size,
        modified_at: m.modified_at@,
        content_hash: opt_chars(m.content_hash),
        is_local: false,
    }
}

impl FileEntryDto {
    /// The record of a file on disk (no content hash known yet).
    pub fn from_entry(entry: &FileEntry) -> (d: FileEntryDto)
        ensures
            d@ == local_view(*entry, None),
    {
        FileEntryDto {
            name: entry.name.clone(),
            path: entry.path.clone(),
            is_dir: entry.is_dir,
            size: entry.size,
            modified_at: rfc3339_or_empty(entry.modified_at),
            content_hash: None,
            is_local: true,
        }
    }

    /// The record of a file known from synced metadata only.
    pub fn from_metadata(
        name: String,
        path: String,
        is_dir: bool,
        size: u64,
        modified_at: String,
        content_hash: Option<String>,
    ) -> (d: FileEntryDto)
        ensures
            d.name == name,
            d.path == path,
            d.is_dir == is_dir,
            d.size == size,
            d.modified_at == modified_at,
            d.content_hash == content_hash,
            !d.is_local,
    {
        FileEntryDto { name, path, is_dir, size, modified_at, content_hash, is_local: false }
    }
}

/// Lexicographic order of strings by code point (the order of `str`, whose
/// UTF-8 bytes compare in the same order).
pub open spec fn chars_lt(a: Seq<char>, b: Seq<char>) -> bool
    decreases a.len(),
{
    if a.len() == 0 {
        b.len() > 0
    } else if b.len() == 0 {
        false
    } else if a[0] != b[0] {
        (a[0] as u32) < (b[0] as u32)
    } else {
        chars_lt(a.drop_first(), b.drop_first())
    }
}

/// Strict order of listing keys (is a directory, lower-cased name):
/// directories come first, then names in order.
pub open spec fn key_lt(a: (bool, Seq<char>), b: (bool, Seq<char>)) -> bool {
    (a.0 && !b.0) || (a.0 == b.0 && chars_lt(a.1, b.1))
}

/// The sort key of a disk entry.
pub open spec fn entry_key(e: FileEntry) -> (bool, Seq<char>) {
    (e.is_dir, unicode_lowercase(e.name@))
}

/// The sort key of a listing record.
pub open spec fn dto_key(d: FileEntryDto) -> (bool, Seq<char>) {
    (d.is_dir, unicode_lowercase(d.name@))
}

/// Disk entries in listing order.
pub open spec fn entries_sorted(s: Seq<FileEntry>) -> bool {
    forall|i: int, j: int| 0 <= i < j < s.len() ==> !key_lt(entry_key(s[j]), entry_key(s[i]))
}

/// Listing records in listing order.
pub open spec fn listing_sorted(s: Seq<FileEntryDto>) -> bool {
    forall|i: int, j: int| 0 <= i < j < s.len() ==> !key_lt(dto_key(s[j]), dto_key(s[i]))
}

proof fn lemma_chars_lt_irreflexive(a: Seq<char>)
    ensures
        !chars_lt(a, a),
    decreases a.len(),
{
    if a.len() > 0 {
        lemma_chars_lt_irreflexive(a.drop_first());
    }
}

proof fn lemma_chars_lt_transitive(a: Seq<char>, b: Seq<char>, c: Seq<char>)
    requires
        chars_lt(a, b),
        chars_lt(b, c),
    ensures
        chars_lt(a, c),
    decreases a.len(),
{
    if a.len() > 0 && b.len() > 0 && c.len() > 0 && a[0] == b[0] && b[0] == c[0] {
        lemma_chars_lt_transitive(a.drop_first(), b.drop_first(), c.drop_first());
    }
}

proof fn lemma_key_lt_transitive(a: (bool, Seq<char>), b: (bool, Seq<char>), c: (bool, Seq<char>))
    requires
        key_lt(a, b),
        key_lt(b, c),
    ensures
        key_lt(a, c),
{
    if a.0 == b.0 && b.0 == c.0 {
        lemma_chars_lt_transitive(a.1, b.1, c.1);
    }
}

proof fn lemma_key_lt_irreflexive(a: (bool, Seq<char>))
    ensures
        !key_lt(a, a),
{
    lemma_chars_lt_irreflexive(a.1);
}

/// Compare two strings by code point (see `chars_lt`).
fn chars_less(a: &[char], b: &[char]) -> (r: bool)
    ensures
        r == chars_lt(a@, b@),
{
    let mut i: usize = 0;
    assert(a@.skip(0) =~= a@);
    assert(b@.skip(0) =~= b@);
    while i < a.len() && i < b.len()
        invariant
            i <= a@.len(),
            i <= b@.len(),
            chars_lt(a@, b@) == chars_lt(a@.skip(i as int), b@.skip(i as int)),
        decreases a@.len() - i,
    {
        assert(a@.skip(i as int).drop_first() =~= a@.skip(i + 1));
        assert(b@.skip(i as int).drop_first() =~= b@.skip(i + 1));
        assert(a@.skip(i as int)[0] == a@[i as int]);
        assert(b@.skip(i as int)[0] == b@[i as int]);
        if a[i] != b[i] {
            return (a[i] as u32) < (b[i] as u32);
        }
        i = i + 1;
    }
    assert(a@.skip(i as int).len() == a@.len() - i);
    assert(b@.skip(i as int).len() == b@.len() - i);
    a.len() < b.len()
}

/// Compare two listing keys (see `key_lt`).
fn key_less(a_dir: bool, a_key: &[char], b_dir: bool, b_key: &[char]) -> (r: bool)
    ensures
        r == key_lt((a_dir, a_key@), (b_dir, b_key@)),
{
    if a_dir && !b_dir {
        true
    } else if a_dir == b_dir {
        chars_less(a_key, b_key)
    } else {
        false
    }
}

/// Sort items by their keys, given beside them, in listing order (a
/// selection sort that takes the first smallest item each round, so equal
/// keys keep their order).
fn sort_by_listing_key<T>(
    items: Vec<T>,
    dirs: Vec<bool>,
    keys: Vec<Vec<char>>,
    Ghost(kf): Ghost<spec_fn(T) -> (bool, Seq<char>)>,
) -> (r: Vec<T>)
    requires
        items@.len() == dirs@.len(),
        items@.len() == keys@.len(),
        forall|i: int| 0 <= i < items@.len() ==> #[trigger] kf(items@[i]) == (dirs@[i], keys@[i]@),
    ensures
        r@.to_multiset() == items@.to_multiset(),
        forall|i: int, j: int| 0 <= i < j < r@.len() ==> !key_lt(kf(r@[j]), kf(r@[i])),
{
    broadcast use vstd::seq_lib::group_to_multiset_ensures, vstd::multiset::group_multiset_axioms;

    let ghost orig = items@;
    let mut rest = items;
    let mut rdirs = dirs;
    let mut rkeys = keys;
    let mut out: Vec<T> = Vec::new();
    assert(out@.to_multiset().add(rest@.to_multiset()) =~= orig.to_multiset());
    while rest.len() > 0
        invariant
            rest@.len() == rdirs@.len(),
            rest@.len() == rkeys@.len(),
            forall|i: int| 0 <= i < rest@.len() ==> #[trigger] kf(rest@[i]) == (rdirs@[i], rkeys@[i]@),
            out@.to_multiset().add(rest@.to_multiset()) == orig.to_multiset(),
            forall|i: int, j: int| 0 <= i < j < out@.len() ==> !key_lt(kf(out@[j]), kf(out@[i])),
            forall|i: int, j: int|
                0 <= i < out@.len() && 0 <= j < rest@.len() ==> !key_lt(
                    #[trigger] kf(rest@[j]),
                    #[trigger] kf(out@[i]),
                ),
        decreases rest@.len(),
    {
        let mut m: usize = 0;
        let mut j: usize = 1;
        proof {
            lemma_key_lt_irreflexive(kf(rest@[0]));
        }
        while j < rest.len()
            invariant
                rest@.len() == rdirs@.len(),
                rest@.len() == rkeys@.len(),
                forall|i: int| 0 <= i < rest@.len() ==> #[trigger] kf(rest@[i]) == (rdirs@[i], rkeys@[i]@),
                m < j <= rest@.len(),
                forall|k: int| 0 <= k < j ==> !key_lt(#[trigger] kf(rest@[k]), kf(rest@[m as int])),
            decreases rest@.len() - j,
        {
            assert(kf(rest@[j as int]) == (rdirs@[j as int], rkeys@[j as int]@));
            assert(kf(rest@[m as int]) == (rdirs@[m as int], rkeys@[m as int]@));
            if key_less(rdirs[j], rkeys[j].as_slice(), rdirs[m], rkeys[m].as_slice()) {
                proof {
                    let old_m = m as int;
                    assert forall|k: int| 0 <= k < j + 1 implies !key_lt(
                        #[trigger] kf(rest@[k]),
                        kf(rest@[j as int]),
                    ) by {
                        if k == j {
                            lemma_key_lt_irreflexive(kf(rest@[j as int]));
                        } else if key_lt(kf(rest@[k]), kf(rest@[j as int])) {
                            lemma_key_lt_transitive(
                                kf(rest@[k]),
                                kf(rest@[j as int]),
                                kf(rest@[old_m]),
                            );
                        }
                    }
                }
                m = j;
            }
            j = j + 1;
        }
        let ghost before = rest@;
        let ghost out_before = out@;
        let ghost x = rest@[m as int];
        let ghost dbefore = rdirs@;
        let ghost kbefore = rkeys@;
        let item = rest.remove(m);
        rdirs.remove(m);
        rkeys.remove(m);
        out.push(item);
        proof {
            assert(rest@ == before.remove(m as int));
            assert(before.contains(x));
            assert(out@ == out_before.push(x));
            vstd::seq_lib::to_multiset_build(out_before, x);
            vstd::seq_lib::to_multiset_remove(before, m as int);
            vstd::seq_lib::to_multiset_contains(before, x);
            assert forall|y: T|
                #[trigger] out@.to_multiset().add(rest@.to_multiset()).count(y)
                    == out_before.to_multiset().add(before.to_multiset()).count(y) by {
                broadcast use vstd::multiset::group_multiset_axioms;
            }
            assert(out@.to_multiset().add(rest@.to_multiset()) =~= out_before.to_multiset().add(
                before.to_multiset(),
            ));
            assert forall|i: int| 0 <= i < rest@.len() implies #[trigger] kf(rest@[i]) == (
            rdirs@[i], rkeys@[i]@) by {
                let i2 = if i < m { i } else { i + 1 };
                assert(rest@[i] == before[i2]);
                assert(rdirs@[i] == dbefore[i2]);
                assert(rkeys@[i] == kbefore[i2]);
                assert(kf(before[i2]) == (dbefore[i2], kbefore[i2]@));
            }
            assert forall|i: int, j2: int| 0 <= i < j2 < out@.len() implies !key_lt(
                kf(out@[j2]),
                kf(out@[i]),
            ) by {
                if j2 == out@.len() - 1 {
                    assert(out@[j2] == before[m as int]);
                    assert(out@[i] == out_before[i]);
                    assert(!key_lt(kf(before[m as int]), kf(out_before[i])));
                } else {
                    assert(out@[j2] == out_before[j2]);
                    assert(out@[i] == out_before[i]);
                }
            }
            assert forall|i: int, j2: int|
                0 <= i < out@.len() && 0 <= j2 < rest@.len() implies !key_lt(
                #[trigger] kf(rest@[j2]),
                #[trigger] kf(out@[i]),
            ) by {
                let j3 = if j2 < m { j2 } else { j2 + 1 };
                assert(rest@[j2] == before[j3]);
                if i == out@.len() - 1 {
                    assert(out@[i] == before[m as int]);
                    assert(!key_lt(kf(before[j3]), kf(before[m as int])));
                } else {
                    assert(out@[i] == out_before[i]);
                    assert(!key_lt(kf(before[j3]), kf(out_before[i])));
                }
            }
        }
    }
    assert(rest@.to_multiset() =~= Multiset::<T>::empty());
    assert(out@.to_multiset().add(rest@.to_multiset()) =~= out@.to_multiset());
    out
}

/// Disk entries in listing order: directories first, then by name ignoring
/// case; entries with equal keys keep their order.
pub fn sort_entries(entries: Vec<FileEntry>) -> (r: Vec<FileEntry>)
    ensures
        r@.to_multiset() == entries@.to_multiset(),
        entries_sorted(r@),
{
    let mut dirs: Vec<bool> = Vec::new();
    let mut keys: Vec<Vec<char>> = Vec::new();
    let mut i: usize = 0;
    while i < entries.len()
        invariant
            i <= entries@.len(),
            dirs@.len() == i,
            keys@.len() == i,
            forall|k: int| 0 <= k < i ==> #[trigger] entry_key(entries@[k]) == (dirs@[k], keys@[k]@),
        decreases entries@.len() - i,
    {
        dirs.push(entries[i].is_dir);
        keys.push(lowercase_chars(entries[i].name.as_str()));
        i = i + 1;
    }
    let ghost kf = |e: FileEntry| entry_key(e);
    let r = sort_by_listing_key(entries, dirs, keys, Ghost(kf));
    assert forall|a: int, b: int| 0 <= a < b < r@.len() implies !key_lt(
        entry_key(r@[b]),
        entry_key(r@[a]),
    ) by {
        assert(!key_lt(kf(r@[b]), kf(r@[a])));
    }
    r
}

/// Listing records in listing order: directories first, then by name
/// ignoring case; records with equal keys keep their order.
pub fn sort_listing(items: Vec<FileEntryDto>) -> (r: Vec<FileEntryDto>)
    ensures
        r@.to_multiset() == items@.to_multiset(),
        listing_sorted(r@),
{
    let mut dirs: Vec<bool> = Vec::new();
    let mut keys: Vec<Vec<char>> = Vec::new();
    let mut i: usize = 0;
    while i < items.len()
        invariant
            i <= items@.len(),
            dirs@.len() == i,
            keys@.len() == i,
            forall|k: int| 0 <= k < i ==> #[trigger] dto_key(items@[k]) == (dirs@[k], keys@[k]@),
        decreases items@.len() - i,
    {
        dirs.push(items[i].is_dir);
        keys.push(lowercase_chars(items[i].name.as_str()));
        i = i + 1;
    }
    let ghost kf = |d: FileEntryDto| dto_key(d);
    let r = sort_by_listing_key(items, dirs, keys, Ghost(kf));
    assert forall|a: int, b: int| 0 <= a < b < r@.len() implies !key_lt(
        dto_key(r@[b]),
        dto_key(r@[a]),
    ) by {
        assert(!key_lt(kf(r@[b]), kf(r@[a])));
    }
    r
}

/// The records of the synced metadata, a later record of a path replacing an
/// earlier one.
pub open spec fn remote_listing(remote: Seq<FileMetadata>) -> Map<Seq<char>, EntryView>
    decreases remote.len(),
{
    if remote.len() == 0 {
        Map::empty()
    } else {
        remote_listing(remote.drop_last()).insert(remote.last().path@, remote_view(remote.last()))
    }
}

/// The content hash a listing knows for a path.
pub open spec fn known_hash(m: Map<Seq<char>, EntryView>, path: Seq<char>) -> Option<Seq<char>> {
    if m.dom().contains(path) {
        m[path].content_hash
    } else {
        None
    }
}

/// The merged listing: the synced records, then the files on disk, each
/// replacing the record of its path and keeping the content hash that
/// record knew.
pub open spec fn merged_listing(remote: Seq<FileMetadata>, local: Seq<FileEntry>) -> Map<
    Seq<char>,
    EntryView,
>
    decreases local.len(),
{
    if local.len() == 0 {
        remote_listing(remote)
    } else {
        let m = merged_listing(remote, local.drop_last());
        m.insert(local.last().path@, local_view(local.last(), known_hash(m, local.last().path@)))
    }
}

/// A sequence of records holds exactly the records of a listing, one per
/// path.
pub open spec fn listing_of(s: Seq<FileEntryDto>, m: Map<Seq<char>, EntryView>) -> bool {
    &&& forall|i: int|
        0 <= i < s.len() ==> m.dom().contains(#[trigger] s[i].path@) && s[i]@ == m[s[i].path@]
    &&& forall|i: int, j: int| 0 <= i < j < s.len() ==> s[i].path@ != s[j].path@
    &&& forall|p: Seq<char>|
        m.dom().contains(p) ==> exists|i: int| 0 <= i < s.len() && #[trigger] s[i].path@ == p
}

/// A path-keyed association list of records mirrors a listing.
spec fn mirrors(s: Seq<(String, FileEntryDto)>, m: Map<Seq<char>, EntryView>) -> bool {
    &&& assoc_wf(s)
    &&& forall|j: int| 0 <= j < s.len() ==> (#[trigger] s[j]).1.path@ == s[j].0@
    &&& forall|p: Seq<char>| #[trigger] assoc_map(s).dom().contains(p) <==> m.dom().contains(p)
    &&& forall|p: Seq<char>|
        assoc_map(s).dom().contains(p) ==> (#[trigger] assoc_map(s)[p])@ == m[p]
}

/// Put a record under its path, replacing the one there.
fn put_record(s: &mut Vec<(String, FileEntryDto)>, d: FileEntryDto, Ghost(m): Ghost<Map<Seq<char>, EntryView>>)
    requires
        mirrors(old(s)@, m),
    ensures
        mirrors(final(s)@, m.insert(d.path@, d@)),
{
    let ghost dv = d;
    let key = d.path.clone();
    assoc_insert(s, key.as_str(), d);
    proof {
        let m2 = m.insert(dv.path@, dv@);
        assert forall|j: int| 0 <= j < s@.len() implies (#[trigger] s@[j]).1.path@ == s@[j].0@ by {
            if old(s)@.contains(s@[j]) {
                let k = choose|k: int| 0 <= k < old(s)@.len() && old(s)@[k] == s@[j];
                assert(old(s)@[k].1.path@ == old(s)@[k].0@);
            }
        }
        assert forall|p: Seq<char>| #[trigger]
            assoc_map(s@).dom().contains(p) <==> m2.dom().contains(p) by {}
        assert forall|p: Seq<char>| assoc_map(s@).dom().contains(p) implies (
        #[trigger] assoc_map(s@)[p])@ == m2[p] by {
            if p != dv.path@ {
                assert(assoc_map(old(s)@).dom().contains(p));
                assert(assoc_map(old(s)@)[p]@ == m[p]);
            }
        }
    }
}

/// Records read off a mirroring association list form its listing.
proof fn lemma_mirror_listing(s: Seq<(String, FileEntryDto)>, m: Map<Seq<char>, EntryView>, v: Seq<FileEntryDto>)
    requires
        mirrors(s, m),
        v.len() == s.len(),
        forall|k: int| 0 <= k < v.len() ==> #[trigger] v[k] == s[s.len() - 1 - k].1,
    ensures
        listing_of(v, m),
{
    assert forall|i: int| 0 <= i < v.len() implies m.dom().contains(#[trigger] v[i].path@) && v[i]@
        == m[v[i].path@] by {
        let j = s.len() - 1 - i;
        assert(v[i] == s[j].1);
        assert(s[j].1.path@ == s[j].0@);
        lemma_assoc_at(s, j);
    }
    assert forall|i: int, j: int| 0 <= i < j < v.len() implies v[i].path@ != v[j].path@ by {
        let a = s.len() - 1 - i;
        let b = s.len() - 1 - j;
        assert(v[i] == s[a].1);
        assert(v[j] == s[b].1);
        assert(s[a].1.path@ == s[a].0@);
        assert(s[b].1.path@ == s[b].0@);
        assert(crate::assoc::assoc_keys(s)[a] == s[a].0@);
        assert(crate::assoc::assoc_keys(s)[b] == s[b].0@);
    }
    assert forall|p: Seq<char>| m.dom().contains(p) implies exists|i: int|
        0 <= i < v.len() && #[trigger] v[i].path@ == p by {
        assert(assoc_map(s).dom().contains(p));
        let j = lemma_assoc_index(s, p);
        let i = s.len() - 1 - j;
        assert(v[i] == s[j].1);
        assert(s[j].1.path@ == s[j].0@);
    }
}

/// A reordering of a listing is that listing.
proof fn lemma_listing_reordered(v: Seq<FileEntryDto>, r: Seq<FileEntryDto>, m: Map<Seq<char>, EntryView>)
    requires
        listing_of(v, m),
        r.to_multiset() == v.to_multiset(),
    ensures
        listing_of(r, m),
{
    broadcast use vstd::seq_lib::group_to_multiset_ensures;

    assert forall|i: int| 0 <= i < r.len() implies m.dom().contains(#[trigger] r[i].path@) && r[i]@
        == m[r[i].path@] by {
        assert(r.contains(r[i]));
        assert(r.to_multiset().count(r[i]) > 0);
        assert(v.to_multiset().count(r[i]) > 0);
        let j = choose|j: int| 0 <= j < v.len() && v[j] == r[i];
        assert(m.dom().contains(v[j].path@));
    }
    assert forall|p: Seq<char>| m.dom().contains(p) implies exists|i: int|
        0 <= i < r.len() && #[trigger] r[i].path@ == p by {
        let j = choose|j: int| 0 <= j < v.len() && #[trigger] v[j].path@ == p;
        assert(v.contains(v[j]));
        assert(v.to_multiset().count(v[j]) > 0);
        assert(r.to_multiset().count(v[j]) > 0);
        let i = choose|i: int| 0 <= i < r.len() && r[i] == v[j];
        assert(r[i].path@ == p);
    }
    assert(v.no_duplicates()) by {
        assert forall|a: int, b: int| 0 <= a < v.len() && 0 <= b < v.len() && a != b implies v[a]
            != v[b] by {
            if a < b {
                assert(v[a].path@ != v[b].path@);
            } else {
                assert(v[b].path@ != v[a].path@);
            }
        }
    }
    v.lemma_multiset_has_no_duplicates();
    r.lemma_multiset_has_no_duplicates_conv();
    assert forall|i: int, j: int| 0 <= i < j < r.len() implies r[i].path@ != r[j].path@ by {
        if r[i].path@ == r[j].path@ {
            assert(r.contains(r[i]));
            assert(r.to_multiset().count(r[i]) > 0);
            assert(v.to_multiset().count(r[i]) > 0);
            let a = choose|a: int| 0 <= a < v.len() && v[a] == r[i];
            assert(r.contains(r[j]));
            assert(r.to_multiset().count(r[j]) > 0);
            assert(v.to_multiset().count(r[j]) > 0);
            let b = choose|b: int| 0 <= b < v.len() && v[b] == r[j];
            if a < b {
                assert(v[a].path@ != v[b].path@);
            } else if b < a {
                assert(v[b].path@ != v[a].path@);
            }
            assert(r[i] == r[j]);
        }
    }
}

/// The merged listing of a drive directory: the records of the metadata
/// synced from peers (not on this machine), then the files on disk (on this
/// machine), each replacing the record of its path and keeping the content
/// hash that record knew; one record per path, in listing order.
pub fn merge_listing(remote: &[FileMetadata], local: &[FileEntry]) -> (r: Vec<FileEntryDto>)
    ensures
        listing_sorted(r@),
        listing_of(r@, merged_listing(remote@, local@)),
{
    let mut s: Vec<(String, FileEntryDto)> = Vec::new();
    assert(assoc_map(s@) =~= Map::<Seq<char>, FileEntryDto>::empty());
    assert(remote_listing(remote@.subrange(0, 0)) =~= Map::<Seq<char>, EntryView>::empty());
    let mut i: usize = 0;
    while i < remote.len()
        invariant
            i <= remote@.len(),
            mirrors(s@, remote_listing(remote@.subrange(0, i as int))),
        decreases remote@.len() - i,
    {
        let meta = &remote[i];
        let d = FileEntryDto::from_metadata(
            meta.name.clone(),
            meta.path.clone(),
            meta.is_dir,
            meta.size,
            meta.modified_at.clone(),
            clone_opt_string(&meta.content_hash),
        );
        assert(d@ == remote_view(remote@[i as int]));
        put_record(&mut s, d, Ghost(remote_listing(remote@.subrange(0, i as int))));
        assert(remote@.subrange(0, i + 1).drop_last() =~= remote@.subrange(0, i as int));
        i = i + 1;
    }
    assert(remote@.subrange(0, remote@.len() as int) =~= remote@);
    assert(local@.subrange(0, 0) =~= Seq::<FileEntry>::empty());
    let mut k: usize = 0;
    while k < local.len()
        invariant
            k <= local@.len(),
            mirrors(s@, merged_listing(remote@, local@.subrange(0, k as int))),
        decreases local@.len() - k,
    {
        let ghost m = merged_listing(remote@, local@.subrange(0, k as int));
        let e = &local[k];
        let mut d = FileEntryDto::from_entry(e);
        match assoc_find(&s, e.path.as_str()) {
            Some(j) => {
                d.content_hash = clone_opt_string(&s[j].1.content_hash);
            },
            None => {},
        }
        assert(d@ == local_view(local@[k as int], known_hash(m, local@[k as int].path@)));
        put_record(&mut s, d, Ghost(m));
        assert(local@.subrange(0, k + 1).drop_last() =~= local@.subrange(0, k as int));
        k = k + 1;
    }
    assert(local@.subrange(0, local@.len() as int) =~= local@);
    let ghost s0 = s@;
    let ghost m = merged_listing(remote@, local@);
    let mut items: Vec<FileEntryDto> = Vec::new();
    while s.len() > 0
        invariant
            s@ == s0.subrange(0, s@.len() as int),
            s@.len() <= s0.len(),
            items@.len() + s@.len() == s0.len(),
            forall|j: int| 0 <= j < items@.len() ==> #[trigger] items@[j] == s0[s0.len() - 1 - j].1,
        decreases s@.len(),
    {
        let ghost n = s@.len();
        match s.pop() {
            Some(entry) => {
                let (_, d) = entry;
                items.push(d);
                assert(s@ =~= s0.subrange(0, s@.len() as int));
            },
            None => {},
        }
    }
    proof {
        lemma_mirror_listing(s0, m, items@);
    }
    let r = sort_listing(items);
    proof {
        lemma_listing_reordered(items@, r@, m);
    }
    r
}

/// Whether a name is hidden (starts with `.`); hidden entries are left out
/// of directory listings.
pub fn is_hidden_name(name: &str) -> (r: bool)
    ensures
        r == starts_with(name@, "."@),
{
    proof {
        reveal_strlit(".");
    }
    if name.unicode_len() == 0 {
        return false;
    }
    let c = name.get_char(0);
    assert(c == '.' ==> name@.subrange(0, 1) =~= "."@);
    assert(name@.subrange(0, 1)[0] == c);
    c == '.'
}

/// The names a recursive index of a drive skips: hidden names and common
/// build and dependency directories.
pub open spec fn index_skips(name: Seq<char>) -> bool {
    ||| starts_with(name, "."@)
    ||| name == "node_modules"@
    ||| name == "target"@
    ||| name == "__pycache__"@
}

/// Whether a recursive index of a drive takes in an entry of this name.
pub fn is_indexed_name(name: &str) -> (r: bool)
    ensures
        r == !index_skips(name@),
{
    let hidden = is_hidden_name(name);
    let c = crate::text::chars_of(name);
    let a = crate::text::chars_of("node_modules");
    let b = crate::text::chars_of("target");
    let p = crate::text::chars_of("__pycache__");
    !(hidden || crate::text::chars_eq(c.as_slice(), a.as_slice()) || crate::text::chars_eq(
        c.as_slice(),
        b.as_slice(),
    ) || crate::text::chars_eq(c.as_slice(), p.as_slice()))
}

/// The directory of a drive a listing reads, relative to the root: `None`
/// for the root itself (an empty path or `/`), else the path without its
/// leading slashes.
pub fn listing_subpath(subpath: &str) -> (r: Option<String>)
    ensures
        (subpath@.len() == 0 || subpath@ == "/"@) ==> r is None,
        !(subpath@.len() == 0 || subpath@ == "/"@) ==> (r matches Some(p) && p@
            == crate::text::trim_start_char(subpath@, '/')),
{
    proof {
        reveal_strlit("/");
    }
    let c = crate::text::chars_of(subpath);
    if c.len() == 0 || (c.len() == 1 && c[0] == '/') {
        assert(c@.len() == 1 && c@[0] == '/' ==> c@ =~= "/"@);
        return None;
    }
    assert(subpath@ == "/"@ ==> c@.len() == 1 && c@[0] == '/');
    let t = crate::text::trim_start_matches(c.as_slice(), '/');
    Some(crate::text::string_from_chars(t.as_slice()))
}

} // verus!
