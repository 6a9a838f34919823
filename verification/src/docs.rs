//! File metadata kept in a drive's shared document, and the keys it is kept
//! under (`file:` followed by the path).
use vstd::prelude::*;
use crate::bytes::sub_bytes;
use crate::primitives::string_from_utf8;
use crate::text::{chars_of, contains_char, has_prefix, slice_chars, starts_with, trim_start_char, trim_start_matches};

verus! {

/// Metadata of a file or directory of a drive.
#[derive(Debug)]
pub struct FileMetadata {
    /// File name.
    pub name: String,
    /// Path relative to the drive root.
    pub path: String,
    /// Whether it is a directory.
    pub is_dir: bool,
    /// Size in bytes.
    pub size: u64,
    /// Modification time (RFC 3339).
    pub modified_at: String,
    /// BLAKE3 content hash (hex), if known.
    pub content_hash: Option<String>,
    /// Version, for conflict resolution.
    pub version: u64,
}

/// The prefix of metadata keys.
pub open spec fn doc_key_prefix() -> Seq<char> {
    "file:"@
}

impl FileMetadata {
    /// Metadata of version 1, without content hash.
    pub fn new(path: &str, name: &str, is_dir: bool, size: u64, modified_at: &str) -> (m: FileMetadata)
        ensures
            m.name@ == name@,
            m.path@ == path@,
            m.is_dir == is_dir,
            m.size == size,
            m.modified_at@ == modified_at@,
            m.content_hash is None,
            m.version == 1,
    {
        FileMetadata {
            name: String::from_str(name),
            path: String::from_str(path),
            is_dir,
            size,
            modified_at: String::from_str(modified_at),
            content_hash: None,
            version: 1,
        }
    }

    /// Metadata of version 1, with a content hash.
    pub fn with_hash(
        path: &str,
        name: &str,
        is_dir: bool,
        size: u64,
        modified_at: &str,
        hash: String,
    ) -> (m: FileMetadata)
        ensures
            m.name@ == name@,
            m.path@ == path@,
            m.is_dir == is_dir,
            m.size == size,
            m.modified_at@ == modified_at@,
            m.content_hash == Some(hash),
            m.version == 1,
    {
        FileMetadata {
            name: String::from_str(name),
            path: String::from_str(path),
            is_dir,
            size,
            modified_at: String::from_str(modified_at),
            content_hash: Some(hash),
            version: 1,
        }
    }

    /// The key of this entry: the UTF-8 bytes of `file:` and the path.
    pub fn doc_key(&self) -> (k: Vec<u8>)
        ensures
            k@ == vstd::utf8::encode_utf8(doc_key_prefix() + self.path@),
    {
        let mut s = String::from_str("file:");
        s.append(self.path.as_str());
        proof {
            reveal_strlit("file:");
        }
        let b = s.as_str().as_bytes();
        sub_bytes(b, 0, b.len())
    }
}

/// The path a metadata key names: the key must be UTF-8 and start with
/// `file:`.
pub open spec fn key_path(key: Seq<u8>) -> Option<Seq<char>> {
    if vstd::utf8::valid_utf8(key) {
        let s = vstd::utf8::decode_utf8(key);
        if s.len() >= 5 && s.subrange(0, 5) == doc_key_prefix() {
            Some(s.subrange(5, s.len() as int))
        } else {
            None
        }
    } else {
        None
    }
}

/// The path a metadata key names (see `key_path`).
pub fn path_from_key(key: &[u8]) -> (r: Option<String>)
    ensures
        crate::primitives::opt_chars(r) == key_path(key@),
{
    let v = sub_bytes(key, 0, key.len());
    assert(v@ =~= key@);
    let s = match string_from_utf8(v) {
        Some(s) => s,
        None => return None,
    };
    let cs = crate::text::chars_of(s.as_str());
    let prefix: Vec<char> = vec!['f', 'i', 'l', 'e', ':'];
    proof {
        reveal_strlit("file:");
    }
    assert(prefix@ =~= doc_key_prefix());
    if !crate::text::has_prefix(cs.as_slice(), prefix.as_slice()) {
        return None;
    }
    let rest = crate::text::slice_chars(cs.as_slice(), 5, cs.len());
    assert(cs@.subrange(0, 5) =~= doc_key_prefix());
    Some(crate::text::string_from_chars(rest.as_slice()))
}

/// A metadata key names back the path it was made of.
pub proof fn law_doc_key_roundtrip(path: Seq<char>)
    ensures
        key_path(vstd::utf8::encode_utf8(doc_key_prefix() + path)) == Some(path),
{
    let s = doc_key_prefix() + path;
    vstd::utf8::encode_utf8_valid_utf8(s);
    vstd::utf8::encode_utf8_decode_utf8(s);
    reveal_strlit("file:");
    assert(s.subrange(0, 5) =~= doc_key_prefix());
    assert(s.subrange(5, s.len() as int) =~= path);
}


/// The directory a metadata query reads: none (the root) for an empty path
/// or `/`, else the path without its leading slashes.
pub open spec fn query_dir(dir_path: Seq<char>) -> Seq<char> {
    if dir_path.len() == 0 || dir_path == seq!['/'] {
        Seq::empty()
    } else {
        trim_start_char(dir_path, '/')
    }
}

/// Whether metadata of `meta_path` lies directly in the queried directory:
/// at the root, a path (without leading slashes) with no `/`; elsewhere, a
/// path that starts with the directory's text and goes on (after any
/// slashes) with a name that has no `/`.
pub open spec fn in_directory(meta_path: Seq<char>, dir_path: Seq<char>) -> bool {
    let m = trim_start_char(meta_path, '/');
    let d = query_dir(dir_path);
    if d.len() == 0 {
        !m.contains('/')
    } else if starts_with(m, d) {
        let rest = trim_start_char(m.skip(d.len() as int), '/');
        rest.len() > 0 && !rest.contains('/')
    } else {
        false
    }
}

/// The metadata of a list that lies directly in a directory, in order.
pub open spec fn directory_entries(all: Seq<FileMetadata>, dir_path: Seq<char>) -> Seq<FileMetadata>
    decreases all.len(),
{
    if all.len() == 0 {
        Seq::empty()
    } else {
        let r = directory_entries(all.drop_last(), dir_path);
        if in_directory(all.last().path@, dir_path) {
            r.push(all.last())
        } else {
            r
        }
    }
}

fn lies_in(meta_path: &str, dir: &Vec<char>, dir_path: &str) -> (r: bool)
    requires
        dir@ == query_dir(dir_path@),
    ensures
        r == in_directory(meta_path@, dir_path@),
{
    let m = trim_start_matches(chars_of(meta_path).as_slice(), '/');
    if dir.len() == 0 {
        return !contains_char(m.as_slice(), '/');
    }
    if !has_prefix(m.as_slice(), dir.as_slice()) {
        return false;
    }
    let tail = slice_chars(m.as_slice(), dir.len(), m.len());
    assert(tail@ =~= m@.skip(dir@.len() as int));
    let rest = trim_start_matches(tail.as_slice(), '/');
    rest.len() > 0 && !contains_char(rest.as_slice(), '/')
}

/// The metadata of a list that lies directly in a directory (see
/// `in_directory`), in order.
pub fn directory_metadata(all: Vec<FileMetadata>, dir_path: &str) -> (r: Vec<FileMetadata>)
    ensures
        r@ == directory_entries(all@, dir_path@),
{
    let c = chars_of(dir_path);
    let dir = if c.len() == 0 || (c.len() == 1 && c[0] == '/') {
        assert(c@.len() == 1 && c@[0] == '/' ==> c@ =~= seq!['/']);
        Vec::new()
    } else {
        assert(c@ != seq!['/']);
        trim_start_matches(c.as_slice(), '/')
    };
    assert(dir@ == query_dir(dir_path@));
    let mut out: Vec<FileMetadata> = Vec::new();
    let mut rest = all;
    let ghost whole = rest@;
    let mut i: usize = 0;
    let n = rest.len();
    while i < n
        invariant
            n == whole.len(),
            i <= n,
            rest@ == whole.skip(i as int),
            dir@ == query_dir(dir_path@),
            out@ == directory_entries(whole.subrange(0, i as int), dir_path@),
        decreases n - i,
    {
        let m = rest.remove(0);
        assert(m == whole[i as int]);
        assert(rest@ =~= whole.skip(i + 1));
        assert(whole.subrange(0, i + 1).drop_last() =~= whole.subrange(0, i as int));
        if lies_in(m.path.as_str(), &dir, dir_path) {
            out.push(m);
        }
        i = i + 1;
    }
    assert(whole.subrange(0, n as int) =~= whole);
    out
}

/// What an entry of a drive's document says of a path: the key names the
/// path (entries under other keys say nothing); an empty entry says the
/// path was deleted; otherwise the metadata read from it, filed under the
/// key's path (metadata that could not be read says nothing).
pub fn doc_entry_update(key: &[u8], empty: bool, meta: Option<FileMetadata>) -> (r: Option<
    (String, Option<FileMetadata>),
>)
    ensures
        key_path(key@) is None ==> r is None,
        key_path(key@) matches Some(p) ==> (if empty {
            r matches Some((q, None)) && q@ == p
        } else {
            match meta {
                None => r is None,
                Some(m) => r matches Some((q, Some(m2))) && q@ == p && m2.path@ == p && m2
                    == (FileMetadata { path: m2.path, ..m }),
            }
        }),
{
    let path = match path_from_key(key) {
        Some(p) => p,
        None => return None,
    };
    if empty {
        return Some((path, None));
    }
    match meta {
        None => None,
        Some(m) => {
            let filed = FileMetadata { path: path.clone(), ..m };
            Some((path, Some(filed)))
        },
    }
}

} // verus!
