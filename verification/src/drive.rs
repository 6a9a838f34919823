//! Shared drives: their identifiers, and the record the frontend is shown.
use vstd::prelude::*;
use crate::bytes::{extend_bytes, to_array_32};
use crate::clock::{now_millis, INSTANT_BOUND};
use crate::error::AppError;
use crate::hex::{decode, encode, first_non_hex_byte, hex_decode, hex_encode, is_hex, HexError};
use crate::keys::NodeId;
use crate::primitives::{blake3_hash, blake3_hash_of, format_rfc3339, opt_chars, rfc3339_of_millis};
use crate::validation::validate_drive_id;
use crate::listing::FileEntry;
use crate::bytes::bytes_eq;

verus! {

/// Unique drive identifier (32-byte BLAKE3 hash).
#[derive(Clone, Copy, Debug, PartialEq, Eq, Hash)]
pub struct DriveId(pub [u8; 32]);

/// The 8 little-endian bytes of a 64-bit integer.
pub open spec fn le_bytes(x: u64) -> Seq<u8> {
    Seq::new(8, |i: int| ((x >> ((8 * i) as u64)) & 0xff) as u8)
}

/// The bytes a drive id is hashed from: the owner's key, the path's UTF-8
/// bytes and the creation time (little-endian milliseconds).
pub open spec fn drive_id_material(owner: Seq<u8>, path: Seq<char>, millis: i64) -> Seq<u8> {
    owner + vstd::utf8::encode_utf8(path) + le_bytes(millis as u64)
}

/// The little-endian bytes of a timestamp.
pub(crate) fn millis_le_bytes(x: i64) -> (r: Vec<u8>)
    ensures
        r@ == le_bytes(x as u64),
{
    let v = x as u64;
    let mut r: Vec<u8> = Vec::new();
    let mut i: u64 = 0;
    while i < 8
        invariant
            v == x as u64,
            i <= 8,
            r@.len() == i,
            forall|j: int| 0 <= j < i ==> r@[j] == ((v >> ((8 * j) as u64)) & 0xff) as u8,
        decreases 8 - i,
    {
        r.push(((v >> (8 * i)) & 0xff) as u8);
        i = i + 1;
    }
    assert(r@ =~= le_bytes(x as u64));
    r
}

impl DriveId {
    /// Generate a drive id from its owner, its path and the time `now` (Unix ms).
    pub fn generate_at(owner: &NodeId, path: &str, now: i64) -> (id: DriveId)
        ensures
            id.0@ == blake3_hash_of(drive_id_material(owner.0@, path@, now)),
    {
        let mut data: Vec<u8> = Vec::new();
        extend_bytes(&mut data, owner.as_bytes());
        extend_bytes(&mut data, path.as_bytes());
        let t = millis_le_bytes(now);
        extend_bytes(&mut data, t.as_slice());
        DriveId(blake3_hash(data.as_slice()))
    }

    /// Generate a drive id from its owner, its path and the current time.
    pub fn generate(owner: &NodeId, path: &str) -> (id: DriveId)
        ensures
            exists|t: i64|
                -INSTANT_BOUND < t < INSTANT_BOUND && id.0@ == blake3_hash_of(
                    drive_id_material(owner.0@, path@, t),
                ),
    {
        let now = now_millis();
        let id = Self::generate_at(owner, path, now);
        assert(id.0@ == blake3_hash_of(drive_id_material(owner.0@, path@, now)));
        id
    }

    /// The raw bytes.
    pub fn as_bytes(&self) -> (r: &[u8; 32])
        ensures
            r@ == self.0@,
    {
        &self.0
    }

    /// Full hex representation.
    pub fn to_hex(self) -> (s: String)
        ensures
            s@ == hex_encode(self.0@),
    {
        encode(&self.0)
    }

    /// Parse from a hex string of 64 hex digits.
    pub fn from_hex(s: &str) -> (r: Result<DriveId, HexError>)
        ensures
            r is Ok <==> is_hex(s@) && s@.len() == 64,
            r matches Ok(d) ==> d.0@ == hex_decode(s@),
            r matches Err(e) ==> (e == HexError::InvalidStringLength <==> is_hex(s@)),
            r matches Err(e) ==> (e == HexError::OddLength <==> vstd::utf8::encode_utf8(s@).len()
                % 2 != 0),
            r matches Err(HexError::InvalidHexCharacter { c, index }) ==> first_non_hex_byte(
                vstd::utf8::encode_utf8(s@),
                index as int,
            ) && c == vstd::utf8::encode_utf8(s@)[index as int] as char,
    {
        let bytes = match decode(s) {
            Ok(b) => b,
            Err(e) => return Err(e),
        };
        if bytes.len() != 32 {
            proof {
                crate::hex::lemma_hex_is_ascii(s@);
            }
            return Err(HexError::InvalidStringLength);
        }
        Ok(DriveId(to_array_32(bytes.as_slice())))
    }
}

/// A shared drive: a folder that can be accessed by several peers.
#[derive(Debug)]
pub struct SharedDrive {
    /// Unique identifier for this drive.
    pub id: DriveId,
    /// Human-readable name.
    pub name: String,
    /// Local path on this machine.
    pub local_path: String,
    /// Owner's public key.
    pub owner: NodeId,
    /// Creation time (Unix ms).
    pub created_at: i64,
    /// Total size in bytes (from the file index).
    pub total_size: u64,
    /// Number of files (from the file index).
    pub file_count: u64,
}

impl SharedDrive {
    /// Create a new shared drive at time `now` (Unix ms).
    pub fn new_at(name: String, local_path: String, owner: NodeId, now: i64) -> (d: SharedDrive)
        ensures
            d.id.0@ == blake3_hash_of(drive_id_material(owner.0@, local_path@, now)),
            d.name == name,
            d.local_path == local_path,
            d.owner == owner,
            d.created_at == now,
            d.total_size == 0,
            d.file_count == 0,
    {
        let id = DriveId::generate_at(&owner, local_path.as_str(), now);
        SharedDrive { id, name, local_path, owner, created_at: now, total_size: 0, file_count: 0 }
    }

    /// Create a new shared drive now.
    pub fn new(name: String, local_path: String, owner: NodeId) -> (d: SharedDrive)
        ensures
            d.id.0@ == blake3_hash_of(drive_id_material(owner.0@, local_path@, d.created_at)),
            d.name == name,
            d.local_path == local_path,
            d.owner == owner,
            d.total_size == 0,
            d.file_count == 0,
            -INSTANT_BOUND < d.created_at < INSTANT_BOUND,
    {
        Self::new_at(name, local_path, owner, now_millis())
    }

    /// Update statistics after indexing.
    pub fn update_stats(&mut self, total_size: u64, file_count: u64)
        ensures
            *final(self) == (SharedDrive { total_size, file_count, ..*old(self) }),
    {
        self.total_size = total_size;
        self.file_count = file_count;
    }
}

/// Drive info as shown to the frontend.
#[derive(Clone, Debug)]
pub struct DriveInfo {
    pub id: String,
    pub name: String,
    pub local_path: String,
    pub owner: String,
    pub created_at: String,
    pub total_size: u64,
    pub file_count: u64,
}

impl DriveInfo {
    /// The info of a drive; `None` where its creation time is outside the
    /// range that RFC 3339 text can be made of.
    pub fn from_drive(drive: &SharedDrive) -> (r: Option<DriveInfo>)
        ensures
            r is Some <==> rfc3339_of_millis(drive.created_at) is Some,
            r matches Some(info) ==> {
                &&& info.id@ == hex_encode(drive.id.0@)
                &&& info.name@ == drive.name@
                &&& info.local_path@ == drive.local_path@
                &&& info.owner@ == hex_encode(drive.owner.0@)
                &&& Some(info.created_at@) == rfc3339_of_millis(drive.created_at)
                &&& info.total_size == drive.total_size
                &&& info.file_count == drive.file_count
            },
    {
        let created = match format_rfc3339(drive.created_at) {
            Some(t) => t,
            None => return None,
        };
        Some(
            DriveInfo {
                id: drive.id.to_hex(),
                name: drive.name.clone(),
                local_path: drive.local_path.clone(),
                owner: drive.owner.to_hex(),
                created_at: created,
                total_size: drive.total_size,
                file_count: drive.file_count,
            },
        )
    }
}

/// Parse a drive id given as hex: not hex is "Invalid drive ID format", hex
/// of other than 32 bytes is "Invalid drive ID length".
pub fn parse_drive_id(drive_id: &str) -> (r: Result<[u8; 32], String>)
    ensures
        !is_hex(drive_id@) ==> (r matches Err(m) && m@ == "Invalid drive ID format"@),
        is_hex(drive_id@) && drive_id@.len() != 64 ==> (r matches Err(m) && m@
            == "Invalid drive ID length"@),
        is_hex(drive_id@) && drive_id@.len() == 64 ==> (r matches Ok(a) && a@ == hex_decode(
            drive_id@,
        )),
{
    let bytes = match decode(drive_id) {
        Ok(b) => b,
        Err(_) => return Err(String::from_str("Invalid drive ID format")),
    };
    if bytes.len() != 32 {
        return Err(String::from_str("Invalid drive ID length"));
    }
    Ok(to_array_32(bytes.as_slice()))
}

/// Validate a drive id (`validate_drive_id`) and make it a `DriveId`; the
/// error is the validation error's message.
pub fn parse_validated_drive_id(drive_id: &str) -> (r: Result<DriveId, String>)
    ensures
        crate::text::utf8_size(drive_id@) != 64 ==> (r matches Err(m) && m@
            == "Invalid drive ID format: Expected 64 hex chars, got "@ + crate::text::decimal(
            crate::text::utf8_size_usize(drive_id@),
        )),
        crate::text::utf8_size(drive_id@) == 64 && !is_hex(drive_id@) ==> (r matches Err(m)
            && m@ == "Invalid drive ID format: Invalid hex encoding"@),
        crate::text::utf8_size(drive_id@) == 64 && is_hex(drive_id@) ==> (r matches Ok(d) && d.0@
            == hex_decode(drive_id@)),
{
    match validate_drive_id(drive_id) {
        Ok(a) => Ok(DriveId(a)),
        Err(e) => {
            let m = e.message();
            proof {
                reveal_strlit("Invalid drive ID format: ");
                reveal_strlit("Invalid drive ID format: Expected 64 hex chars, got ");
                reveal_strlit("Expected 64 hex chars, got ");
                reveal_strlit("Invalid drive ID format: Invalid hex encoding");
                reveal_strlit("Invalid hex encoding");
            }
            assert(m@ == e.spec_message());
            Err(m)
        },
    }
}

/// The total size of indexed entries.
pub open spec fn size_total(s: Seq<FileEntry>) -> int
    decreases s.len(),
{
    if s.len() == 0 {
        0
    } else {
        size_total(s.drop_last()) + s.last().size
    }
}

/// The number of files (not directories) among indexed entries.
pub open spec fn file_total(s: Seq<FileEntry>) -> int
    decreases s.len(),
{
    if s.len() == 0 {
        0
    } else {
        file_total(s.drop_last()) + if s.last().is_dir {
            0int
        } else {
            1int
        }
    }
}

proof fn lemma_totals_monotone(s: Seq<FileEntry>, i: int)
    requires
        0 <= i <= s.len(),
    ensures
        size_total(s.subrange(0, i)) <= size_total(s),
        0 <= size_total(s.subrange(0, i)),
        0 <= file_total(s.subrange(0, i)) <= i,
    decreases s.len() - i,
{
    lemma_totals_nonneg(s.subrange(0, i));
    if i < s.len() {
        lemma_totals_monotone(s, i + 1);
        assert(s.subrange(0, i + 1).drop_last() =~= s.subrange(0, i));
    } else {
        assert(s.subrange(0, i) =~= s);
        lemma_totals_nonneg(s);
    }
}

proof fn lemma_totals_nonneg(s: Seq<FileEntry>)
    ensures
        0 <= size_total(s),
        0 <= file_total(s) <= s.len(),
    decreases s.len(),
{
    if s.len() > 0 {
        lemma_totals_nonneg(s.drop_last());
    }
}

/// The statistics of a drive's index: the total size of its entries and
/// the number of files among them (the sizes must add up within 64 bits).
pub fn index_stats(entries: &[FileEntry]) -> (r: (u64, u64))
    requires
        size_total(entries@) <= u64::MAX,
    ensures
        r.0 == size_total(entries@),
        r.1 == file_total(entries@),
{
    let mut total: u64 = 0;
    let mut files: u64 = 0;
    let mut i: usize = 0;
    assert(entries@.subrange(0, 0) =~= Seq::<FileEntry>::empty());
    while i < entries.len()
        invariant
            i <= entries@.len(),
            size_total(entries@) <= u64::MAX,
            total == size_total(entries@.subrange(0, i as int)),
            files == file_total(entries@.subrange(0, i as int)),
        decreases entries@.len() - i,
    {
        proof {
            lemma_totals_monotone(entries@, i + 1);
            lemma_totals_nonneg(entries@.subrange(0, i + 1));
            assert(entries@.subrange(0, i + 1).drop_last() =~= entries@.subrange(0, i as int));
        }
        total = total + entries[i].size;
        if !entries[i].is_dir {
            files = files + 1;
        }
        i = i + 1;
    }
    assert(entries@.subrange(0, entries@.len() as int) =~= entries@);
    (total, files)
}

/// The drives this node knows, by id.
#[derive(Debug)]
pub struct DriveRegistry {
    drives: Vec<SharedDrive>,
}

/// The last drive of a list with an id, if any.
pub open spec fn find_drive(s: Seq<SharedDrive>, id: Seq<u8>) -> Option<SharedDrive>
    decreases s.len(),
{
    if s.len() == 0 {
        None
    } else if s.last().id.0@ == id {
        Some(s.last())
    } else {
        find_drive(s.drop_last(), id)
    }
}

proof fn lemma_find_id(s: Seq<SharedDrive>, id: Seq<u8>)
    ensures
        find_drive(s, id) matches Some(x) ==> x.id.0@ == id,
    decreases s.len(),
{
    if s.len() > 0 {
        lemma_find_id(s.drop_last(), id);
    }
}

proof fn lemma_find_none(s: Seq<SharedDrive>, id: Seq<u8>)
    requires
        forall|j: int| 0 <= j < s.len() ==> s[j].id.0@ != id,
    ensures
        find_drive(s, id) is None,
    decreases s.len(),
{
    if s.len() > 0 {
        lemma_find_none(s.drop_last(), id);
    }
}

proof fn lemma_find_at(s: Seq<SharedDrive>, id: Seq<u8>, j: int)
    requires
        drive_ids_of(s).no_duplicates(),
        0 <= j < s.len(),
        s[j].id.0@ == id,
    ensures
        find_drive(s, id) == Some(s[j]),
    decreases s.len(),
{
    if j < s.len() - 1 {
        assert(drive_ids_of(s)[j] == drive_ids_of(s)[s.len() - 1] ==> false);
        assert(drive_ids_of(s.drop_last()) =~= drive_ids_of(s).drop_last());
        lemma_find_at(s.drop_last(), id, j);
    }
}

/// The ids of a list of drives.
pub open spec fn drive_ids_of(s: Seq<SharedDrive>) -> Seq<Seq<u8>> {
    s.map_values(|d: SharedDrive| d.id.0@)
}

impl DriveRegistry {
    /// One drive per id.
    pub closed spec fn wf(&self) -> bool {
        drive_ids_of(self.drives@).no_duplicates()
    }

    /// The drives.
    pub closed spec fn drives_view(&self) -> Seq<SharedDrive> {
        self.drives@
    }

    /// The drive of an id, if known.
    pub open spec fn drive_of(&self, id: Seq<u8>) -> Option<SharedDrive> {
        find_drive(self.drives_view(), id)
    }

    /// No drives.
    pub fn new() -> (r: DriveRegistry)
        ensures
            r.wf(),
            r.drives_view() == Seq::<SharedDrive>::empty(),
    {
        let r = DriveRegistry { drives: Vec::new() };
        assert(drive_ids_of(r.drives@) =~= Seq::<Seq<u8>>::empty());
        r
    }

    fn index_of(&self, id: &[u8; 32]) -> (r: Option<usize>)
        requires
            self.wf(),
        ensures
            r matches Some(i) ==> i < self.drives@.len() && self.drives@[i as int].id.0@ == id@,
            r is None ==> forall|i: int| 0 <= i < self.drives@.len() ==> self.drives@[i].id.0@ != id@,
    {
        let mut i: usize = 0;
        while i < self.drives.len()
            invariant
                i <= self.drives@.len(),
                forall|j: int| 0 <= j < i ==> self.drives@[j].id.0@ != id@,
            decreases self.drives@.len() - i,
        {
            if bytes_eq(&self.drives[i].id.0, id) {
                return Some(i);
            }
            i = i + 1;
        }
        None
    }

    proof fn lemma_unique(&self, i: int, j: int)
        requires
            self.wf(),
            0 <= i < self.drives@.len(),
            0 <= j < self.drives@.len(),
            self.drives@[i].id.0@ == self.drives@[j].id.0@,
        ensures
            i == j,
    {
        assert(drive_ids_of(self.drives@)[i] == drive_ids_of(self.drives@)[j]);
    }

    /// The drive of an id.
    pub fn get(&self, id: &[u8; 32]) -> (r: Option<&SharedDrive>)
        requires
            self.wf(),
        ensures
            match self.drive_of(id@) {
                Some(d) => r == Some(&d),
                None => r is None,
            },
    {
        match self.index_of(id) {
            Some(i) => {
                proof {
                    lemma_find_at(self.drives@, id@, i as int);
                }
                Some(&self.drives[i])
            },
            None => {
                proof {
                    lemma_find_none(self.drives@, id@);
                }
                None
            },
        }
    }

    /// Two registries hold the same drives of an id: they give the same
    /// drive for it.
    proof fn lemma_same_drive_of(a: DriveRegistry, b: DriveRegistry, id: Seq<u8>)
        requires
            a.wf(),
            b.wf(),
            forall|x: SharedDrive|
                (a.drives@.contains(x) && x.id.0@ == id) <==> (b.drives@.contains(x) && x.id.0@ == id),
        ensures
            a.drive_of(id) == b.drive_of(id),
    {
        if exists|j: int| 0 <= j < a.drives@.len() && a.drives@[j].id.0@ == id {
            let j = choose|j: int| 0 <= j < a.drives@.len() && a.drives@[j].id.0@ == id;
            let x = a.drives@[j];
            assert(a.drives@.contains(x));
            let k = choose|k: int| 0 <= k < b.drives@.len() && b.drives@[k] == x;
            lemma_find_at(a.drives@, id, j);
            lemma_find_at(b.drives@, id, k);
        } else {
            lemma_find_none(a.drives@, id);
            assert forall|k: int| 0 <= k < b.drives@.len() implies b.drives@[k].id.0@ != id by {
                if b.drives@[k].id.0@ == id {
                    let x = b.drives@[k];
                    assert(b.drives@.contains(x));
                    let j = choose|j: int| 0 <= j < a.drives@.len() && a.drives@[j] == x;
                    assert(a.drives@[j].id.0@ == id);
                }
            }
            lemma_find_none(b.drives@, id);
        }
    }

    /// Add a drive, replacing the one of the same id.
    pub fn insert(&mut self, drive: SharedDrive)
        requires
            old(self).wf(),
        ensures
            final(self).wf(),
            final(self).drive_of(drive.id.0@) == Some(drive),
            forall|id: Seq<u8>| id != drive.id.0@ ==> #[trigger] final(self).drive_of(id) == old(self).drive_of(id),
    {
        let ghost before = self.drives@;
        let ghost d = drive;
        match self.index_of(&drive.id.0) {
            Some(i) => {
                self.drives.set(i, drive);
                proof {
                    assert(drive_ids_of(self.drives@) =~= drive_ids_of(before));
                    assert(self.drives@[i as int] == d);
                    lemma_find_at(self.drives@, d.id.0@, i as int);
                    assert forall|id: Seq<u8>| id != d.id.0@ implies #[trigger] self.drive_of(id)
                        == old(self).drive_of(id) by {
                        assert forall|x: SharedDrive|
                            (old(self).drives@.contains(x) && x.id.0@ == id) <==> (
                            self.drives@.contains(x) && x.id.0@ == id) by {
                            if old(self).drives@.contains(x) && x.id.0@ == id {
                                let j = choose|j: int| 0 <= j < before.len() && before[j] == x;
                                assert(j != i);
                                assert(self.drives@[j] == x);
                            }
                            if self.drives@.contains(x) && x.id.0@ == id {
                                let j = choose|j: int| 0 <= j < self.drives@.len() && self.drives@[j] == x;
                                assert(j != i);
                                assert(before[j] == x);
                            }
                        }
                        Self::lemma_same_drive_of(*old(self), *self, id);
                    }
                }
            },
            None => {
                self.drives.push(drive);
                proof {
                    assert(drive_ids_of(self.drives@) =~= drive_ids_of(before).push(d.id.0@));
                    assert(!drive_ids_of(before).contains(d.id.0@)) by {
                        if drive_ids_of(before).contains(d.id.0@) {
                            let j = choose|j: int|
                                0 <= j < drive_ids_of(before).len() && drive_ids_of(before)[j]
                                    == d.id.0@;
                            assert(before[j].id.0@ == d.id.0@);
                        }
                    }
                    crate::access::lemma_push_no_duplicates(drive_ids_of(before), d.id.0@);
                    let n = before.len() as int;
                    assert(self.drives@[n] == d);
                    lemma_find_at(self.drives@, d.id.0@, n);
                    assert forall|id: Seq<u8>| id != d.id.0@ implies #[trigger] self.drive_of(id)
                        == old(self).drive_of(id) by {
                        assert forall|x: SharedDrive|
                            (old(self).drives@.contains(x) && x.id.0@ == id) <==> (
                            self.drives@.contains(x) && x.id.0@ == id) by {
                            if old(self).drives@.contains(x) && x.id.0@ == id {
                                let j = choose|j: int| 0 <= j < before.len() && before[j] == x;
                                assert(self.drives@[j] == x);
                            }
                            if self.drives@.contains(x) && x.id.0@ == id {
                                let j = choose|j: int| 0 <= j < self.drives@.len() && self.drives@[j] == x;
                                assert(j != n);
                                assert(before[j] == x);
                            }
                        }
                        Self::lemma_same_drive_of(*old(self), *self, id);
                    }
                }
            },
        }
    }

    /// Remove the drive of an id; returns it, if it was known.
    pub fn remove(&mut self, id: &[u8; 32]) -> (r: Option<SharedDrive>)
        requires
            old(self).wf(),
        ensures
            final(self).wf(),
            r == old(self).drive_of(id@),
            final(self).drive_of(id@) is None,
            forall|other: Seq<u8>| other != id@ ==> #[trigger] final(self).drive_of(other) == old(self).drive_of(other),
    {
        let ghost before = self.drives@;
        match self.index_of(id) {
            Some(i) => {
                proof {
                    lemma_find_at(self.drives@, id@, i as int);
                }
                let d = self.drives.remove(i);
                proof {
                    assert(drive_ids_of(self.drives@) =~= drive_ids_of(before).remove(i as int));
                    assert forall|a: int, b: int|
                        0 <= a < drive_ids_of(self.drives@).len() && 0 <= b < drive_ids_of(
                            self.drives@,
                        ).len() && a != b implies drive_ids_of(self.drives@)[a] != drive_ids_of(
                        self.drives@,
                    )[b] by {
                        let a2 = if a < i { a } else { a + 1 };
                        let b2 = if b < i { b } else { b + 1 };
                        assert(drive_ids_of(self.drives@)[a] == drive_ids_of(before)[a2]);
                        assert(drive_ids_of(self.drives@)[b] == drive_ids_of(before)[b2]);
                    }
                    assert forall|j: int| 0 <= j < self.drives@.len() implies self.drives@[j].id.0@
                        != id@ by {
                        let j2 = if j < i { j } else { j + 1 };
                        assert(self.drives@[j] == before[j2]);
                        if before[j2].id.0@ == id@ {
                            old(self).lemma_unique(j2, i as int);
                        }
                    }
                    lemma_find_none(self.drives@, id@);
                    assert forall|other: Seq<u8>| other != id@ implies #[trigger] self.drive_of(other)
                        == old(self).drive_of(other) by {
                        assert forall|x: SharedDrive|
                            (old(self).drives@.contains(x) && x.id.0@ == other) <==> (
                            self.drives@.contains(x) && x.id.0@ == other) by {
                            if old(self).drives@.contains(x) && x.id.0@ == other {
                                let j = choose|j: int| 0 <= j < before.len() && before[j] == x;
                                assert(j != i);
                                let j3 = if j < i { j } else { j - 1 };
                                assert(self.drives@[j3] == x);
                            }
                            if self.drives@.contains(x) && x.id.0@ == other {
                                let j = choose|j: int| 0 <= j < self.drives@.len() && self.drives@[j] == x;
                                let j2 = if j < i { j } else { j + 1 };
                                assert(before[j2] == x);
                            }
                        }
                        Self::lemma_same_drive_of(*old(self), *self, other);
                    }
                }
                Some(d)
            },
            None => {
                proof {
                    lemma_find_none(self.drives@, id@);
                }
                None
            },
        }
    }

    /// Rename the drive of an id; `false` where no drive has that id.
    pub fn rename(&mut self, id: &[u8; 32], name: String) -> (found: bool)
        requires
            old(self).wf(),
        ensures
            final(self).wf(),
            found == old(self).drive_of(id@) is Some,
            match old(self).drive_of(id@) {
                Some(d) => final(self).drive_of(id@) == Some(SharedDrive { name, ..d }),
                None => true,
            },
            forall|other: Seq<u8>| other != id@ ==> #[trigger] final(self).drive_of(other) == old(self).drive_of(other),
            old(self).drive_of(id@) is None ==> final(self).drive_of(id@) is None,
    {
        proof {
            lemma_find_id(self.drives@, id@);
        }
        match self.remove(id) {
            Some(d) => {
                let renamed = SharedDrive { name, ..d };
                self.insert(renamed);
                true
            },
            None => false,
        }
    }

    /// The drives.
    pub fn drives(&self) -> (r: &[SharedDrive])
        ensures
            r@ == self.drives_view(),
    {
        self.drives.as_slice()
    }
}

} // verus!
