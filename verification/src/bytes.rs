//! Small byte-buffer helpers: fixed-size arrays from slices, concatenation
//! and sub-ranges.
use vstd::prelude::*;

verus! {

/// The 32 bytes of a 32-byte slice, as an array.
pub fn to_array_32(v: &[u8]) -> (a: [u8; 32])
    requires
        v@.len() == 32,
    ensures
        a@ == v@,
{
    let mut a = [0u8; 32];
    let mut i: usize = 0;
    while i < 32
        invariant
            v@.len() == 32,
            i <= 32,
            forall|j: int| 0 <= j < i ==> a@[j] == v@[j],
        decreases 32 - i,
    {
        a[i] = v[i];
        i = i + 1;
    }
    assert(a@ =~= v@);
    a
}

/// The 12 bytes of a 12-byte slice, as an array.
pub fn to_array_12(v: &[u8]) -> (a: [u8; 12])
    requires
        v@.len() == 12,
    ensures
        a@ == v@,
{
    let mut a = [0u8; 12];
    let mut i: usize = 0;
    while i < 12
        invariant
            v@.len() == 12,
            i <= 12,
            forall|j: int| 0 <= j < i ==> a@[j] == v@[j],
        decreases 12 - i,
    {
        a[i] = v[i];
        i = i + 1;
    }
    assert(a@ =~= v@);
    a
}

/// The 64 bytes of a 64-byte slice, as an array.
pub fn to_array_64(v: &[u8]) -> (a: [u8; 64])
    requires
        v@.len() == 64,
    ensures
        a@ == v@,
{
    let mut a = [0u8; 64];
    let mut i: usize = 0;
    while i < 64
        invariant
            v@.len() == 64,
            i <= 64,
            forall|j: int| 0 <= j < i ==> a@[j] == v@[j],
        decreases 64 - i,
    {
        a[i] = v[i];
        i = i + 1;
    }
    assert(a@ =~= v@);
    a
}

/// Append the bytes of `b` to `out`.
pub fn extend_bytes(out: &mut Vec<u8>, b: &[u8])
    ensures
        final(out)@ == old(out)@ + b@,
{
    let mut i: usize = 0;
    while i < b.len()
        invariant
            i <= b@.len(),
            out@ == old(out)@ + b@.subrange(0, i as int),
        decreases b@.len() - i,
    {
        out.push(b[i]);
        i = i + 1;
        assert(out@ =~= old(out)@ + b@.subrange(0, i as int));
    }
    assert(b@.subrange(0, b@.len() as int) =~= b@);
}

/// The bytes of `v` from `from` (inclusive) to `to` (exclusive).
pub fn sub_bytes(v: &[u8], from: usize, to: usize) -> (r: Vec<u8>)
    requires
        from <= to <= v@.len(),
    ensures
        r@ == v@.subrange(from as int, to as int),
{
    let mut r: Vec<u8> = Vec::new();
    let mut i: usize = from;
    while i < to
        invariant
            from <= i <= to <= v@.len(),
            r@ == v@.subrange(from as int, i as int),
        decreases to - i,
    {
        r.push(v[i]);
        i = i + 1;
        assert(r@ =~= v@.subrange(from as int, i as int));
    }
    r
}

/// Whether two byte slices are equal.
pub fn bytes_eq(a: &[u8], b: &[u8]) -> (r: bool)
    ensures
        r == (a@ == b@),
{
    if a.len() != b.len() {
        return false;
    }
    let mut i: usize = 0;
    while i < a.len()
        invariant
            a@.len() == b@.len(),
            i <= a@.len(),
            forall|j: int| 0 <= j < i ==> a@[j] == b@[j],
        decreases a@.len() - i,
    {
        if a[i] != b[i] {
            return false;
        }
        i = i + 1;
    }
    assert(a@ =~= b@);
    true
}

} // verus!
