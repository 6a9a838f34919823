//! Lower-case hexadecimal encoding and decoding of byte strings.
use vstd::prelude::*;
use crate::primitives::debug_char_text;
use crate::text::decimal;

verus! {

/// The lower-case hex digit of a nibble.
pub open spec fn hex_char(n: nat) -> char {
    if n < 10 {
        (('0' as nat) + n) as char
    } else {
        (('a' as nat) + (n - 10)) as char
    }
}

/// Lower-case hex encoding: two digits per byte, high nibble first.
pub open spec fn hex_encode(b: Seq<u8>) -> Seq<char> {
    Seq::new(
        2 * b.len(),
        |i: int|
            if i % 2 == 0 {
                hex_char((b[i / 2] / 16) as nat)
            } else {
                hex_char((b[i / 2] % 16) as nat)
            },
    )
}

/// The value of a hex digit of either case.
pub open spec fn hex_value(c: char) -> Option<nat> {
    if '0' <= c && c <= '9' {
        Some((c as nat - '0' as nat) as nat)
    } else if 'a' <= c && c <= 'f' {
        Some((c as nat - 'a' as nat + 10) as nat)
    } else if 'A' <= c && c <= 'F' {
        Some((c as nat - 'A' as nat + 10) as nat)
    } else {
        None
    }
}

/// `s` is a well-formed hex string: even length, hex digits only.
pub open spec fn is_hex(s: Seq<char>) -> bool {
    s.len() % 2 == 0 && forall|i: int| 0 <= i < s.len() ==> (#[trigger] hex_value(s[i])) is Some
}

/// The bytes that a well-formed hex string denotes.
pub open spec fn hex_decode(s: Seq<char>) -> Seq<u8> {
    Seq::new(
        s.len() / 2,
        |i: int| (hex_value(s[2 * i])->0 * 16 + hex_value(s[2 * i + 1])->0) as u8,
    )
}

/// Decoding gives back what encoding encoded.
pub proof fn lemma_hex_roundtrip(b: Seq<u8>)
    ensures
        is_hex(hex_encode(b)),
        hex_decode(hex_encode(b)) == b,
{
    let e = hex_encode(b);
    assert forall|i: int| 0 <= i < e.len() implies (#[trigger] hex_value(e[i])) is Some by {
        let n: nat = if i % 2 == 0 { (b[i / 2] / 16) as nat } else { (b[i / 2] % 16) as nat };
        assert(n < 16);
        assert(e[i] == hex_char(n));
    }
    assert forall|i: int| 0 <= i < b.len() implies #[trigger] hex_decode(e)[i] == b[i] by {
        let hi = (b[i] / 16) as nat;
        let lo = (b[i] % 16) as nat;
        assert((2 * i) / 2 == i);
        assert((2 * i + 1) / 2 == i);
        assert((2 * i) % 2 == 0);
        assert((2 * i + 1) % 2 == 1);
        assert(e[2 * i] == hex_char(hi));
        assert(e[2 * i + 1] == hex_char(lo));
        assert(hex_value(hex_char(hi)) == Some(hi));
        assert(hex_value(hex_char(lo)) == Some(lo));
    }
    assert(hex_decode(e) =~= b);
}

/// Error from decoding a hex string.
#[derive(Clone, Copy, Debug, PartialEq, Eq, Structural)]
pub enum HexError {
    /// A byte that is no hex digit, read as a character, at its byte index.
    InvalidHexCharacter { c: char, index: usize },
    /// The string has an odd number of bytes.
    OddLength,
    /// The decoded bytes have the wrong length.
    InvalidStringLength,
}

impl HexError {
    /// The message of an error; a bad character is shown as Rust's `Debug`
    /// form of it.
    pub open spec fn spec_message(self) -> Seq<char> {
        match self {
            HexError::InvalidHexCharacter { c, index } => "Invalid character "@ + debug_char_text(c)
                + " at position "@ + decimal(index as nat),
            HexError::OddLength => "Odd number of digits"@,
            HexError::InvalidStringLength => "Invalid string length"@,
        }
    }

    /// The message of an error, as the `hex` crate displays it.
    pub fn message(&self) -> (s: String)
        ensures
            s@ == self.spec_message(),
    {
        hex_error_text(*self)
    }
}

/// The text of a hex error (`hex::FromHexError`'s `Display`): for a bad
/// character, `Invalid character ` and the character's `Debug` form, then
/// ` at position ` and the index; the other two errors have fixed texts.
#[verifier::external_body]
fn hex_error_text(e: HexError) -> (s: String)
    ensures
        s@ == match e {
            HexError::InvalidHexCharacter { c, index } => "Invalid character "@ + debug_char_text(c)
                + " at position "@ + decimal(index as nat),
            HexError::OddLength => "Odd number of digits"@,
            HexError::InvalidStringLength => "Invalid string length"@,
        },
{
    match e {
        HexError::InvalidHexCharacter { c, index } => hex::FromHexError::InvalidHexCharacter { c, index },
        HexError::OddLength => hex::FromHexError::OddLength,
        HexError::InvalidStringLength => hex::FromHexError::InvalidStringLength,
    }.to_string()
}

/// A byte that is an ASCII hex digit of either case.
pub open spec fn hex_byte(b: u8) -> bool {
    (48 <= b <= 57) || (97 <= b <= 102) || (65 <= b <= 70)
}

/// The hex digit of a nibble.
pub fn nibble_char(n: u8) -> (c: char)
    requires
        n < 16,
    ensures
        c == hex_char(n as nat),
{
    let chars: [char; 16] = [
        '0', '1', '2', '3', '4', '5', '6', '7', '8', '9', 'a', 'b', 'c', 'd', 'e', 'f',
    ];
    let c = chars[n as usize];
    assert(c == hex_char(n as nat)) by {
        assert(chars@[n as int] == c);
    }
    c
}

/// The value of a hex digit, if `c` is one.
pub fn digit_value(c: char) -> (r: Option<u8>)
    ensures
        r matches Some(v) ==> hex_value(c) == Some(v as nat),
        r is None ==> hex_value(c) is None,
{
    if '0' <= c && c <= '9' {
        Some((c as u32 - '0' as u32) as u8)
    } else if 'a' <= c && c <= 'f' {
        Some((c as u32 - 'a' as u32 + 10) as u8)
    } else if 'A' <= c && c <= 'F' {
        Some((c as u32 - 'A' as u32 + 10) as u8)
    } else {
        None
    }
}

/// Lower-case hex rendering of `bytes` (`hex::encode`).
pub fn encode(bytes: &[u8]) -> (s: String)
    ensures
        s@ == hex_encode(bytes@),
{
    let mut s = String::new();
    let mut i: usize = 0;
    while i < bytes.len()
        invariant
            i <= bytes@.len(),
            s@ == hex_encode(bytes@.subrange(0, i as int)),
        decreases bytes@.len() - i,
    {
        let b = bytes[i];
        let ghost prev = s@;
        s.push(nibble_char(b / 16));
        s.push(nibble_char(b % 16));
        i = i + 1;
        assert(s@ =~= hex_encode(bytes@.subrange(0, i as int))) by {
            let t = bytes@.subrange(0, i as int);
            assert forall|k: int| 0 <= k < 2 * (i - 1) implies s@[k] == hex_encode(t)[k] by {
                assert(t[k / 2] == bytes@.subrange(0, i - 1)[k / 2]);
            }
        }
    }
    assert(bytes@.subrange(0, bytes@.len() as int) =~= bytes@);
    s
}

/// A hex digit is an ASCII character.
pub(crate) proof fn lemma_hex_is_ascii(s: Seq<char>)
    requires
        forall|i: int| 0 <= i < s.len() ==> (#[trigger] hex_value(s[i])) is Some,
    ensures
        vstd::utf8::encode_utf8(s).len() == s.len(),
{
    assert(vstd::utf8::is_ascii_chars(s)) by {
        assert forall|i: int| 0 <= i < s.len() implies '\0' <= #[trigger] s[i] <= '\u{7f}' by {
            assert(hex_value(s[i]) is Some);
        }
    }
    vstd::utf8::is_ascii_chars_encode_utf8(s);
}

/// `i` is the first byte of `bs` that is no hex digit.
pub open spec fn first_non_hex_byte(bs: Seq<u8>, i: int) -> bool {
    &&& 0 <= i < bs.len()
    &&& !hex_byte(bs[i])
    &&& forall|k: int| 0 <= k < i ==> hex_byte(#[trigger] bs[k])
}

/// The first byte of a character's UTF-8 encoding: the character itself
/// when it is ASCII, a byte of 0x80 or more otherwise.
proof fn lemma_first_utf8_byte(c: char)
    ensures
        vstd::utf8::encode_scalar(c as u32).len() >= 1,
        c as u32 <= 0x7f ==> vstd::utf8::encode_scalar(c as u32)[0] as int == c as int,
        c as u32 > 0x7f ==> vstd::utf8::encode_scalar(c as u32)[0] >= 0x80,
{
    let v = c as u32;
    vstd::utf8::char_is_scalar(c);
    if v <= 0x7f {
        assert(vstd::utf8::leading_byte_width_1(v) as u32 == v) by (bit_vector)
            requires
                v <= 0x7f,
        ;
    } else if v <= 0x7ff {
        assert(vstd::utf8::leading_byte_width_2(v) >= 0x80) by (bit_vector);
    } else if v <= 0xffff {
        assert(vstd::utf8::leading_byte_width_3(v) >= 0x80) by (bit_vector);
    } else {
        assert(vstd::utf8::leading_byte_width_4(v) >= 0x80) by (bit_vector);
    }
}

/// A string whose UTF-8 bytes are all hex digits is made of hex digits.
proof fn lemma_hex_bytes_hex_chars(s: Seq<char>)
    requires
        forall|k: int|
            0 <= k < vstd::utf8::encode_utf8(s).len() ==> hex_byte(
                #[trigger] vstd::utf8::encode_utf8(s)[k],
            ),
    ensures
        forall|i: int| 0 <= i < s.len() ==> (#[trigger] hex_value(s[i])) is Some,
    decreases s.len(),
{
    if s.len() > 0 {
        let e = vstd::utf8::encode_utf8(s);
        let h = vstd::utf8::encode_scalar(s[0] as u32);
        let rest = s.drop_first();
        let t = vstd::utf8::encode_utf8(rest);
        assert(e == h + t);
        lemma_first_utf8_byte(s[0]);
        assert(e[0] == h[0]);
        assert(hex_byte(e[0]));
        assert forall|k: int| 0 <= k < t.len() implies hex_byte(#[trigger] t[k]) by {
            assert(e[h.len() + k] == t[k]);
        }
        lemma_hex_bytes_hex_chars(rest);
        assert forall|i: int| 0 <= i < s.len() implies (#[trigger] hex_value(s[i])) is Some by {
            if i > 0 {
                assert(s[i] == rest[i - 1]);
                assert(hex_value(rest[i - 1]) is Some);
            }
        }
    }
}

/// Whether a byte is a hex digit.
fn byte_is_hex(b: u8) -> (r: bool)
    ensures
        r == hex_byte(b),
{
    (48 <= b && b <= 57) || (97 <= b && b <= 102) || (65 <= b && b <= 70)
}

/// Decode a hex string of either case (`hex::decode`): an odd number of
/// bytes is `OddLength`; otherwise the first byte that is no hex digit is
/// `InvalidHexCharacter`, with that byte read as a character and its index.
pub fn decode(text: &str) -> (r: Result<Vec<u8>, HexError>)
    ensures
        r is Ok <==> is_hex(text@),
        r matches Ok(v) ==> v@ == hex_decode(text@),
        r matches Err(e) ==> (e == HexError::OddLength <==> vstd::utf8::encode_utf8(text@).len() % 2 != 0),
        r matches Err(e) ==> e != HexError::InvalidStringLength,
        r matches Err(HexError::InvalidHexCharacter { c, index }) ==> first_non_hex_byte(
            vstd::utf8::encode_utf8(text@),
            index as int,
        ) && c == vstd::utf8::encode_utf8(text@)[index as int] as char,
{
    let raw = text.as_bytes();
    if raw.len() % 2 != 0 {
        proof {
            if is_hex(text@) {
                lemma_hex_is_ascii(text@);
            }
        }
        return Err(HexError::OddLength);
    }
    let mut k: usize = 0;
    while k < raw.len()
        invariant
            raw@ == vstd::utf8::encode_utf8(text@),
            raw@.len() % 2 == 0,
            k <= raw@.len(),
            forall|j: int| 0 <= j < k ==> hex_byte(#[trigger] raw@[j]),
        decreases raw@.len() - k,
    {
        let b = raw[k];
        if !byte_is_hex(b) {
            proof {
                if is_hex(text@) {
                    lemma_hex_is_ascii(text@);
                    assert(vstd::utf8::is_ascii_chars(text@)) by {
                        assert forall|i: int| 0 <= i < text@.len() implies '\0' <= #[trigger] text@[i]
                            <= '\u{7f}' by {
                            assert(hex_value(text@[i]) is Some);
                        }
                    }
                    vstd::utf8::is_ascii_chars_encode_utf8(text@);
                    assert(hex_value(text@[k as int]) is Some);
                    assert(raw@[k as int] as int == text@[k as int] as int);
                }
            }
            return Err(HexError::InvalidHexCharacter { c: b as char, index: k });
        }
        k = k + 1;
    }
    proof {
        lemma_hex_bytes_hex_chars(text@);
        lemma_hex_is_ascii(text@);
    }
    let cs = crate::text::chars_of(text);
    let mut out: Vec<u8> = Vec::new();
    let mut i: usize = 0;
    while i < cs.len() / 2
        invariant
            cs@ == text@,
            cs@.len() % 2 == 0,
            i <= cs@.len() / 2,
            out@.len() == i,
            forall|k: int| 0 <= k < cs@.len() ==> (#[trigger] hex_value(cs@[k])) is Some,
            forall|k: int| 0 <= k < i ==> out@[k] == hex_decode(cs@)[k],
        decreases cs@.len() / 2 - i,
    {
        let hi = digit_value(cs[2 * i]);
        let lo = digit_value(cs[2 * i + 1]);
        assert(hex_value(cs@[2 * i as int]) is Some);
        assert(hex_value(cs@[2 * i + 1]) is Some);
        match (hi, lo) {
            (Some(h), Some(l)) => {
                out.push(h * 16 + l);
            },
            _ => {
                return Err(HexError::OddLength);
            },
        }
        i = i + 1;
    }
    assert(out@ =~= hex_decode(cs@));
    Ok(out)
}

} // verus!
