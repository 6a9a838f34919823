//! Character-sequence helpers shared by the validation and matching code.
//!
//! Strings are handled as sequences of `char`s; the spec functions here give
//! the meaning of the usual `str` operations (prefix, suffix, substring search,
//! trimming, splitting) over `Seq<char>`, and the executable functions compute
//! them over slices of characters.
use vstd::prelude::*;

verus! {

/// Appending one character to a `String` extends its character sequence by that character.
pub assume_specification[ String::push ](s: &mut String, ch: char)
    ensures
        final(s)@ == old(s)@.push(ch),
;

// ---------------------------------------------------------------------------
// Specifications
// ---------------------------------------------------------------------------

/// `p` is a prefix of `s`.
pub open spec fn starts_with(s: Seq<char>, p: Seq<char>) -> bool {
    p.len() <= s.len() && s.subrange(0, p.len() as int) == p
}

/// `p` is a suffix of `s`.
pub open spec fn ends_with(s: Seq<char>, p: Seq<char>) -> bool {
    p.len() <= s.len() && s.subrange(s.len() - p.len(), s.len() as int) == p
}

/// `p` occurs in `s` starting at index `i`.
pub open spec fn occurs_at(s: Seq<char>, p: Seq<char>, i: int) -> bool {
    0 <= i && i + p.len() <= s.len() && s.subrange(i, i + p.len()) == p
}

/// `p` occurs somewhere in `s`.
pub open spec fn contains_seq(s: Seq<char>, p: Seq<char>) -> bool {
    exists|i: int| occurs_at(s, p, i)
}

/// Unicode `White_Space` property, as `char::is_whitespace` defines it.
pub open spec fn is_whitespace_char(c: char) -> bool {
    ||| ('\t' <= c && c <= '\r')
    ||| c == ' '
    ||| c == '\u{85}'
    ||| c == '\u{a0}'
    ||| c == '\u{1680}'
    ||| ('\u{2000}' <= c && c <= '\u{200a}')
    ||| c == '\u{2028}'
    ||| c == '\u{2029}'
    ||| c == '\u{202f}'
    ||| c == '\u{205f}'
    ||| c == '\u{3000}'
}

/// Unicode general category `Cc`, as `char::is_control` defines it.
pub open spec fn is_control_char(c: char) -> bool {
    c <= '\u{1f}' || ('\u{7f}' <= c && c <= '\u{9f}')
}

/// `s` without its leading whitespace.
pub open spec fn trim_start_ws(s: Seq<char>) -> Seq<char>
    decreases s.len(),
{
    if s.len() > 0 && is_whitespace_char(s[0]) {
        trim_start_ws(s.drop_first())
    } else {
        s
    }
}

/// `s` without its trailing whitespace.
pub open spec fn trim_end_ws(s: Seq<char>) -> Seq<char>
    decreases s.len(),
{
    if s.len() > 0 && is_whitespace_char(s.last()) {
        trim_end_ws(s.drop_last())
    } else {
        s
    }
}

/// `s` without leading and trailing whitespace (`str::trim`).
pub open spec fn trim_ws(s: Seq<char>) -> Seq<char> {
    trim_end_ws(trim_start_ws(s))
}

/// `s` without its leading copies of `c` (`str::trim_start_matches(c)`).
pub open spec fn trim_start_char(s: Seq<char>, c: char) -> Seq<char>
    decreases s.len(),
{
    if s.len() > 0 && s[0] == c {
        trim_start_char(s.drop_first(), c)
    } else {
        s
    }
}

/// `s` without its trailing copies of `c` (`str::trim_end_matches(c)`).
pub open spec fn trim_end_char(s: Seq<char>, c: char) -> Seq<char>
    decreases s.len(),
{
    if s.len() > 0 && s.last() == c {
        trim_end_char(s.drop_last(), c)
    } else {
        s
    }
}

/// The pieces of `s` between occurrences of `c` (`str::split(c)`), empty pieces included.
pub open spec fn split_char(s: Seq<char>, c: char) -> Seq<Seq<char>>
    decreases s.len(),
{
    if s.len() == 0 {
        seq![Seq::<char>::empty()]
    } else {
        let r = split_char(s.drop_last(), c);
        if s.last() == c {
            r.push(Seq::<char>::empty())
        } else {
            r.update(r.len() - 1, r.last().push(s.last()))
        }
    }
}

/// `split_char` always yields at least one piece.
pub proof fn lemma_split_nonempty(s: Seq<char>, c: char)
    ensures
        split_char(s, c).len() >= 1,
    decreases s.len(),
{
    if s.len() > 0 {
        lemma_split_nonempty(s.drop_last(), c);
    }
}

/// A string without `c` is split into the single piece `s`.
pub proof fn lemma_split_no_sep(s: Seq<char>, c: char)
    requires
        !s.contains(c),
    ensures
        split_char(s, c) == seq![s],
    decreases s.len(),
{
    if s.len() == 0 {
        assert(s =~= Seq::<char>::empty());
    } else {
        assert(!s.drop_last().contains(c)) by {
            if s.drop_last().contains(c) {
                let j = choose|j: int| 0 <= j < s.drop_last().len() && s.drop_last()[j] == c;
                assert(s[j] == c);
            }
        }
        lemma_split_no_sep(s.drop_last(), c);
        assert(s.last() != c) by {
            assert(s[s.len() - 1] == s.last());
        }
        assert(s.drop_last().push(s.last()) =~= s);
        assert(split_char(s, c) =~= seq![s]);
    }
}

/// Number of non-empty pieces in a split.
pub open spec fn count_nonempty(parts: Seq<Seq<char>>) -> nat
    decreases parts.len(),
{
    if parts.len() == 0 {
        0
    } else {
        count_nonempty(parts.drop_last()) + if parts.last().len() > 0 { 1nat } else { 0nat }
    }
}

/// The decimal digits of `n` (`u64::to_string`).
pub open spec fn decimal(n: nat) -> Seq<char>
    decreases n,
{
    if n < 10 {
        seq![digit_char(n)]
    } else {
        decimal(n / 10).push(digit_char(n % 10))
    }
}

/// The character of a decimal digit.
pub open spec fn digit_char(d: nat) -> char {
    if d == 0 { '0' }
    else if d == 1 { '1' }
    else if d == 2 { '2' }
    else if d == 3 { '3' }
    else if d == 4 { '4' }
    else if d == 5 { '5' }
    else if d == 6 { '6' }
    else if d == 7 { '7' }
    else if d == 8 { '8' }
    else { '9' }
}

/// Number of bytes in the UTF-8 encoding of `c`.
pub open spec fn char_utf8_width(c: char) -> nat {
    if c <= '\u{7f}' {
        1
    } else if c <= '\u{7ff}' {
        2
    } else if c <= '\u{ffff}' {
        3
    } else {
        4
    }
}

/// Number of bytes in the UTF-8 encoding of `s` (what `str::len` reports).
pub open spec fn utf8_size(s: Seq<char>) -> nat
    decreases s.len(),
{
    if s.len() == 0 {
        0
    } else {
        utf8_size(s.drop_last()) + char_utf8_width(s.last())
    }
}

/// Every character takes at least one byte.
pub proof fn lemma_utf8_size_ge_len(s: Seq<char>)
    ensures
        utf8_size(s) >= s.len(),
    decreases s.len(),
{
    if s.len() > 0 {
        lemma_utf8_size_ge_len(s.drop_last());
    }
}

/// An ASCII string takes one byte per character.
pub proof fn lemma_utf8_size_ascii(s: Seq<char>)
    requires
        forall|i: int| 0 <= i < s.len() ==> #[trigger] s[i] <= '\u{7f}',
    ensures
        utf8_size(s) == s.len(),
    decreases s.len(),
{
    if s.len() > 0 {
        assert(s[s.len() - 1] == s.last());
        lemma_utf8_size_ascii(s.drop_last());
    }
}

/// `utf8_size(s)`, or `usize::MAX` where that does not fit.
pub open spec fn utf8_size_usize(s: Seq<char>) -> nat {
    if utf8_size(s) <= usize::MAX {
        utf8_size(s)
    } else {
        usize::MAX as nat
    }
}

// ---------------------------------------------------------------------------
// Executable helpers
// ---------------------------------------------------------------------------

/// The characters of a string slice, in order.
pub fn chars_of(s: &str) -> (v: Vec<char>)
    ensures
        v@ == s@,
{
    let n = s.unicode_len();
    let mut v: Vec<char> = Vec::new();
    let mut i: usize = 0;
    while i < n
        invariant
            n == s@.len(),
            i <= n,
            v@ == s@.subrange(0, i as int),
        decreases n - i,
    {
        let c = s.get_char(i);
        v.push(c);
        i = i + 1;
        assert(v@ =~= s@.subrange(0, i as int));
    }
    assert(v@ =~= s@);
    v
}

/// A `String` holding exactly the given characters.
pub fn string_from_chars(v: &[char]) -> (s: String)
    ensures
        s@ == v@,
{
    let mut s = String::new();
    let mut i: usize = 0;
    while i < v.len()
        invariant
            i <= v@.len(),
            s@ == v@.subrange(0, i as int),
        decreases v@.len() - i,
    {
        s.push(v[i]);
        i = i + 1;
        assert(s@ =~= v@.subrange(0, i as int));
    }
    assert(s@ =~= v@);
    s
}

/// Length in bytes of the UTF-8 encoding of `s`, saturating at `usize::MAX`.
pub fn utf8_byte_len(s: &[char]) -> (n: usize)
    ensures
        n == utf8_size_usize(s@),
{
    let mut acc: usize = 0;
    let mut i: usize = 0;
    while i < s.len()
        invariant
            i <= s@.len(),
            acc == utf8_size_usize(s@.subrange(0, i as int)),
        decreases s@.len() - i,
    {
        assert(s@.subrange(0, i + 1).drop_last() =~= s@.subrange(0, i as int));
        let c = s[i];
        let w: usize = if c <= '\u{7f}' {
            1
        } else if c <= '\u{7ff}' {
            2
        } else if c <= '\u{ffff}' {
            3
        } else {
            4
        };
        if acc > usize::MAX - w {
            acc = usize::MAX;
        } else {
            acc = acc + w;
        }
        i = i + 1;
    }
    assert(s@.subrange(0, s@.len() as int) =~= s@);
    acc
}

/// Character-wise equality of two slices.
pub fn chars_eq(a: &[char], b: &[char]) -> (r: bool)
    ensures
        r == (a@ == b@),
{
    if a.len() != b.len() {
        return false;
    }
    let mut i: usize = 0;
    while i < a.len()
        invariant
            a@.len() == b@.len(),
            i <= a@.len(),
            forall|j: int| 0 <= j < i ==> a@[j] == b@[j],
        decreases a@.len() - i,
    {
        if a[i] != b[i] {
            return false;
        }
        i = i + 1;
    }
    assert(a@ =~= b@);
    true
}

/// Whether `p` occurs in `s` at index `at`.
pub fn matches_at(s: &[char], p: &[char], at: usize) -> (r: bool)
    ensures
        r == occurs_at(s@, p@, at as int),
{
    if at > s.len() || p.len() > s.len() - at {
        return false;
    }
    let mut i: usize = 0;
    while i < p.len()
        invariant
            at + p@.len() <= s@.len(),
            s@.len() == s.len(),
            i <= p@.len(),
            forall|j: int| 0 <= j < i ==> s@[at + j] == p@[j],
        decreases p@.len() - i,
    {
        if s[at + i] != p[i] {
            assert(s@.subrange(at as int, at + p@.len())[i as int] != p@[i as int]);
            return false;
        }
        i = i + 1;
    }
    assert(s@.subrange(at as int, at + p@.len()) =~= p@);
    true
}

/// `str::starts_with` on characters.
pub fn has_prefix(s: &[char], p: &[char]) -> (r: bool)
    ensures
        r == starts_with(s@, p@),
{
    matches_at(s, p, 0)
}

/// `str::ends_with` on characters.
pub fn has_suffix(s: &[char], p: &[char]) -> (r: bool)
    ensures
        r == ends_with(s@, p@),
{
    if p.len() > s.len() {
        return false;
    }
    matches_at(s, p, s.len() - p.len())
}

/// The first index at which `p` occurs in `s`, if any.
pub fn find_sub(s: &[char], p: &[char]) -> (r: Option<usize>)
    ensures
        r matches Some(i) ==> occurs_at(s@, p@, i as int) && forall|j: int|
            0 <= j < i ==> !occurs_at(s@, p@, j),
        r is None ==> !contains_seq(s@, p@),
{
    if p.len() > s.len() {
        return None;
    }
    let last = s.len() - p.len();
    let mut i: usize = 0;
    loop
        invariant
            last + p@.len() == s@.len(),
            i <= last,
            forall|j: int| 0 <= j < i ==> !occurs_at(s@, p@, j),
        decreases last - i,
    {
        if matches_at(s, p, i) {
            return Some(i);
        }
        if i == last {
            return None;
        }
        i = i + 1;
    }
}

/// `str::contains` with a string pattern.
pub fn contains_sub(s: &[char], p: &[char]) -> (r: bool)
    ensures
        r == contains_seq(s@, p@),
{
    match find_sub(s, p) {
        Some(_) => true,
        None => false,
    }
}

/// `str::contains` with a character pattern.
pub fn contains_char(s: &[char], c: char) -> (r: bool)
    ensures
        r == s@.contains(c),
{
    let mut i: usize = 0;
    while i < s.len()
        invariant
            i <= s@.len(),
            forall|j: int| 0 <= j < i ==> s@[j] != c,
        decreases s@.len() - i,
    {
        if s[i] == c {
            return true;
        }
        i = i + 1;
    }
    false
}

/// `char::is_whitespace`.
pub fn char_is_whitespace(c: char) -> (r: bool)
    ensures
        r == is_whitespace_char(c),
{
    ('\t' <= c && c <= '\r') || c == ' ' || c == '\u{85}' || c == '\u{a0}' || c == '\u{1680}'
        || ('\u{2000}' <= c && c <= '\u{200a}') || c == '\u{2028}' || c == '\u{2029}'
        || c == '\u{202f}' || c == '\u{205f}' || c == '\u{3000}'
}

/// `char::is_control`.
pub fn char_is_control(c: char) -> (r: bool)
    ensures
        r == is_control_char(c),
{
    c <= '\u{1f}' || ('\u{7f}' <= c && c <= '\u{9f}')
}

proof fn lemma_trim_start_skip(s: Seq<char>, i: int)
    requires
        0 <= i <= s.len(),
        forall|j: int| 0 <= j < i ==> is_whitespace_char(s[j]),
    ensures
        trim_start_ws(s) == trim_start_ws(s.subrange(i, s.len() as int)),
    decreases i,
{
    if i > 0 {
        assert(s.drop_first().subrange(i - 1, s.drop_first().len() as int) =~= s.subrange(
            i,
            s.len() as int,
        ));
        lemma_trim_start_skip(s.drop_first(), i - 1);
    } else {
        assert(s.subrange(0, s.len() as int) =~= s);
    }
}

proof fn lemma_trim_end_skip(s: Seq<char>, k: int)
    requires
        0 <= k <= s.len(),
        forall|j: int| k <= j < s.len() ==> is_whitespace_char(s[j]),
    ensures
        trim_end_ws(s) == trim_end_ws(s.subrange(0, k)),
    decreases s.len() - k,
{
    if k < s.len() {
        assert(s.drop_last().subrange(0, k) =~= s.subrange(0, k));
        lemma_trim_end_skip(s.drop_last(), k);
    } else {
        assert(s.subrange(0, s.len() as int) =~= s);
    }
}

/// `str::trim`: remove leading and trailing whitespace.
pub fn trim(s: &[char]) -> (r: Vec<char>)
    ensures
        r@ == trim_ws(s@),
{
    let mut i: usize = 0;
    while i < s.len() && char_is_whitespace(s[i])
        invariant
            i <= s@.len(),
            forall|j: int| 0 <= j < i ==> is_whitespace_char(s@[j]),
        decreases s@.len() - i,
    {
        i = i + 1;
    }
    proof {
        lemma_trim_start_skip(s@, i as int);
    }
    let ghost t = s@.subrange(i as int, s@.len() as int);
    assert(trim_start_ws(t) == t);
    let mut k: usize = s.len();
    while k > i && char_is_whitespace(s[k - 1])
        invariant
            i <= k <= s@.len(),
            t == s@.subrange(i as int, s@.len() as int),
            forall|j: int| k <= j < s@.len() ==> is_whitespace_char(s@[j]),
        decreases k,
    {
        k = k - 1;
    }
    proof {
        lemma_trim_end_skip(t, k - i);
        assert(t.subrange(0, k - i) =~= s@.subrange(i as int, k as int));
    }
    let mut r: Vec<char> = Vec::new();
    let mut j: usize = i;
    while j < k
        invariant
            i <= j <= k <= s@.len(),
            r@ == s@.subrange(i as int, j as int),
        decreases k - j,
    {
        r.push(s[j]);
        j = j + 1;
        assert(r@ =~= s@.subrange(i as int, j as int));
    }
    r
}

proof fn lemma_trim_start_char_skip(s: Seq<char>, c: char, i: int)
    requires
        0 <= i <= s.len(),
        forall|j: int| 0 <= j < i ==> s[j] == c,
    ensures
        trim_start_char(s, c) == trim_start_char(s.subrange(i, s.len() as int), c),
    decreases i,
{
    if i > 0 {
        assert(s.drop_first().subrange(i - 1, s.drop_first().len() as int) =~= s.subrange(
            i,
            s.len() as int,
        ));
        lemma_trim_start_char_skip(s.drop_first(), c, i - 1);
    } else {
        assert(s.subrange(0, s.len() as int) =~= s);
    }
}

proof fn lemma_trim_end_char_skip(s: Seq<char>, c: char, k: int)
    requires
        0 <= k <= s.len(),
        forall|j: int| k <= j < s.len() ==> s[j] == c,
    ensures
        trim_end_char(s, c) == trim_end_char(s.subrange(0, k), c),
    decreases s.len() - k,
{
    if k < s.len() {
        assert(s.drop_last().subrange(0, k) =~= s.subrange(0, k));
        lemma_trim_end_char_skip(s.drop_last(), c, k);
    } else {
        assert(s.subrange(0, s.len() as int) =~= s);
    }
}

/// Copy of `s[from..to]`.
pub fn slice_chars(s: &[char], from: usize, to: usize) -> (r: Vec<char>)
    requires
        from <= to <= s@.len(),
    ensures
        r@ == s@.subrange(from as int, to as int),
{
    let mut r: Vec<char> = Vec::new();
    let mut j: usize = from;
    while j < to
        invariant
            from <= j <= to <= s@.len(),
            r@ == s@.subrange(from as int, j as int),
        decreases to - j,
    {
        r.push(s[j]);
        j = j + 1;
        assert(r@ =~= s@.subrange(from as int, j as int));
    }
    r
}

/// `str::trim_start_matches(c)`.
pub fn trim_start_matches(s: &[char], c: char) -> (r: Vec<char>)
    ensures
        r@ == trim_start_char(s@, c),
{
    let mut i: usize = 0;
    while i < s.len() && s[i] == c
        invariant
            i <= s@.len(),
            forall|j: int| 0 <= j < i ==> s@[j] == c,
        decreases s@.len() - i,
    {
        i = i + 1;
    }
    proof {
        lemma_trim_start_char_skip(s@, c, i as int);
    }
    slice_chars(s, i, s.len())
}

/// `str::trim_end_matches(c)`.
pub fn trim_end_matches(s: &[char], c: char) -> (r: Vec<char>)
    ensures
        r@ == trim_end_char(s@, c),
{
    let mut k: usize = s.len();
    while k > 0 && s[k - 1] == c
        invariant
            k <= s@.len(),
            forall|j: int| k <= j < s@.len() ==> s@[j] == c,
        decreases k,
    {
        k = k - 1;
    }
    proof {
        lemma_trim_end_char_skip(s@, c, k as int);
    }
    slice_chars(s, 0, k)
}

/// `str::split(c)` collected into owned pieces.
pub fn split_on(s: &[char], c: char) -> (r: Vec<Vec<char>>)
    ensures
        r@.map_values(|v: Vec<char>| v@) == split_char(s@, c),
{
    let mut done: Vec<Vec<char>> = Vec::new();
    let mut cur: Vec<char> = Vec::new();
    let mut i: usize = 0;
    while i < s.len()
        invariant
            i <= s@.len(),
            done@.map_values(|v: Vec<char>| v@).push(cur@) == split_char(
                s@.subrange(0, i as int),
                c,
            ),
        decreases s@.len() - i,
    {
        let ghost prev = s@.subrange(0, i as int);
        assert(s@.subrange(0, i + 1).drop_last() =~= prev);
        if s[i] == c {
            let old_cur = cur;
            cur = Vec::new();
            done.push(old_cur);
            assert(done@.map_values(|v: Vec<char>| v@).push(cur@) =~= split_char(
                s@.subrange(0, i + 1),
                c,
            ));
        } else {
            cur.push(s[i]);
            assert(done@.map_values(|v: Vec<char>| v@).push(cur@) =~= split_char(
                s@.subrange(0, i + 1),
                c,
            ));
        }
        i = i + 1;
    }
    assert(s@.subrange(0, s@.len() as int) =~= s@);
    done.push(cur);
    assert(done@.map_values(|v: Vec<char>| v@) =~= split_char(s@, c));
    done
}

/// The decimal digit character of `d < 10`.
pub fn digit(d: u64) -> (c: char)
    requires
        d < 10,
    ensures
        c == digit_char(d as nat),
{
    if d == 0 { '0' }
    else if d == 1 { '1' }
    else if d == 2 { '2' }
    else if d == 3 { '3' }
    else if d == 4 { '4' }
    else if d == 5 { '5' }
    else if d == 6 { '6' }
    else if d == 7 { '7' }
    else if d == 8 { '8' }
    else { '9' }
}

/// Decimal rendering of an unsigned integer.
pub fn decimal_string(n: u64) -> (s: String)
    ensures
        s@ == decimal(n as nat),
    decreases n,
{
    if n < 10 {
        let mut s = String::new();
        s.push(digit(n));
        assert(s@ =~= decimal(n as nat));
        s
    } else {
        let mut s = decimal_string(n / 10);
        s.push(digit(n % 10));
        s
    }
}

} // verus!
