//! Input validation: path sanitisation against directory traversal, name
//! checks, and identifier parsing.
//!
//! Paths are handled as `/`-separated character strings: a path is absolute
//! when it starts with `/`, and its components are the pieces between
//! separators, with empty pieces and `.` dropped.
use vstd::prelude::*;
use crate::error::AppError;
use crate::hex;
use crate::text::{
    chars_eq, chars_of, utf8_size, utf8_size_usize, utf8_byte_len, lemma_utf8_size_ge_len,
    lemma_utf8_size_ascii, contains_char, contains_seq, contains_sub, count_nonempty, decimal,
    decimal_string, is_control_char, char_is_control, lemma_split_nonempty, lemma_split_no_sep,
    slice_chars, split_char,
    split_on, string_from_chars, trim, trim_ws,
};

verus! {

/// Maximum allowed name length (in UTF-8 bytes) for drives and other entities.
pub const MAX_NAME_LENGTH: usize = 255;

/// Minimum name length.
pub const MIN_NAME_LENGTH: usize = 1;

/// Maximum path depth to prevent resource exhaustion.
pub const MAX_PATH_DEPTH: usize = 64;

// ---------------------------------------------------------------------------
// Specifications
// ---------------------------------------------------------------------------

/// Characters forbidden in names (for cross-platform compatibility), in the order checked.
pub open spec fn forbidden_name_chars() -> Seq<char> {
    seq!['<', '>', ':', '"', '|', '?', '*', '\0']
}

/// Substrings that indicate a path traversal attempt.
pub open spec fn traversal_patterns() -> Seq<Seq<char>> {
    seq![
        ".."@,
        "..\\"@,
        "../"@,
        "...\\"@,
        ".../"@,
        "%2e%2e"@,
        "%2e%2e%2f"@,
        "%2e%2e/"@,
        "..%2f"@,
        "%2e%2e%5c"@,
        "..%5c"@,
        "%252e"@,
    ]
}

/// Windows device names that cannot be used as file names.
pub open spec fn reserved_names() -> Seq<Seq<char>> {
    seq![
        "CON"@, "PRN"@, "AUX"@, "NUL"@, "COM1"@, "COM2"@, "COM3"@, "COM4"@, "COM5"@, "COM6"@,
        "COM7"@, "COM8"@, "COM9"@, "LPT1"@, "LPT2"@, "LPT3"@, "LPT4"@, "LPT5"@, "LPT6"@, "LPT7"@,
        "LPT8"@, "LPT9"@,
    ]
}

/// `s` with every backslash turned into a slash.
pub open spec fn backslash_to_slash(s: Seq<char>) -> Seq<char> {
    s.map_values(|c: char| if c == '\\' { '/' } else { c })
}

/// `s` holds one of the traversal patterns once backslashes are read as slashes.
pub open spec fn has_traversal(s: Seq<char>) -> bool {
    exists|k: int|
        0 <= k < traversal_patterns().len() && contains_seq(
            backslash_to_slash(s),
            #[trigger] traversal_patterns()[k],
        )
}

/// Number of non-empty `/`-separated pieces of `s` once backslashes are read as slashes.
pub open spec fn path_depth(s: Seq<char>) -> nat {
    count_nonempty(split_char(backslash_to_slash(s), '/'))
}

/// `s` without its leading slashes and backslashes.
pub open spec fn trim_leading_seps(s: Seq<char>) -> Seq<char>
    decreases s.len(),
{
    if s.len() > 0 && (s[0] == '/' || s[0] == '\\') {
        trim_leading_seps(s.drop_first())
    } else {
        s
    }
}

/// A piece that does not name a component: empty, or the current directory.
pub open spec fn is_skipped_piece(p: Seq<char>) -> bool {
    p.len() == 0 || p == seq!['.']
}

/// The pieces that name components, in order.
pub open spec fn keep_components(parts: Seq<Seq<char>>) -> Seq<Seq<char>>
    decreases parts.len(),
{
    if parts.len() == 0 {
        Seq::empty()
    } else {
        let r = keep_components(parts.drop_last());
        if is_skipped_piece(parts.last()) {
            r
        } else {
            r.push(parts.last())
        }
    }
}

/// The components of a path string.
pub open spec fn components(s: Seq<char>) -> Seq<Seq<char>> {
    keep_components(split_char(s, '/'))
}

/// A path string is absolute when it starts with `/`.
pub open spec fn is_absolute(s: Seq<char>) -> bool {
    s.len() > 0 && s[0] == '/'
}

/// Lexical normalisation: `..` removes the previous component, if any.
pub open spec fn normalize_components(c: Seq<Seq<char>>) -> Seq<Seq<char>>
    decreases c.len(),
{
    if c.len() == 0 {
        Seq::empty()
    } else {
        let r = normalize_components(c.drop_last());
        if c.last() == seq!['.', '.'] {
            if r.len() > 0 {
                r.drop_last()
            } else {
                r
            }
        } else {
            r.push(c.last())
        }
    }
}

/// Components joined by `/`.
pub open spec fn join_components(c: Seq<Seq<char>>) -> Seq<char>
    decreases c.len(),
{
    if c.len() == 0 {
        Seq::empty()
    } else if c.len() == 1 {
        c[0]
    } else {
        join_components(c.drop_last()).push('/') + c.last()
    }
}

/// The path string of a component list.
pub open spec fn render_path(absolute: bool, c: Seq<Seq<char>>) -> Seq<char> {
    if absolute {
        seq!['/'] + join_components(c)
    } else {
        join_components(c)
    }
}

/// The normalised components of `user` placed under `base`.
pub open spec fn joined_components(base: Seq<char>, user: Seq<char>) -> Seq<Seq<char>> {
    normalize_components(components(base) + components(trim_leading_seps(user)))
}

/// `a` is a prefix of `b`, element by element.
pub open spec fn is_prefix_of(a: Seq<Seq<char>>, b: Seq<Seq<char>>) -> bool {
    a.len() <= b.len() && b.subrange(0, a.len() as int) == a
}

/// The result that `validate_path` owes for a non-empty user path.
pub open spec fn validate_path_spec(base: Seq<char>, user: Seq<char>) -> Result<Seq<char>, u8> {
    if has_traversal(user) {
        Err(0u8)
    } else if path_depth(user) > MAX_PATH_DEPTH {
        Err(1u8)
    } else if !is_prefix_of(
        normalize_components(components(base)),
        joined_components(base, user),
    ) {
        Err(2u8)
    } else {
        Ok(render_path(is_absolute(base), joined_components(base, user)))
    }
}

/// ASCII upper-casing of one character.
pub open spec fn upper_char(c: char) -> char {
    if 'a' <= c && c <= 'z' {
        ((c as nat) - 32) as char
    } else {
        c
    }
}

/// The part of a file name before its first dot, upper-cased.
pub open spec fn upper_stem(name: Seq<char>) -> Seq<char> {
    split_char(name, '.')[0].map_values(|c: char| upper_char(c))
}

/// The name is one of the reserved device names, whatever its extension.
pub open spec fn is_reserved_name(name: Seq<char>) -> bool {
    reserved_names().contains(upper_stem(name))
}

/// A name that holds none of the forbidden characters.
pub open spec fn has_no_forbidden(name: Seq<char>) -> bool {
    forall|k: int| 0 <= k < forbidden_name_chars().len() ==> !name.contains(
        #[trigger] forbidden_name_chars()[k],
    )
}

/// `is_safe_filename` holds of exactly these names.
pub open spec fn safe_filename(name: Seq<char>) -> bool {
    name.len() > 0 && has_no_forbidden(name) && !is_reserved_name(name)
}


/// Index of the first character of `forbidden_name_chars()` that `name` holds, if any.
pub open spec fn first_forbidden(name: Seq<char>) -> Option<int> {
    if exists|k: int| 0 <= k < 8 && name.contains(#[trigger] forbidden_name_chars()[k]) {
        Some(
            choose|k: int|
                0 <= k < 8 && name.contains(#[trigger] forbidden_name_chars()[k]) && forall|j: int|
                    0 <= j < k ==> !name.contains(forbidden_name_chars()[j]),
        )
    } else {
        None
    }
}

// ---------------------------------------------------------------------------
// Paths
// ---------------------------------------------------------------------------

/// The components of a path string.
pub fn path_components(s: &[char]) -> (r: Vec<Vec<char>>)
    ensures
        r@.map_values(|v: Vec<char>| v@) == components(s@),
{
    let parts = split_on(s, '/');
    let ghost pv = parts@.map_values(|v: Vec<char>| v@);
    let mut r: Vec<Vec<char>> = Vec::new();
    let mut i: usize = 0;
    while i < parts.len()
        invariant
            pv == parts@.map_values(|v: Vec<char>| v@),
            i <= parts@.len(),
            r@.map_values(|v: Vec<char>| v@) == keep_components(pv.subrange(0, i as int)),
        decreases parts@.len() - i,
    {
        assert(pv.subrange(0, i + 1).drop_last() =~= pv.subrange(0, i as int));
        let p = &parts[i];
        let skip = p.len() == 0 || (p.len() == 1 && p[0] == '.');
        assert(skip == is_skipped_piece(pv[i as int])) by {
            if p.len() == 1 && p[0] == '.' {
                assert(p@ =~= seq!['.']);
            }
        }
        assert(pv[i as int] == p@);
        assert(pv.subrange(0, i + 1).last() == pv[i as int]);
        if !skip {
            let ghost before = r@.map_values(|v: Vec<char>| v@);
            let q = slice_chars(p.as_slice(), 0, p.len());
            assert(q@ =~= p@);
            r.push(q);
            assert(r@.map_values(|v: Vec<char>| v@) =~= before.push(pv[i as int]));
        }
        i = i + 1;
    }
    assert(pv.subrange(0, parts@.len() as int) =~= pv);
    r
}

/// Lexical normalisation of a component list.
fn normalize(c: &Vec<Vec<char>>) -> (r: Vec<Vec<char>>)
    ensures
        r@.map_values(|v: Vec<char>| v@) == normalize_components(
            c@.map_values(|v: Vec<char>| v@),
        ),
{
    let ghost cv = c@.map_values(|v: Vec<char>| v@);
    let mut r: Vec<Vec<char>> = Vec::new();
    let mut i: usize = 0;
    while i < c.len()
        invariant
            cv == c@.map_values(|v: Vec<char>| v@),
            i <= c@.len(),
            r@.map_values(|v: Vec<char>| v@) == normalize_components(cv.subrange(0, i as int)),
        decreases c@.len() - i,
    {
        assert(cv.subrange(0, i + 1).drop_last() =~= cv.subrange(0, i as int));
        let p = &c[i];
        let is_parent = p.len() == 2 && p[0] == '.' && p[1] == '.';
        assert(is_parent == (cv[i as int] == seq!['.', '.'])) by {
            if is_parent {
                assert(p@ =~= seq!['.', '.']);
            }
        }
        assert(cv[i as int] == p@);
        assert(cv.subrange(0, i + 1).last() == cv[i as int]);
        let ghost before = r@.map_values(|v: Vec<char>| v@);
        if is_parent {
            if r.len() > 0 {
                r.pop();
                assert(r@.map_values(|v: Vec<char>| v@) =~= before.drop_last());
            }
        } else {
            let q = slice_chars(p.as_slice(), 0, p.len());
            assert(q@ =~= p@);
            r.push(q);
            assert(r@.map_values(|v: Vec<char>| v@) =~= before.push(cv[i as int]));
        }
        i = i + 1;
    }
    assert(cv.subrange(0, c@.len() as int) =~= cv);
    r
}

/// The path string of a component list.
pub(crate) fn render(absolute: bool, c: &Vec<Vec<char>>) -> (s: String)
    ensures
        s@ == render_path(absolute, c@.map_values(|v: Vec<char>| v@)),
{
    let ghost cv = c@.map_values(|v: Vec<char>| v@);
    let mut s = String::new();
    if absolute {
        s.push('/');
    }
    let ghost start = s@;
    let mut i: usize = 0;
    while i < c.len()
        invariant
            cv == c@.map_values(|v: Vec<char>| v@),
            i <= c@.len(),
            start == (if absolute { seq!['/'] } else { Seq::<char>::empty() }),
            s@ == start + join_components(cv.subrange(0, i as int)),
        decreases c@.len() - i,
    {
        assert(cv.subrange(0, i + 1).drop_last() =~= cv.subrange(0, i as int));
        if i > 0 {
            s.push('/');
        }
        let p = &c[i];
        let mut j: usize = 0;
        let ghost before = s@;
        while j < p.len()
            invariant
                j <= p@.len(),
                s@ == before + p@.subrange(0, j as int),
            decreases p@.len() - j,
        {
            s.push(p[j]);
            j = j + 1;
            assert(s@ =~= before + p@.subrange(0, j as int));
        }
        assert(p@.subrange(0, p@.len() as int) =~= p@);
        i = i + 1;
        assert(s@ =~= start + join_components(cv.subrange(0, i as int)));
    }
    assert(cv.subrange(0, c@.len() as int) =~= cv);
    s
}

/// The lexically normalised form of a path string.
pub open spec fn normalized_path(s: Seq<char>) -> Seq<char> {
    render_path(is_absolute(s), normalize_components(components(s)))
}

/// Normalize a path without requiring it to exist: components, then `..` resolution.
pub fn normalize_path(path: &str) -> (r: String)
    ensures
        r@ == normalized_path(path@),
{
    let cs = chars_of(path);
    let comps = path_components(cs.as_slice());
    let n = normalize(&comps);
    let absolute = cs.len() > 0 && cs[0] == '/';
    render(absolute, &n)
}

/// Every component of `c` is a non-empty name other than `.` and `..`, without `/`.
pub open spec fn plain_components(c: Seq<Seq<char>>) -> bool {
    forall|i: int|
        0 <= i < c.len() ==> {
            &&& (#[trigger] c[i]).len() > 0
            &&& c[i] != seq!['.']
            &&& c[i] != seq!['.', '.']
            &&& !c[i].contains('/')
        }
}

/// Splitting at a separator in the middle splits both sides.
pub(crate) proof fn lemma_split_concat(x: Seq<char>, y: Seq<char>, c: char)
    ensures
        split_char(x + seq![c] + y, c) == split_char(x, c) + split_char(y, c),
    decreases y.len(),
{
    if y.len() == 0 {
        assert(x + seq![c] + y =~= x.push(c));
        assert((x.push(c)).drop_last() =~= x);
        assert(split_char(y, c) =~= seq![Seq::<char>::empty()]);
        assert(split_char(x, c).push(Seq::<char>::empty()) =~= split_char(x, c) + split_char(y, c));
    } else {
        let yd = y.drop_last();
        lemma_split_concat(x, yd, c);
        lemma_split_nonempty(yd, c);
        let whole = x + seq![c] + y;
        assert(whole.drop_last() =~= x + seq![c] + yd);
        assert(whole.last() == y.last());
        let r = split_char(x, c) + split_char(yd, c);
        if y.last() == c {
            assert(r.push(Seq::<char>::empty()) =~= split_char(x, c) + split_char(yd, c).push(
                Seq::<char>::empty(),
            ));
        } else {
            let t = split_char(yd, c);
            assert(r.update(r.len() - 1, r.last().push(y.last())) =~= split_char(x, c) + t.update(
                t.len() - 1,
                t.last().push(y.last()),
            ));
        }
    }
}

/// The single empty piece names no component.
proof fn lemma_keep_empty_piece()
    ensures
        keep_components(seq![Seq::<char>::empty()]) == Seq::<Seq<char>>::empty(),
{
    let one = seq![Seq::<char>::empty()];
    assert(one.drop_last() =~= Seq::<Seq<char>>::empty());
    assert(keep_components(Seq::<Seq<char>>::empty()) == Seq::<Seq<char>>::empty());
    assert(one.last() =~= Seq::<char>::empty());
    assert(is_skipped_piece(one.last()));
}

/// Keeping components distributes over concatenation.
proof fn lemma_keep_concat(a: Seq<Seq<char>>, b: Seq<Seq<char>>)
    ensures
        keep_components(a + b) == keep_components(a) + keep_components(b),
    decreases b.len(),
{
    if b.len() == 0 {
        assert(a + b =~= a);
        assert(keep_components(a) + keep_components(b) =~= keep_components(a));
    } else {
        lemma_keep_concat(a, b.drop_last());
        assert((a + b).drop_last() =~= a + b.drop_last());
        assert((a + b).last() == b.last());
        if !is_skipped_piece(b.last()) {
            assert((keep_components(a) + keep_components(b.drop_last())).push(b.last())
                =~= keep_components(a) + keep_components(b.drop_last()).push(b.last()));
        }
    }
}

/// A list of plain components keeps all of them.
proof fn lemma_keep_plain(c: Seq<Seq<char>>)
    requires
        plain_components(c),
    ensures
        keep_components(c) == c,
    decreases c.len(),
{
    if c.len() > 0 {
        assert(plain_components(c.drop_last())) by {
            assert forall|i: int| 0 <= i < c.drop_last().len() implies {
                &&& (#[trigger] c.drop_last()[i]).len() > 0
                &&& c.drop_last()[i] != seq!['.']
                &&& c.drop_last()[i] != seq!['.', '.']
                &&& !c.drop_last()[i].contains('/')
            } by {
                assert(c.drop_last()[i] == c[i]);
            }
        }
        lemma_keep_plain(c.drop_last());
        assert(c[c.len() - 1] == c.last());
        assert(c.drop_last().push(c.last()) =~= c);
    }
}

/// Joining plain components and splitting again gives them back.
proof fn lemma_split_join(c: Seq<Seq<char>>)
    requires
        plain_components(c),
        c.len() > 0,
    ensures
        split_char(join_components(c), '/') == c,
        join_components(c).len() > 0,
        join_components(c)[0] == c[0][0],
    decreases c.len(),
{
    assert(c[0].len() > 0 && !c[0].contains('/'));
    if c.len() == 1 {
        lemma_split_no_sep(c[0], '/');
        assert(c =~= seq![c[0]]);
    } else {
        let d = c.drop_last();
        assert(plain_components(d)) by {
            assert forall|i: int| 0 <= i < d.len() implies {
                &&& (#[trigger] d[i]).len() > 0
                &&& d[i] != seq!['.']
                &&& d[i] != seq!['.', '.']
                &&& !d[i].contains('/')
            } by {
                assert(d[i] == c[i]);
            }
        }
        lemma_split_join(d);
        assert(c[c.len() - 1] == c.last());
        lemma_split_no_sep(c.last(), '/');
        let j = join_components(d);
        assert(join_components(c) == j.push('/') + c.last());
        assert(j.push('/') + c.last() =~= j + seq!['/'] + c.last());
        lemma_split_concat(j, c.last(), '/');
        assert(d + seq![c.last()] =~= c);
        assert(d[0] == c[0]);
        assert((j.push('/') + c.last())[0] == j[0]);
    }
}

/// The components of a rendered list of plain components are that list.
proof fn lemma_components_render(absolute: bool, c: Seq<Seq<char>>)
    requires
        plain_components(c),
    ensures
        components(render_path(absolute, c)) == c,
        is_absolute(render_path(absolute, c)) == absolute,
        forall|i: int|
            0 <= i < split_char(render_path(absolute, c), '/').len() ==> {
                let piece = #[trigger] split_char(render_path(absolute, c), '/')[i];
                piece != seq!['.'] && piece != seq!['.', '.']
            },
{
    let j = join_components(c);
    let pieces = if c.len() == 0 {
        seq![Seq::<char>::empty()]
    } else {
        c
    };
    if c.len() == 0 {
        assert(j =~= Seq::<char>::empty());
        assert(split_char(j, '/') =~= seq![Seq::<char>::empty()]);
    } else {
        lemma_split_join(c);
        assert(c[0].len() > 0 && !c[0].contains('/'));
        assert(c[0][0] != '/') by {
            if c[0][0] == '/' {
                assert(c[0].contains('/'));
            }
        }
        lemma_keep_plain(c);
    }
    assert(split_char(j, '/') == pieces);
    lemma_keep_empty_piece();
    assert(keep_components(pieces) == c);
    if absolute {
        let e = Seq::<char>::empty();
        assert(render_path(absolute, c) =~= e + seq!['/'] + j);
        lemma_split_concat(e, j, '/');
        assert(split_char(e, '/') =~= seq![Seq::<char>::empty()]);
        lemma_keep_concat(seq![Seq::<char>::empty()], pieces);
        assert(Seq::<Seq<char>>::empty() + c =~= c);
        let all = seq![Seq::<char>::empty()] + pieces;
        assert forall|i: int| 0 <= i < all.len() implies #[trigger] all[i] != seq!['.'] && all[i]
            != seq!['.', '.'] by {
            if i > 0 {
                assert(all[i] == pieces[i - 1]);
            } else {
                assert(all[i] =~= Seq::<char>::empty());
            }
        }
    } else {
        assert forall|i: int| 0 <= i < pieces.len() implies #[trigger] pieces[i] != seq!['.']
            && pieces[i] != seq!['.', '.'] by {
            if c.len() == 0 {
                assert(pieces[i] =~= Seq::<char>::empty());
            }
        }
    }
}

/// Every component is a non-empty name other than `.`, without `/`.
pub open spec fn named_components(c: Seq<Seq<char>>) -> bool {
    forall|i: int|
        0 <= i < c.len() ==> {
            &&& (#[trigger] c[i]).len() > 0
            &&& c[i] != seq!['.']
            &&& !c[i].contains('/')
        }
}

/// The components of a path string are non-empty names other than `.`, without `/`.
proof fn lemma_components_named(s: Seq<char>)
    ensures
        named_components(components(s)),
{
    let parts = split_char(s, '/');
    lemma_split_pieces_no_sep(s, '/');
    lemma_keep_subset(parts);
    let k = components(s);
    assert forall|i: int| 0 <= i < k.len() implies !(#[trigger] k[i]).contains('/') by {
        let j = choose|j: int| 0 <= j < parts.len() && parts[j] == k[i];
        assert(!parts[j].contains('/'));
    }
}

/// Normalising named components leaves plain components.
proof fn lemma_normalize_plain(c: Seq<Seq<char>>)
    requires
        named_components(c),
    ensures
        plain_components(normalize_components(c)),
    decreases c.len(),
{
    if c.len() > 0 {
        let d = c.drop_last();
        assert(named_components(d)) by {
            assert forall|i: int| 0 <= i < d.len() implies {
                &&& (#[trigger] d[i]).len() > 0
                &&& d[i] != seq!['.']
                &&& !d[i].contains('/')
            } by {
                assert(d[i] == c[i]);
            }
        }
        lemma_normalize_plain(d);
        let r = normalize_components(d);
        assert(c[c.len() - 1] == c.last());
        if c.last() == seq!['.', '.'] {
            if r.len() > 0 {
                assert forall|i: int| 0 <= i < r.drop_last().len() implies {
                    &&& (#[trigger] r.drop_last()[i]).len() > 0
                    &&& r.drop_last()[i] != seq!['.']
                    &&& r.drop_last()[i] != seq!['.', '.']
                    &&& !r.drop_last()[i].contains('/')
                } by {
                    assert(r.drop_last()[i] == r[i]);
                }
            }
        } else {
            let t = r.push(c.last());
            assert forall|i: int| 0 <= i < t.len() implies {
                &&& (#[trigger] t[i]).len() > 0
                &&& t[i] != seq!['.']
                &&& t[i] != seq!['.', '.']
                &&& !t[i].contains('/')
            } by {
                if i < r.len() {
                    assert(t[i] == r[i]);
                }
            }
        }
    }
}

/// Plain components are already normal.
proof fn lemma_normalize_fixed(c: Seq<Seq<char>>)
    requires
        plain_components(c),
    ensures
        normalize_components(c) == c,
    decreases c.len(),
{
    if c.len() > 0 {
        let d = c.drop_last();
        assert(plain_components(d)) by {
            assert forall|i: int| 0 <= i < d.len() implies {
                &&& (#[trigger] d[i]).len() > 0
                &&& d[i] != seq!['.']
                &&& d[i] != seq!['.', '.']
                &&& !d[i].contains('/')
            } by {
                assert(d[i] == c[i]);
            }
        }
        lemma_normalize_fixed(d);
        assert(c[c.len() - 1] == c.last());
        assert(d.push(c.last()) =~= c);
    }
}

/// Normalising a path twice gives what normalising it once gives, and no
/// `/`-separated piece of a normalised path is `.` or `..`.
pub proof fn law_normalize_path_idempotent(p: Seq<char>)
    ensures
        normalized_path(normalized_path(p)) == normalized_path(p),
        forall|i: int|
            0 <= i < split_char(normalized_path(p), '/').len() ==> {
                let piece = #[trigger] split_char(normalized_path(p), '/')[i];
                piece != seq!['.'] && piece != seq!['.', '.']
            },
{
    let n = normalize_components(components(p));
    lemma_components_named(p);
    lemma_normalize_plain(components(p));
    lemma_components_render(is_absolute(p), n);
    lemma_normalize_fixed(n);
}

/// No piece of a split holds the separator.
proof fn lemma_split_pieces_no_sep(s: Seq<char>, c: char)
    ensures
        forall|i: int| 0 <= i < split_char(s, c).len() ==> !(#[trigger] split_char(s, c)[i]).contains(c),
    decreases s.len(),
{
    if s.len() > 0 {
        lemma_split_pieces_no_sep(s.drop_last(), c);
        lemma_split_nonempty(s.drop_last(), c);
        let r = split_char(s.drop_last(), c);
        if s.last() != c {
            let k = r.len() - 1;
            let t = r.update(k, r.last().push(s.last()));
            assert forall|i: int| 0 <= i < t.len() implies !(#[trigger] t[i]).contains(c) by {
                if i == k {
                    assert(r[k] == r.last());
                    if t[i].contains(c) {
                        let j = choose|j: int| 0 <= j < t[i].len() && t[i][j] == c;
                        if j < r.last().len() {
                            assert(r[k][j] == c);
                            assert(r[k].contains(c));
                        }
                    }
                } else {
                    assert(t[i] == r[i]);
                }
            }
        } else {
            let t = r.push(Seq::<char>::empty());
            assert forall|i: int| 0 <= i < t.len() implies !(#[trigger] t[i]).contains(c) by {
                if i < r.len() {
                    assert(t[i] == r[i]);
                }
            }
        }
    }
}

/// Kept components are pieces that are neither empty nor `.`.
proof fn lemma_keep_subset(parts: Seq<Seq<char>>)
    ensures
        forall|i: int|
            0 <= i < keep_components(parts).len() ==> {
                &&& (#[trigger] keep_components(parts)[i]).len() > 0
                &&& keep_components(parts)[i] != seq!['.']
                &&& exists|j: int| 0 <= j < parts.len() && parts[j] == keep_components(parts)[i]
            },
    decreases parts.len(),
{
    if parts.len() > 0 {
        let d = parts.drop_last();
        lemma_keep_subset(d);
        let r = keep_components(d);
        assert forall|i: int| 0 <= i < keep_components(parts).len() implies {
            &&& (#[trigger] keep_components(parts)[i]).len() > 0
            &&& keep_components(parts)[i] != seq!['.']
            &&& exists|j: int| 0 <= j < parts.len() && parts[j] == keep_components(parts)[i]
        } by {
            if i < r.len() {
                assert(keep_components(parts)[i] == r[i]);
                let j = choose|j: int| 0 <= j < d.len() && d[j] == r[i];
                assert(parts[j] == d[j]);
            } else {
                assert(keep_components(parts)[i] == parts.last());
                assert(parts[parts.len() - 1] == parts.last());
            }
        }
    }
}

/// `s` without its leading slashes and backslashes.
fn trim_seps(s: &[char]) -> (r: Vec<char>)
    ensures
        r@ == trim_leading_seps(s@),
{
    let mut i: usize = 0;
    assert(s@.subrange(0, s@.len() as int) =~= s@);
    while i < s.len() && (s[i] == '/' || s[i] == '\\')
        invariant
            i <= s@.len(),
            trim_leading_seps(s@) == trim_leading_seps(s@.subrange(i as int, s@.len() as int)),
        decreases s@.len() - i,
    {
        assert(s@.subrange(i as int, s@.len() as int).drop_first() =~= s@.subrange(
            i + 1,
            s@.len() as int,
        ));
        i = i + 1;
    }
    let r = slice_chars(s, i, s.len());
    assert(i == s@.len() ==> r@ =~= Seq::<char>::empty());
    r
}

/// Whether `s` (with backslashes read as slashes) holds a traversal pattern.
fn find_traversal(s: &[char]) -> (r: bool)
    requires
        s@ == backslash_to_slash(s@),
    ensures
        r == exists|k: int|
            0 <= k < traversal_patterns().len() && contains_seq(
                s@,
                #[trigger] traversal_patterns()[k],
            ),
{
    let patterns: [&str; 12] = [
        "..",
        "..\\",
        "../",
        "...\\",
        ".../",
        "%2e%2e",
        "%2e%2e%2f",
        "%2e%2e/",
        "..%2f",
        "%2e%2e%5c",
        "..%5c",
        "%252e",
    ];
    let mut k: usize = 0;
    while k < 12
        invariant
            k <= 12,
            forall|j: int| 0 <= j < 12 ==> (#[trigger] patterns@[j])@ == traversal_patterns()[j],
            forall|j: int| 0 <= j < k ==> !contains_seq(s@, #[trigger] traversal_patterns()[j]),
        decreases 12 - k,
    {
        let p = chars_of(patterns[k]);
        if contains_sub(s, p.as_slice()) {
            assert(contains_seq(s@, traversal_patterns()[k as int]));
            return true;
        }
        k = k + 1;
    }
    false
}

/// `s` with every backslash turned into a slash.
fn replace_backslashes(s: &[char]) -> (r: Vec<char>)
    ensures
        r@ == backslash_to_slash(s@),
{
    let mut r: Vec<char> = Vec::new();
    let mut i: usize = 0;
    while i < s.len()
        invariant
            i <= s@.len(),
            r@ == backslash_to_slash(s@.subrange(0, i as int)),
        decreases s@.len() - i,
    {
        let c = s[i];
        r.push(if c == '\\' { '/' } else { c });
        i = i + 1;
        assert(r@ =~= backslash_to_slash(s@.subrange(0, i as int)));
    }
    assert(s@.subrange(0, s@.len() as int) =~= s@);
    r
}

/// Number of non-empty pieces in a split.
fn count_nonempty_parts(parts: &Vec<Vec<char>>) -> (n: usize)
    ensures
        n == count_nonempty(parts@.map_values(|v: Vec<char>| v@)),
{
    let ghost pv = parts@.map_values(|v: Vec<char>| v@);
    let mut n: usize = 0;
    let mut i: usize = 0;
    while i < parts.len()
        invariant
            pv == parts@.map_values(|v: Vec<char>| v@),
            i <= parts@.len(),
            n == count_nonempty(pv.subrange(0, i as int)),
            n <= i,
        decreases parts@.len() - i,
    {
        assert(pv.subrange(0, i + 1).drop_last() =~= pv.subrange(0, i as int));
        if parts[i].len() > 0 {
            n = n + 1;
        }
        i = i + 1;
    }
    assert(pv.subrange(0, parts@.len() as int) =~= pv);
    n
}

/// Whether `a` is an element-wise prefix of `b`.
pub(crate) fn components_prefix(a: &Vec<Vec<char>>, b: &Vec<Vec<char>>) -> (r: bool)
    ensures
        r == is_prefix_of(a@.map_values(|v: Vec<char>| v@), b@.map_values(|v: Vec<char>| v@)),
{
    let ghost av = a@.map_values(|v: Vec<char>| v@);
    let ghost bv = b@.map_values(|v: Vec<char>| v@);
    if a.len() > b.len() {
        return false;
    }
    let mut i: usize = 0;
    while i < a.len()
        invariant
            av == a@.map_values(|v: Vec<char>| v@),
            bv == b@.map_values(|v: Vec<char>| v@),
            a@.len() <= b@.len(),
            i <= a@.len(),
            forall|j: int| 0 <= j < i ==> av[j] == bv[j],
        decreases a@.len() - i,
    {
        if !chars_eq(a[i].as_slice(), b[i].as_slice()) {
            assert(bv.subrange(0, av.len() as int)[i as int] != av[i as int]);
            return false;
        }
        i = i + 1;
    }
    assert(bv.subrange(0, av.len() as int) =~= av);
    true
}

/// Validate a user-supplied path against the drive root `base_path`.
///
/// An empty path names the root itself. Otherwise the path is rejected when it
/// holds a traversal pattern, when it is deeper than `MAX_PATH_DEPTH`, or when
/// its normalised form would leave the root; else the normalised joined path is
/// returned.
pub fn validate_path(base_path: &str, user_path: &str) -> (r: Result<String, AppError>)
    ensures
        user_path@.len() == 0 ==> (r matches Ok(p) && p@ == base_path@),
        user_path@.len() > 0 ==> match (r, validate_path_spec(base_path@, user_path@)) {
            (Ok(p), Ok(q)) => p@ == q,
            (Err(AppError::PathTraversal { path }), Err(0u8)) => path@ == user_path@,
            (Err(AppError::InvalidPath { path, reason }), Err(1u8)) => path@ == user_path@
                && reason@ == "Path too deep (max 64 levels)"@,
            (Err(AppError::PathOutsideDrive { path }), Err(2u8)) => path@ == user_path@,
            _ => false,
        },
{
    if user_path.is_empty() {
        return Ok(String::from_str(base_path));
    }
    let user = chars_of(user_path);
    let normalized = replace_backslashes(user.as_slice());
    proof {
        assert(backslash_to_slash(normalized@) =~= normalized@);
    }
    if find_traversal(normalized.as_slice()) {
        return Err(AppError::PathTraversal { path: String::from_str(user_path) });
    }
    let pieces = split_on(normalized.as_slice(), '/');
    let depth = count_nonempty_parts(&pieces);
    if depth > MAX_PATH_DEPTH {
        return Err(
            AppError::InvalidPath {
                path: String::from_str(user_path),
                reason: String::from_str("Path too deep (max 64 levels)"),
            },
        );
    }
    let base = chars_of(base_path);
    let trimmed = trim_seps(user.as_slice());
    let mut full = path_components(base.as_slice());
    let base_len = full.len();
    let ghost base_comps = full@.map_values(|v: Vec<char>| v@);
    let mut user_comps = path_components(trimmed.as_slice());
    let ghost user_cv = user_comps@.map_values(|v: Vec<char>| v@);
    full.append(&mut user_comps);
    assert(full@.map_values(|v: Vec<char>| v@) =~= base_comps + user_cv);
    let resolved = normalize(&full);
    let base_only = path_components(base.as_slice());
    let base_resolved = normalize(&base_only);
    if !components_prefix(&base_resolved, &resolved) {
        return Err(AppError::PathOutsideDrive { path: String::from_str(user_path) });
    }
    let absolute = base.len() > 0 && base[0] == '/';
    Ok(render(absolute, &resolved))
}

// ---------------------------------------------------------------------------
// Names
// ---------------------------------------------------------------------------

/// ASCII upper-casing of one character.
fn to_upper(c: char) -> (u: char)
    ensures
        u == upper_char(c),
{
    if 'a' <= c && c <= 'z' {
        ((c as u32) - 32) as u8 as char
    } else {
        c
    }
}

/// Whether the name is one of the reserved device names, whatever its extension.
///
/// Only ASCII letters upper-case into the letters of these device names, so
/// ASCII upper-casing decides this exactly as full Unicode upper-casing does.
fn reserved_stem(name: &[char]) -> (r: bool)
    ensures
        r == is_reserved_name(name@),
{
    let pieces = split_on(name, '.');
    proof {
        lemma_split_nonempty(name@, '.');
    }
    assert(pieces@.map_values(|v: Vec<char>| v@)[0] == pieces@[0]@);
    let first = &pieces[0];
    let mut stem: Vec<char> = Vec::new();
    let mut i: usize = 0;
    while i < first.len()
        invariant
            i <= first@.len(),
            stem@ == first@.subrange(0, i as int).map_values(|c: char| upper_char(c)),
        decreases first@.len() - i,
    {
        stem.push(to_upper(first[i]));
        i = i + 1;
        assert(stem@ =~= first@.subrange(0, i as int).map_values(|c: char| upper_char(c)));
    }
    assert(first@.subrange(0, first@.len() as int) =~= first@);
    let reserved: [&str; 22] = [
        "CON", "PRN", "AUX", "NUL", "COM1", "COM2", "COM3", "COM4", "COM5", "COM6", "COM7",
        "COM8", "COM9", "LPT1", "LPT2", "LPT3", "LPT4", "LPT5", "LPT6", "LPT7", "LPT8", "LPT9",
    ];
    let mut k: usize = 0;
    while k < 22
        invariant
            k <= 22,
            stem@ == upper_stem(name@),
            forall|j: int| 0 <= j < 22 ==> (#[trigger] reserved@[j])@ == reserved_names()[j],
            forall|j: int| 0 <= j < k ==> reserved_names()[j] != stem@,
        decreases 22 - k,
    {
        let rk = chars_of(reserved[k]);
        if chars_eq(rk.as_slice(), stem.as_slice()) {
            assert(reserved_names()[k as int] == stem@);
            return true;
        }
        k = k + 1;
    }
    assert(!reserved_names().contains(stem@)) by {
        if reserved_names().contains(stem@) {
            let j = choose|j: int| 0 <= j < reserved_names().len() && reserved_names()[j] == stem@;
            assert(reserved_names()[j] != stem@);
        }
    }
    false
}

/// The index of the first forbidden character (in list order) that `name` holds.
fn find_forbidden(name: &[char]) -> (r: Option<usize>)
    ensures
        r matches Some(k) ==> k < 8 && first_forbidden(name@) == Some(k as int),
        r is None ==> first_forbidden(name@) is None && has_no_forbidden(name@),
{
    let forbidden: [char; 8] = ['<', '>', ':', '"', '|', '?', '*', '\0'];
    assert(forbidden@ =~= forbidden_name_chars());
    let mut k: usize = 0;
    while k < 8
        invariant
            k <= 8,
            forbidden@ == forbidden_name_chars(),
            forall|j: int| 0 <= j < k ==> !name@.contains(forbidden_name_chars()[j]),
        decreases 8 - k,
    {
        if contains_char(name, forbidden[k]) {
            assert(name@.contains(forbidden_name_chars()[k as int]));
            let ghost w = first_forbidden(name@);
            assert(w is Some);
            assert(w == Some(k as int)) by {
                let c = choose|c: int|
                    0 <= c < 8 && name@.contains(#[trigger] forbidden_name_chars()[c]) && forall|
                        j: int,
                    | 0 <= j < c ==> !name@.contains(forbidden_name_chars()[j]);
                assert(exists|c: int|
                    0 <= c < 8 && name@.contains(#[trigger] forbidden_name_chars()[c])
                        && forall|j: int|
                        0 <= j < c ==> !name@.contains(forbidden_name_chars()[j])) by {
                    assert(0 <= k < 8 && name@.contains(forbidden_name_chars()[k as int]));
                }
                if c < k {
                } else if c > k {
                    assert(!name@.contains(forbidden_name_chars()[k as int]));
                }
            }
            return Some(k);
        }
        k = k + 1;
    }
    None
}

/// Check if a file name is safe for filesystem operations: non-empty, no
/// forbidden characters, and not a reserved device name.
pub fn is_safe_filename(name: &str) -> (r: bool)
    ensures
        r == safe_filename(name@),
{
    if name.is_empty() {
        return false;
    }
    let cs = chars_of(name);
    if find_forbidden(cs.as_slice()).is_some() {
        return false;
    }
    !reserved_stem(cs.as_slice())
}

/// Whether any character of `s` is a control character.
fn has_control(s: &[char]) -> (r: bool)
    ensures
        r == exists|i: int| 0 <= i < s@.len() && is_control_char(#[trigger] s@[i]),
{
    let mut i: usize = 0;
    while i < s.len()
        invariant
            i <= s@.len(),
            forall|j: int| 0 <= j < i ==> !is_control_char(#[trigger] s@[j]),
        decreases s@.len() - i,
    {
        if char_is_control(s[i]) {
            return true;
        }
        i = i + 1;
    }
    false
}

/// Validate a name (drive name, file name, ...) and return it trimmed.
///
/// The trimmed name must be non-empty, at most `MAX_NAME_LENGTH` UTF-8 bytes,
/// free of forbidden and control characters, and not a reserved device name.
pub fn validate_name(name: &str, field_name: &str) -> (r: Result<String, AppError>)
    ensures
        ({
            let t = trim_ws(name@);
            match r {
                Ok(s) => s@ == t && t.len() > 0 && utf8_size(t) <= MAX_NAME_LENGTH
                    && has_no_forbidden(t) && !(exists|i: int|
                    0 <= i < t.len() && is_control_char(#[trigger] t[i]))
                    && !is_reserved_name(t),
                Err(AppError::NameEmpty) => t.len() == 0,
                Err(AppError::NameTooLong { max }) => t.len() > 0 && utf8_size(t)
                    > MAX_NAME_LENGTH && max == MAX_NAME_LENGTH,
                Err(AppError::ValidationFailed { field, reason }) => field@ == field_name@
                    && t.len() > 0 && utf8_size(t) <= MAX_NAME_LENGTH && match first_forbidden(t) {
                    Some(k) => reason@ == "Contains forbidden character: '"@.push(
                        forbidden_name_chars()[k],
                    ) + "'"@,
                    None => if exists|i: int| 0 <= i < t.len() && is_control_char(#[trigger] t[i]) {
                        reason@ == "Contains control characters"@
                    } else {
                        is_reserved_name(t) && reason@ == "Reserved filename"@
                    },
                },
                _ => false,
            }
        }),
{
    let cs = chars_of(name);
    let trimmed = trim(cs.as_slice());
    let t = string_from_chars(trimmed.as_slice());
    let byte_len = utf8_byte_len(trimmed.as_slice());
    proof {
        lemma_utf8_size_ge_len(trimmed@);
    }
    if byte_len < MIN_NAME_LENGTH {
        return Err(AppError::NameEmpty);
    }
    assert(trimmed@.len() > 0);
    if byte_len > MAX_NAME_LENGTH {
        return Err(AppError::NameTooLong { max: MAX_NAME_LENGTH });
    }
    match find_forbidden(trimmed.as_slice()) {
        Some(k) => {
            let forbidden: [char; 8] = ['<', '>', ':', '"', '|', '?', '*', '\0'];
            assert(forbidden@ =~= forbidden_name_chars());
            let mut reason = String::from_str("Contains forbidden character: '");
            reason.push(forbidden[k]);
            reason.append("'");
            return Err(
                AppError::ValidationFailed { field: String::from_str(field_name), reason },
            );
        },
        None => {},
    }
    if has_control(trimmed.as_slice()) {
        return Err(
            AppError::ValidationFailed {
                field: String::from_str(field_name),
                reason: String::from_str("Contains control characters"),
            },
        );
    }
    if reserved_stem(trimmed.as_slice()) {
        return Err(
            AppError::ValidationFailed {
                field: String::from_str(field_name),
                reason: String::from_str("Reserved filename"),
            },
        );
    }
    Ok(t)
}

// ---------------------------------------------------------------------------
// Identifiers
// ---------------------------------------------------------------------------

/// Text of the length error for a 64-character identifier.
fn length_message(n: usize) -> (s: String)
    ensures
        s@ == "Expected 64 hex chars, got "@ + decimal(n as nat),
{
    let mut s = String::from_str("Expected 64 hex chars, got ");
    let d = decimal_string(n as u64);
    s.append(d.as_str());
    s
}

/// Decode a 64-character hex string into 32 bytes.
fn decode_32(text: &str) -> (r: Option<[u8; 32]>)
    requires
        utf8_size(text@) == 64,
    ensures
        r is Some <==> hex::is_hex(text@),
        r matches Some(a) ==> a@ == hex::hex_decode(text@),
{
    match hex::decode(text) {
        Ok(bytes) => {
            proof {
                assert forall|i: int| 0 <= i < text@.len() implies #[trigger] text@[i]
                    <= '\u{7f}' by {
                    assert(hex::hex_value(text@[i]) is Some);
                }
                lemma_utf8_size_ascii(text@);
            }
            let mut arr = [0u8; 32];
            let mut i: usize = 0;
            while i < 32
                invariant
                    bytes@.len() == 32,
                    i <= 32,
                    forall|j: int| 0 <= j < i ==> arr@[j] == bytes@[j],
                decreases 32 - i,
            {
                arr[i] = bytes[i];
                i = i + 1;
            }
            assert(arr@ =~= bytes@);
            Some(arr)
        },
        Err(_) => None,
    }
}

/// Validate a hex-encoded drive ID and decode it.
pub fn validate_drive_id(drive_id: &str) -> (r: Result<[u8; 32], AppError>)
    ensures
        utf8_size(drive_id@) != 64 ==> (r matches Err(AppError::InvalidDriveId { id }) && id@
            == "Expected 64 hex chars, got "@ + decimal(utf8_size_usize(drive_id@))),
        utf8_size(drive_id@) == 64 && !hex::is_hex(drive_id@) ==> (r matches Err(
            AppError::InvalidDriveId { id },
        ) && id@ == "Invalid hex encoding"@),
        utf8_size(drive_id@) == 64 && hex::is_hex(drive_id@) ==> (r matches Ok(a) && a@
            == hex::hex_decode(drive_id@)),
{
    let n = utf8_byte_len(chars_of(drive_id).as_slice());
    if n != 64 {
        return Err(AppError::InvalidDriveId { id: length_message(n) });
    }
    match decode_32(drive_id) {
        Some(a) => Ok(a),
        None => Err(AppError::InvalidDriveId { id: String::from_str("Invalid hex encoding") }),
    }
}

/// Validate a node ID (public key hex) and decode it.
pub fn validate_node_id(node_id: &str) -> (r: Result<[u8; 32], AppError>)
    ensures
        utf8_size(node_id@) != 64 ==> (r matches Err(
            AppError::ValidationFailed { field, reason },
        ) && field@ == "node_id"@ && reason@ == "Expected 64 hex chars, got "@ + decimal(
            utf8_size_usize(node_id@),
        )),
        utf8_size(node_id@) == 64 && !hex::is_hex(node_id@) ==> (r matches Err(
            AppError::ValidationFailed { field, reason },
        ) && field@ == "node_id"@ && reason@ == "Invalid hex encoding"@),
        utf8_size(node_id@) == 64 && hex::is_hex(node_id@) ==> (r matches Ok(a) && a@
            == hex::hex_decode(node_id@)),
{
    let n = utf8_byte_len(chars_of(node_id).as_slice());
    if n != 64 {
        return Err(
            AppError::ValidationFailed {
                field: String::from_str("node_id"),
                reason: length_message(n),
            },
        );
    }
    match decode_32(node_id) {
        Some(a) => Ok(a),
        None => Err(
            AppError::ValidationFailed {
                field: String::from_str("node_id"),
                reason: String::from_str("Invalid hex encoding"),
            },
        ),
    }
}

} // verus!
