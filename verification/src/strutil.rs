//! String helpers over `Seq<char>` views: substring search, prefix and
//! suffix tests, path-component prefixes, decimal rendering, and
//! ASCII-insensitive search. All path and name rules of the library are
//! stated over these spec functions.
use vstd::prelude::*;
use vstd::string::StrSliceExecFns;
use vstd::string::StringExecFns;

verus! {

/// `pat` occurs in `hay` starting at position `i`.
pub open spec fn sub_at(hay: Seq<char>, pat: Seq<char>, i: int) -> bool {
    0 <= i && i + pat.len() <= hay.len() && hay.subrange(i, i + pat.len()) =~= pat
}

/// `pat` occurs somewhere in `hay`.
pub open spec fn contains_seq(hay: Seq<char>, pat: Seq<char>) -> bool {
    exists|i: int| sub_at(hay, pat, i)
}

/// `hay` starts with `pat`.
pub open spec fn has_prefix(hay: Seq<char>, pat: Seq<char>) -> bool {
    pat.len() <= hay.len() && hay.subrange(0, pat.len() as int) =~= pat
}

/// `hay` ends with `pat`.
pub open spec fn has_suffix(hay: Seq<char>, pat: Seq<char>) -> bool {
    pat.len() <= hay.len() && hay.subrange(hay.len() - pat.len(), hay.len() as int) =~= pat
}

/// `prefix` is a whole-component prefix of the absolute path `path`:
/// either the two are equal or the next character of `path` is a slash.
pub open spec fn is_path_prefix(path: Seq<char>, prefix: Seq<char>) -> bool {
    has_prefix(path, prefix) && (path.len() == prefix.len() || path[prefix.len() as int] == '/')
}

/// `pat` matches `hay` at position `i` (all characters equal).
fn match_at(hay: &str, pat: &str, i: usize, hay_len: usize, pat_len: usize) -> (r: bool)
    requires
        hay_len == hay@.len(),
        pat_len == pat@.len(),
        i + pat_len <= hay_len,
    ensures
        r == sub_at(hay@, pat@, i as int),
{
    let mut j: usize = 0;
    while j < pat_len
        invariant
            hay_len == hay@.len(),
            pat_len == pat@.len(),
            i + pat_len <= hay_len,
            j <= pat_len,
            forall|k: int| 0 <= k < j ==> hay@[i + k] == pat@[k],
        decreases pat_len - j,
    {
        if hay.get_char(i + j) != pat.get_char(j) {
            assert(!sub_at(hay@, pat@, i as int)) by {
                assert(hay@.subrange(i as int, i + pat@.len())[j as int] == hay@[i + j]);
            }
            return false;
        }
        j += 1;
    }
    assert(hay@.subrange(i as int, i + pat@.len()) =~= pat@);
    true
}

/// Substring search: does `pat` occur anywhere in `hay`?
pub fn str_contains(hay: &str, pat: &str) -> (r: bool)
    ensures
        r == contains_seq(hay@, pat@),
{
    let n = hay.unicode_len();
    let m = pat.unicode_len();
    if m > n {
        return false;
    }
    let mut i: usize = 0;
    while i <= n - m
        invariant
            n == hay@.len(),
            m == pat@.len(),
            m <= n,
            i <= n - m + 1,
            forall|k: int| 0 <= k < i ==> !sub_at(hay@, pat@, k),
        decreases n - m + 1 - i,
    {
        if match_at(hay, pat, i, n, m) {
            return true;
        }
        i += 1;
    }
    false
}

/// Prefix test: does `hay` start with `pat`?
pub fn str_has_prefix(hay: &str, pat: &str) -> (r: bool)
    ensures
        r == has_prefix(hay@, pat@),
{
    let n = hay.unicode_len();
    let m = pat.unicode_len();
    if m > n {
        return false;
    }
    match_at(hay, pat, 0, n, m)
}

/// Suffix test: does `hay` end with `pat`?
pub fn str_has_suffix(hay: &str, pat: &str) -> (r: bool)
    ensures
        r == has_suffix(hay@, pat@),
{
    let n = hay.unicode_len();
    let m = pat.unicode_len();
    if m > n {
        return false;
    }
    match_at(hay, pat, n - m, n, m)
}

/// Character-wise equality of two string slices.
pub fn str_eq(a: &str, b: &str) -> (r: bool)
    ensures
        r == (a@ =~= b@),
{
    let n = a.unicode_len();
    let m = b.unicode_len();
    if n != m {
        return false;
    }
    match_at(a, b, 0, n, m)
}

/// Whole-component prefix test for absolute paths.
pub fn str_is_path_prefix(path: &str, prefix: &str) -> (r: bool)
    ensures
        r == is_path_prefix(path@, prefix@),
{
    if !str_has_prefix(path, prefix) {
        return false;
    }
    let n = path.unicode_len();
    let m = prefix.unicode_len();
    if n == m {
        true
    } else {
        path.get_char(m) == '/'
    }
}

/// `dir` and `name` joined with a slash.
pub fn join_path(dir: &str, name: &str) -> (r: String)
    ensures
        r@ =~= dir@ + "/"@ + name@,
{
    let s = String::from_str(dir);
    let s = s.concat("/");
    s.concat(name)
}

/// The decimal digit `d` as a character.
pub open spec fn digit_char(d: u64) -> char {
    if d == 0 {
        '0'
    } else if d == 1 {
        '1'
    } else if d == 2 {
        '2'
    } else if d == 3 {
        '3'
    } else if d == 4 {
        '4'
    } else if d == 5 {
        '5'
    } else if d == 6 {
        '6'
    } else if d == 7 {
        '7'
    } else if d == 8 {
        '8'
    } else {
        '9'
    }
}

/// The decimal rendering of `n`, most significant digit first.
pub open spec fn dec_digits(n: u64) -> Seq<char>
    decreases n,
{
    if n < 10 {
        seq![digit_char(n)]
    } else {
        dec_digits(n / 10).push(digit_char(n % 10))
    }
}

/// The decimal digit `d` as a one-character string slice.
pub fn digit_str(d: u64) -> (s: &'static str)
    requires
        d < 10,
    ensures
        s@ =~= seq![digit_char(d)],
{
    proof {
        reveal_strlit("0");
        reveal_strlit("1");
        reveal_strlit("2");
        reveal_strlit("3");
        reveal_strlit("4");
        reveal_strlit("5");
        reveal_strlit("6");
        reveal_strlit("7");
        reveal_strlit("8");
        reveal_strlit("9");
    }
    match d {
        0 => "0",
        1 => "1",
        2 => "2",
        3 => "3",
        4 => "4",
        5 => "5",
        6 => "6",
        7 => "7",
        8 => "8",
        _ => "9",
    }
}

/// Render `n` in decimal.
pub fn u64_to_string(n: u64) -> (s: String)
    ensures
        s@ =~= dec_digits(n),
    decreases n,
{
    if n < 10 {
        String::from_str(digit_str(n))
    } else {
        let s = u64_to_string(n / 10);
        s.concat(digit_str(n % 10))
    }
}

/// ASCII lower-casing of a single character; other characters unchanged.
pub open spec fn lower_char(c: char) -> char {
    if 'A' <= c && c <= 'Z' {
        (((c as u32) + 32) as u8) as char
    } else {
        c
    }
}

/// `s` with every ASCII upper-case letter lowered.
pub open spec fn ascii_lower(s: Seq<char>) -> Seq<char> {
    Seq::new(s.len(), |i: int| lower_char(s[i]))
}

/// Lower one character (ASCII case folding only).
fn lower_char_exec(c: char) -> (r: char)
    ensures
        r == lower_char(c),
{
    if 'A' <= c && c <= 'Z' {
        (((c as u32) + 32) as u8) as char
    } else {
        c
    }
}

/// `pat` matches `hay` at `i` after ASCII-lowering `hay`; `pat` is
/// expected to be already lower-case.
fn match_at_lower(hay: &str, pat: &str, i: usize, hay_len: usize, pat_len: usize) -> (r: bool)
    requires
        hay_len == hay@.len(),
        pat_len == pat@.len(),
        i + pat_len <= hay_len,
    ensures
        r == sub_at(ascii_lower(hay@), pat@, i as int),
{
    let mut j: usize = 0;
    while j < pat_len
        invariant
            hay_len == hay@.len(),
            pat_len == pat@.len(),
            i + pat_len <= hay_len,
            j <= pat_len,
            forall|k: int| 0 <= k < j ==> ascii_lower(hay@)[i + k] == pat@[k],
        decreases pat_len - j,
    {
        if lower_char_exec(hay.get_char(i + j)) != pat.get_char(j) {
            assert(!sub_at(ascii_lower(hay@), pat@, i as int)) by {
                assert(ascii_lower(hay@).subrange(i as int, i + pat@.len())[j as int]
                    == ascii_lower(hay@)[i + j]);
            }
            return false;
        }
        j += 1;
    }
    assert(ascii_lower(hay@).subrange(i as int, i + pat@.len()) =~= pat@);
    true
}

/// Does `pat` occur in the ASCII-lowered form of `hay`?
pub fn str_contains_lower(hay: &str, pat: &str) -> (r: bool)
    ensures
        r == contains_seq(ascii_lower(hay@), pat@),
{
    let n = hay.unicode_len();
    let m = pat.unicode_len();
    if m > n {
        return false;
    }
    let mut i: usize = 0;
    while i <= n - m
        invariant
            n == hay@.len(),
            m == pat@.len(),
            m <= n,
            i <= n - m + 1,
            forall|k: int| 0 <= k < i ==> !sub_at(ascii_lower(hay@), pat@, k),
        decreases n - m + 1 - i,
    {
        if match_at_lower(hay, pat, i, n, m) {
            return true;
        }
        i += 1;
    }
    false
}

/// Lexicographic order on character sequences, by code point.
pub open spec fn lex_le(a: Seq<char>, b: Seq<char>) -> bool
    decreases a.len(),
{
    if a.len() == 0 {
        true
    } else if b.len() == 0 {
        false
    } else if (a[0] as u32) < (b[0] as u32) {
        true
    } else if (a[0] as u32) > (b[0] as u32) {
        false
    } else {
        lex_le(a.drop_first(), b.drop_first())
    }
}

/// The lexicographic order is total.
pub proof fn lemma_lex_le_total(a: Seq<char>, b: Seq<char>)
    ensures
        lex_le(a, b) || lex_le(b, a),
    decreases a.len(),
{
    if a.len() > 0 && b.len() > 0 && (a[0] as u32) == (b[0] as u32) {
        lemma_lex_le_total(a.drop_first(), b.drop_first());
    }
}

/// The lexicographic order is transitive.
pub proof fn lemma_lex_le_trans(a: Seq<char>, b: Seq<char>, c: Seq<char>)
    requires
        lex_le(a, b),
        lex_le(b, c),
    ensures
        lex_le(a, c),
    decreases a.len(),
{
    if a.len() > 0 && b.len() > 0 && c.len() > 0 && (a[0] as u32) == (b[0] as u32) && (b[0] as u32)
        == (c[0] as u32) {
        lemma_lex_le_trans(a.drop_first(), b.drop_first(), c.drop_first());
    }
}

/// Lexicographic comparison of two string slices.
pub fn str_lex_le(a: &str, b: &str) -> (r: bool)
    ensures
        r == lex_le(a@, b@),
{
    let n = a.unicode_len();
    let m = b.unicode_len();
    let mut i: usize = 0;
    proof {
        assert(a@.skip(0) =~= a@);
        assert(b@.skip(0) =~= b@);
    }
    loop
        invariant
            n == a@.len(),
            m == b@.len(),
            i <= n,
            i <= m,
            forall|k: int| 0 <= k < i ==> a@[k] == b@[k],
            lex_le(a@, b@) == lex_le(a@.skip(i as int), b@.skip(i as int)),
        decreases n - i,
    {
        if i == n {
            assert(a@.skip(i as int).len() == 0);
            return true;
        }
        if i == m {
            assert(b@.skip(i as int).len() == 0 && a@.skip(i as int).len() > 0);
            return false;
        }
        let ca = a.get_char(i);
        let cb = b.get_char(i);
        assert(a@.skip(i as int)[0] == a@[i as int] && b@.skip(i as int)[0] == b@[i as int]);
        if (ca as u32) < (cb as u32) {
            return true;
        }
        if (ca as u32) > (cb as u32) {
            return false;
        }
        assert(a@.skip(i as int).drop_first() =~= a@.skip(i + 1));
        assert(b@.skip(i as int).drop_first() =~= b@.skip(i + 1));
        i += 1;
    }
}

} // verus!
