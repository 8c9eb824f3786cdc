//! Text normalization and substring matching for the search path.
//!
//! A search term is normalized by trimming whitespace at both ends and
//! folding ASCII uppercase letters to lowercase; entity names are folded
//! the same way before matching, so the match is case-insensitive.

use vstd::prelude::*;
use vstd::string::StrSliceExecFns;

verus! {

/// A character with the Unicode `White_Space` property, the set that
/// `str::trim` removes at both ends of a string.
pub open spec fn is_space(c: char) -> bool {
    ||| ('\u{0009}' <= c && c <= '\u{000d}')
    ||| c == ' '
    ||| c == '\u{0085}'
    ||| c == '\u{00a0}'
    ||| c == '\u{1680}'
    ||| ('\u{2000}' <= c && c <= '\u{200a}')
    ||| c == '\u{2028}'
    ||| c == '\u{2029}'
    ||| c == '\u{202f}'
    ||| c == '\u{205f}'
    ||| c == '\u{3000}'
}

/// ASCII case folding: uppercase letters map to lowercase, all other
/// characters are unchanged.
pub open spec fn fold_char(c: char) -> char {
    if 'A' <= c && c <= 'Z' {
        ((c as int) + 32) as char
    } else {
        c
    }
}

/// A sequence folded character by character.
pub open spec fn folded(s: Seq<char>) -> Seq<char> {
    s.map_values(|c: char| fold_char(c))
}

/// The sequence with leading whitespace removed.
pub open spec fn ltrimmed(s: Seq<char>) -> Seq<char>
    decreases s.len(),
{
    if s.len() > 0 && is_space(s[0]) {
        ltrimmed(s.drop_first())
    } else {
        s
    }
}

/// The sequence with trailing whitespace removed.
pub open spec fn rtrimmed(s: Seq<char>) -> Seq<char>
    decreases s.len(),
{
    if s.len() > 0 && is_space(s.last()) {
        rtrimmed(s.drop_last())
    } else {
        s
    }
}

/// The sequence with whitespace removed at both ends.
pub open spec fn trimmed(s: Seq<char>) -> Seq<char> {
    rtrimmed(ltrimmed(s))
}

/// `needle` occurs in `hay` starting at position `i`.
pub open spec fn substring_at(hay: Seq<char>, needle: Seq<char>, i: int) -> bool {
    &&& 0 <= i
    &&& i + needle.len() <= hay.len()
    &&& hay.subrange(i, i + needle.len() as int) == needle
}

/// `needle` occurs somewhere in `hay`.
pub open spec fn contains_seq(hay: Seq<char>, needle: Seq<char>) -> bool {
    exists|i: int| substring_at(hay, needle, i)
}

/// A stored name matches an already-normalized term when the term occurs
/// in the case-folded name.
pub open spec fn name_matches(name: Seq<char>, term: Seq<char>) -> bool {
    contains_seq(folded(name), term)
}

/// The normalized form of an optional search term: trimmed, case-folded,
/// and collapsed to "no term" when nothing but whitespace remains.
pub open spec fn normalized_query(q: Option<Seq<char>>) -> Option<Seq<char>> {
    match q {
        None => None,
        Some(s) => {
            let t = folded(trimmed(s));
            if t.len() == 0 {
                None
            } else {
                Some(t)
            }
        },
    }
}

/// Whether `c` has the Unicode `White_Space` property.
pub fn is_space_char(c: char) -> (r: bool)
    ensures
        r == is_space(c),
{
    ('\u{0009}' <= c && c <= '\u{000d}') || c == ' ' || c == '\u{0085}' || c == '\u{00a0}'
        || c == '\u{1680}' || ('\u{2000}' <= c && c <= '\u{200a}') || c == '\u{2028}'
        || c == '\u{2029}' || c == '\u{202f}' || c == '\u{205f}' || c == '\u{3000}'
}

/// Folds one character to ASCII lowercase.
pub fn fold_char_exec(c: char) -> (r: char)
    ensures
        r == fold_char(c),
{
    if 'A' <= c && c <= 'Z' {
        (((c as u8) + 32) as char)
    } else {
        c
    }
}

/// The characters of a string slice, in order.
pub fn chars_of(s: &str) -> (r: Vec<char>)
    ensures
        r@ == s@,
{
    let n = s.unicode_len();
    let mut r: Vec<char> = Vec::new();
    let mut i: usize = 0;
    while i < n
        invariant
            n == s@.len(),
            i <= n,
            r@ == s@.subrange(0, i as int),
        decreases n - i,
    {
        r.push(s.get_char(i));
        i = i + 1;
        assert(r@ =~= s@.subrange(0, i as int));
    }
    assert(r@ =~= s@);
    r
}

/// Folds every character of a sequence to ASCII lowercase.
pub fn fold_chars(v: &Vec<char>) -> (r: Vec<char>)
    ensures
        r@ == folded(v@),
{
    let mut r: Vec<char> = Vec::new();
    let mut i: usize = 0;
    while i < v.len()
        invariant
            i <= v@.len(),
            r@ == folded(v@.subrange(0, i as int)),
        decreases v@.len() - i,
    {
        r.push(fold_char_exec(v[i]));
        i = i + 1;
        assert(r@ =~= folded(v@.subrange(0, i as int)));
    }
    assert(v@.subrange(0, v@.len() as int) =~= v@);
    r
}

/// Dropping a whitespace prefix does not change the left-trimmed form.
proof fn lemma_ltrim_skip(s: Seq<char>, i: int)
    requires
        0 <= i <= s.len(),
        forall|k: int| 0 <= k < i ==> is_space(s[k]),
    ensures
        ltrimmed(s) == ltrimmed(s.subrange(i, s.len() as int)),
    decreases i,
{
    if i > 0 {
        assert(s.len() > 0 && is_space(s[0]));
        assert(s.drop_first() =~= s.subrange(1, s.len() as int));
        lemma_ltrim_skip(s.subrange(1, s.len() as int), i - 1);
        assert(s.subrange(1, s.len() as int).subrange(i - 1, s.len() - 1) =~= s.subrange(
            i,
            s.len() as int,
        ));
    } else {
        assert(s.subrange(0, s.len() as int) =~= s);
    }
}

/// Dropping a whitespace suffix does not change the right-trimmed form.
proof fn lemma_rtrim_skip(s: Seq<char>, j: int)
    requires
        0 <= j <= s.len(),
        forall|k: int| j <= k < s.len() ==> is_space(s[k]),
    ensures
        rtrimmed(s) == rtrimmed(s.subrange(0, j)),
    decreases s.len() - j,
{
    if j < s.len() {
        assert(s.len() > 0 && is_space(s.last()));
        assert(s.drop_last() =~= s.subrange(0, s.len() - 1));
        lemma_rtrim_skip(s.subrange(0, s.len() - 1), j);
        assert(s.subrange(0, s.len() - 1).subrange(0, j) =~= s.subrange(0, j));
    } else {
        assert(s.subrange(0, s.len() as int) =~= s);
    }
}

/// Removes whitespace at both ends of a character sequence.
pub fn trim_chars(v: &Vec<char>) -> (r: Vec<char>)
    ensures
        r@ == trimmed(v@),
{
    let n = v.len();
    let mut start: usize = 0;
    while start < n && is_space_char(v[start])
        invariant
            n == v@.len(),
            start <= n,
            forall|k: int| 0 <= k < start ==> is_space(v@[k]),
        decreases n - start,
    {
        start = start + 1;
    }
    proof {
        lemma_ltrim_skip(v@, start as int);
    }
    let ghost lt = v@.subrange(start as int, n as int);
    if start == n {
        proof {
            assert(lt =~= Seq::<char>::empty());
            assert(ltrimmed(v@) == lt);
            assert(rtrimmed(lt) == lt);
        }
        let r: Vec<char> = Vec::new();
        assert(r@ =~= trimmed(v@));
        return r;
    }
    // start < n and v[start] is not whitespace, so the left-trimmed form
    // is exactly the suffix from start.
    assert(ltrimmed(v@) == lt);
    let mut end: usize = n;
    while end > start && is_space_char(v[end - 1])
        invariant
            n == v@.len(),
            start <= end <= n,
            forall|k: int| end <= k < n ==> is_space(v@[k]),
        decreases end,
    {
        end = end - 1;
    }
    proof {
        assert(forall|k: int| end - start <= k < lt.len() ==> is_space(lt[k]));
        lemma_rtrim_skip(lt, end - start);
        assert(lt.subrange(0, end - start) =~= v@.subrange(start as int, end as int));
    }
    let ghost t = v@.subrange(start as int, end as int);
    // end > start and v[end - 1] is not whitespace, so the right-trimmed
    // form is exactly the subrange from start to end.
    assert(t.len() > 0 && !is_space(t.last()));
    assert(rtrimmed(t) == t);
    let mut r: Vec<char> = Vec::new();
    let mut i: usize = start;
    while i < end
        invariant
            start <= i <= end <= v@.len(),
            r@ == v@.subrange(start as int, i as int),
        decreases end - i,
    {
        r.push(v[i]);
        i = i + 1;
        assert(r@ =~= v@.subrange(start as int, i as int));
    }
    assert(r@ == t);
    r
}

/// Whether `needle` occurs at position `i` of `hay`.
fn matches_at(hay: &Vec<char>, needle: &Vec<char>, i: usize) -> (r: bool)
    requires
        i + needle@.len() <= hay@.len(),
    ensures
        r == substring_at(hay@, needle@, i as int),
{
    let mut j: usize = 0;
    let ghost hay_len: usize = hay.len();
    while j < needle.len()
        invariant
            i + needle@.len() <= hay@.len(),
            hay@.len() == hay_len,
            j <= needle@.len(),
            forall|k: int| 0 <= k < j ==> hay@[i + k] == needle@[k],
        decreases needle@.len() - j,
    {
        if hay[i + j] != needle[j] {
            assert(hay@.subrange(i as int, i + needle@.len()) != needle@) by {
                assert(hay@.subrange(i as int, i + needle@.len())[j as int] != needle@[j as int]);
            }
            return false;
        }
        j = j + 1;
    }
    assert(hay@.subrange(i as int, i + needle@.len()) =~= needle@);
    true
}

/// Whether `needle` occurs anywhere in `hay`.
pub fn contains_chars(hay: &Vec<char>, needle: &Vec<char>) -> (r: bool)
    ensures
        r == contains_seq(hay@, needle@),
{
    if needle.len() > hay.len() {
        assert(forall|i: int| !substring_at(hay@, needle@, i));
        return false;
    }
    if needle.len() == 0 {
        assert(substring_at(hay@, needle@, 0)) by {
            assert(hay@.subrange(0, 0) =~= needle@);
        }
        return true;
    }
    let last_start = hay.len() - needle.len();
    let mut i: usize = 0;
    while i <= last_start
        invariant
            0 < needle@.len() <= hay@.len(),
            hay@.len() <= usize::MAX,
            last_start == hay@.len() - needle@.len(),
            i <= last_start + 1,
            forall|k: int| 0 <= k < i ==> !substring_at(hay@, needle@, k),
        decreases last_start + 1 - i,
    {
        if matches_at(hay, needle, i) {
            return true;
        }
        i = i + 1;
    }
    assert(forall|k: int| !substring_at(hay@, needle@, k));
    false
}

/// Whether the case-folded characters of `name` contain the normalized
/// term `term`.
pub fn str_matches(name: &str, term: &Vec<char>) -> (r: bool)
    ensures
        r == name_matches(name@, term@),
{
    let cs = chars_of(name);
    let f = fold_chars(&cs);
    contains_chars(&f, term)
}

/// Normalizes an optional search term: trims whitespace, folds to ASCII
/// lowercase, and returns nothing when no visible characters remain.
pub fn normalize_query(q: &Option<String>) -> (r: Option<Vec<char>>)
    ensures
        match r {
            None => normalized_query(view_query(*q)) is None,
            Some(t) => normalized_query(view_query(*q)) == Some(t@),
        },
{
    match q {
        None => None,
        Some(s) => {
            let cs = chars_of(s.as_str());
            let t = trim_chars(&cs);
            let f = fold_chars(&t);
            if f.len() == 0 {
                None
            } else {
                Some(f)
            }
        },
    }
}

/// The character-level form of an optional term.
pub open spec fn view_query(q: Option<String>) -> Option<Seq<char>> {
    match q {
        None => None,
        Some(s) => Some(s@),
    }
}

} // verus!
