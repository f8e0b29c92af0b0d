//! Character-level helpers shared by the metadata reader.
use vstd::prelude::*;

verus! {

/// Whether `c` has the Unicode White_Space property, which trimming strips.
pub open spec fn is_space(c: char) -> bool {
    ('\t' <= c && c <= '\r') || c == ' ' || c == '\u{85}' || c == '\u{A0}' || c == '\u{1680}'
        || ('\u{2000}' <= c && c <= '\u{200A}') || c == '\u{2028}' || c == '\u{2029}' || c
        == '\u{202F}' || c == '\u{205F}' || c == '\u{3000}'
}

/// `s` without its leading white space.
pub open spec fn trim_start(s: Seq<char>) -> Seq<char>
    decreases s.len(),
{
    if s.len() > 0 && is_space(s[0]) {
        trim_start(s.drop_first())
    } else {
        s
    }
}

/// `s` without its trailing white space.
pub open spec fn trim_end(s: Seq<char>) -> Seq<char>
    decreases s.len(),
{
    if s.len() > 0 && is_space(s.last()) {
        trim_end(s.drop_last())
    } else {
        s
    }
}

pub open spec fn trim(s: Seq<char>) -> Seq<char> {
    trim_end(trim_start(s))
}

/// `p` occurs in `s` at position `i`.
pub open spec fn matches_at(s: Seq<char>, p: Seq<char>, i: int) -> bool {
    0 <= i && i + p.len() <= s.len() && s.subrange(i, i + p.len()) == p
}

/// The first position at or after `from` where `p` occurs in `s`.
pub open spec fn first_match(s: Seq<char>, p: Seq<char>, from: int) -> Option<int>
    decreases s.len() + 1 - from,
{
    if from < 0 || from + p.len() > s.len() {
        None
    } else if matches_at(s, p, from) {
        Some(from)
    } else {
        first_match(s, p, from + 1)
    }
}

pub open spec fn starts_with(s: Seq<char>, p: Seq<char>) -> bool {
    matches_at(s, p, 0)
}

pub open spec fn contains(s: Seq<char>, p: Seq<char>) -> bool {
    first_match(s, p, 0) is Some
}

/// The first piece of `s` split at `p`: all of `s` when `p` does not occur.
pub open spec fn first_piece(s: Seq<char>, p: Seq<char>) -> Seq<char> {
    match first_match(s, p, 0) {
        Some(i) => s.subrange(0, i),
        None => s,
    }
}

/// The second piece of `s` split at `p`, if `p` occurs in `s`.
pub open spec fn second_piece(s: Seq<char>, p: Seq<char>) -> Option<Seq<char>> {
    match first_match(s, p, 0) {
        Some(i) => Some(first_piece(s.subrange(i + p.len(), s.len() as int), p)),
        None => None,
    }
}

/// The lines of `s`, split at each line feed.
pub open spec fn split_lines(s: Seq<char>) -> Seq<Seq<char>>
    decreases s.len(),
{
    match first_match(s, seq!['\n'], 0) {
        Some(i) => if 0 <= i < s.len() {
            seq![s.subrange(0, i)] + split_lines(s.subrange(i + 1, s.len() as int))
        } else {
            seq![s]
        },
        None => seq![s],
    }
}

/// A position that `first_match` finds holds `p`, and none before it does.
pub proof fn lemma_first_match(s: Seq<char>, p: Seq<char>, from: int)
    requires
        0 <= from,
    ensures
        match first_match(s, p, from) {
            Some(i) => from <= i && matches_at(s, p, i) && forall|k: int|
                from <= k < i ==> !matches_at(s, p, k),
            None => forall|k: int| from <= k ==> !matches_at(s, p, k),
        },
    decreases s.len() + 1 - from,
{
    if from + p.len() > s.len() {
    } else if !matches_at(s, p, from) {
        lemma_first_match(s, p, from + 1);
    }
}

/// Whether some character of `s` is one of `cs`.
pub open spec fn has_any(s: Seq<char>, cs: Seq<char>) -> bool {
    exists|i: int, j: int| 0 <= i < s.len() && 0 <= j < cs.len() && s[i] == cs[j]
}

/// What `str::to_lowercase` makes of a string.
pub uninterp spec fn lower_of(s: Seq<char>) -> Seq<char>;

/// Relies on `str::to_lowercase`: the result depends on the characters alone.
#[verifier::external_body]
pub(crate) fn to_lower(s: &str) -> (r: String)
    ensures
        r@ == lower_of(s@),
{
    s.to_lowercase()
}

/// Relies on `str::chars`: the characters of `s`, in order.
#[verifier::external_body]
pub(crate) fn chars_of(s: &str) -> (r: Vec<char>)
    ensures
        r@ == s@,
{
    s.chars().collect()
}

/// Relies on `String::push`: appends one character.
#[verifier::external_body]
pub(crate) fn push_char(s: &mut String, c: char)
    ensures
        final(s)@ == old(s)@.push(c),
{
    s.push(c)
}

/// The string made of the characters of `v`.
pub fn string_of(v: &Vec<char>) -> (r: String)
    ensures
        r@ == v@,
{
    let mut r = String::new();
    let mut i: usize = 0;
    while i < v.len()
        invariant
            i <= v.len(),
            r@ == v@.subrange(0, i as int),
        decreases v.len() - i,
    {
        push_char(&mut r, v[i]);
        i = i + 1;
        assert(r@ =~= v@.subrange(0, i as int));
    }
    assert(r@ =~= v@);
    r
}

/// The characters `s[lo..hi]`.
pub fn slice_of(s: &Vec<char>, lo: usize, hi: usize) -> (r: Vec<char>)
    requires
        lo <= hi <= s.len(),
    ensures
        r@ == s@.subrange(lo as int, hi as int),
{
    let mut r: Vec<char> = Vec::new();
    let mut i: usize = lo;
    while i < hi
        invariant
            lo <= i <= hi,
            hi <= s.len(),
            r@ == s@.subrange(lo as int, i as int),
        decreases hi - i,
    {
        r.push(s[i]);
        i = i + 1;
        assert(r@ =~= s@.subrange(lo as int, i as int));
    }
    r
}

/// Whether `s` and `t` hold the same characters.
pub fn same_chars(s: &Vec<char>, t: &Vec<char>) -> (r: bool)
    ensures
        r == (s@ == t@),
{
    if s.len() != t.len() {
        return false;
    }
    let mut i: usize = 0;
    while i < s.len()
        invariant
            i <= s.len() == t.len(),
            forall|k: int| 0 <= k < i ==> s@[k] == t@[k],
        decreases s.len() - i,
    {
        if s[i] != t[i] {
            return false;
        }
        i = i + 1;
    }
    assert(s@ =~= t@);
    true
}

/// Whether `p` occurs in `s` at position `i`.
pub fn matches_at_exec(s: &Vec<char>, p: &Vec<char>, i: usize) -> (r: bool)
    ensures
        r == matches_at(s@, p@, i as int),
{
    if i > s.len() || p.len() > s.len() - i {
        return false;
    }
    let mut j: usize = 0;
    while j < p.len()
        invariant
            j <= p.len(),
            i + p.len() <= s.len(),
            forall|k: int| 0 <= k < j ==> s@[i + k] == p@[k],
        decreases p.len() - j,
    {
        if s[i + j] != p[j] {
            assert(s@.subrange(i as int, i + p.len())[j as int] != p@[j as int]);
            return false;
        }
        j = j + 1;
    }
    assert(s@.subrange(i as int, i + p.len()) =~= p@);
    true
}

/// The first position at or after `from` where `p` occurs in `s`.
pub fn find_from(s: &Vec<char>, p: &Vec<char>, from: usize) -> (r: Option<usize>)
    ensures
        match r {
            Some(i) => first_match(s@, p@, from as int) == Some(i as int),
            None => first_match(s@, p@, from as int) is None,
        },
{
    let mut i: usize = from;
    while i <= s.len() && p.len() <= s.len() - i
        invariant
            from <= i,
            first_match(s@, p@, from as int) == first_match(s@, p@, i as int),
        decreases s.len() + 1 - i,
    {
        if matches_at_exec(s, p, i) {
            return Some(i);
        }
        assert(i < s.len()) by {
            if i == s.len() {
                assert(s@.subrange(i as int, i as int) =~= p@);
            }
        }
        i = i + 1;
    }
    None
}

/// Whether `p` occurs in `s`.
pub fn contains_exec(s: &Vec<char>, p: &Vec<char>) -> (r: bool)
    ensures
        r == contains(s@, p@),
{
    find_from(s, p, 0).is_some()
}

/// The first piece of `s` split at `p`.
pub fn first_piece_exec(s: &Vec<char>, p: &Vec<char>) -> (r: Vec<char>)
    ensures
        r@ == first_piece(s@, p@),
{
    proof {
        lemma_first_match(s@, p@, 0);
    }
    match find_from(s, p, 0) {
        Some(i) => slice_of(s, 0, i),
        None => slice_of(s, 0, s.len()),
    }
}

/// The second piece of `s` split at `p`, if `p` occurs in `s`.
pub fn second_piece_exec(s: &Vec<char>, p: &Vec<char>) -> (r: Option<Vec<char>>)
    ensures
        match r {
            Some(v) => second_piece(s@, p@) == Some(v@),
            None => second_piece(s@, p@) is None,
        },
{
    proof {
        lemma_first_match(s@, p@, 0);
    }
    match find_from(s, p, 0) {
        Some(i) => {
            assert(matches_at(s@, p@, i as int));
            let n: usize = s.len();
            let rest = slice_of(s, i + p.len(), n);
            Some(first_piece_exec(&rest, p))
        },
        None => None,
    }
}

/// `s` without white space at either end.
pub fn trim_exec(s: &Vec<char>) -> (r: Vec<char>)
    ensures
        r@ == trim(s@),
{
    let mut lo: usize = 0;
    assert(s@.subrange(0, s.len() as int) =~= s@);
    while lo < s.len() && is_space_exec(s[lo])
        invariant
            lo <= s.len(),
            trim_start(s@) == trim_start(s@.subrange(lo as int, s.len() as int)),
        decreases s.len() - lo,
    {
        assert(s@.subrange(lo as int, s.len() as int).drop_first() =~= s@.subrange(
            lo + 1,
            s.len() as int,
        ));
        lo = lo + 1;
    }
    let ghost front = s@.subrange(lo as int, s.len() as int);
    assert(trim_start(s@) == front);
    let mut hi: usize = s.len();
    while hi > lo && is_space_exec(s[hi - 1])
        invariant
            lo <= hi <= s.len(),
            front == s@.subrange(lo as int, s.len() as int),
            trim_end(front) == trim_end(s@.subrange(lo as int, hi as int)),
        decreases hi,
    {
        assert(s@.subrange(lo as int, hi as int).drop_last() =~= s@.subrange(
            lo as int,
            hi - 1,
        ));
        hi = hi - 1;
    }
    slice_of(s, lo, hi)
}

pub fn is_space_exec(c: char) -> (r: bool)
    ensures
        r == is_space(c),
{
    ('\t' <= c && c <= '\r') || c == ' ' || c == '\u{85}' || c == '\u{A0}' || c == '\u{1680}'
        || ('\u{2000}' <= c && c <= '\u{200A}') || c == '\u{2028}' || c == '\u{2029}' || c
        == '\u{202F}' || c == '\u{205F}' || c == '\u{3000}'
}

/// Whether some character of `s` is one of `cs`.
pub fn has_any_exec(s: &Vec<char>, cs: &Vec<char>) -> (r: bool)
    ensures
        r == has_any(s@, cs@),
{
    let mut i: usize = 0;
    while i < s.len()
        invariant
            i <= s.len(),
            forall|a: int, b: int| 0 <= a < i && 0 <= b < cs.len() ==> s@[a] != cs@[b],
        decreases s.len() - i,
    {
        let mut j: usize = 0;
        while j < cs.len()
            invariant
                i < s.len(),
                j <= cs.len(),
                forall|a: int, b: int| 0 <= a < i && 0 <= b < cs.len() ==> s@[a] != cs@[b],
                forall|b: int| 0 <= b < j ==> s@[i as int] != cs@[b],
            decreases cs.len() - j,
        {
            if s[i] == cs[j] {
                return true;
            }
            j = j + 1;
        }
        i = i + 1;
    }
    false
}

} // verus!
