//! Mapping values onto glyphs of a catalog by their 64-bit xxHash.
//!
//! A value is given as the bytes that its `Hash` implementation writes. One
//! glyph is the catalog entry at the hash modulo the catalog's length. A run of
//! glyphs feeds the same bytes again and again into one running hash, and
//! reads an index after each feed.
use vstd::prelude::*;
use crate::source::views_of;

verus! {

/// Why a selection cannot be made.
#[derive(Debug, Clone, Copy, PartialEq, Eq, Structural)]
pub enum SelectError {
    /// A catalog was given no glyphs.
    EmptyCatalog,
    /// A length range whose end is not above its start.
    InvalidRange,
}

/// The 64-bit xxHash, seed 0, of a byte string.
pub uninterp spec fn xxh64_of(bytes: Seq<u8>) -> u64;

/// Relies on `twox_hash::XxHash64::with_seed(0)` with its `Hasher::write` and
/// `Hasher::finish`: the digest of the bytes written so far, which depends on
/// those bytes alone and not on how the writes split them.
#[verifier::external_body]
fn xxh64(bytes: &[u8]) -> (r: u64)
    ensures
        r == xxh64_of(bytes@),
{
    let mut hasher = twox_hash::XxHash64::with_seed(0);
    std::hash::Hasher::write(&mut hasher, bytes);
    std::hash::Hasher::finish(&hasher)
}

/// A non-empty, ordered array of glyphs to select from.
pub struct Catalog {
    glyphs: Vec<String>,
}

impl View for Catalog {
    type V = Seq<Seq<char>>;

    closed spec fn view(&self) -> Seq<Seq<char>> {
        views_of(self.glyphs@)
    }
}

/// The index that a hash selects among `n` glyphs.
pub open spec fn index_for(hash: u64, n: nat) -> int {
    hash as int % n as int
}

/// `v` written `k` times in a row.
pub open spec fn repeated(v: Seq<u8>, k: nat) -> Seq<u8>
    decreases k,
{
    if k == 0 {
        seq![]
    } else {
        repeated(v, (k - 1) as nat) + v
    }
}

/// The glyphs, one after another, as one string.
pub open spec fn joined(gs: Seq<Seq<char>>) -> Seq<char>
    decreases gs.len(),
{
    if gs.len() == 0 {
        seq![]
    } else {
        joined(gs.drop_last()) + gs.last()
    }
}

/// The glyph that `one` gives for the bytes `v`.
pub open spec fn one_glyph(c: Seq<Seq<char>>, v: Seq<u8>) -> Seq<char> {
    c[index_for(xxh64_of(v), c.len())]
}

/// The glyphs that the hashes select, in order.
pub open spec fn glyphs_for(c: Seq<Seq<char>>, hashes: Seq<u64>) -> Seq<Seq<char>> {
    hashes.map_values(|h: u64| c[index_for(h, c.len())])
}

/// The running hash after each of `count` feeds of `v`.
pub open spec fn running_hashes(v: Seq<u8>, count: nat) -> Seq<u64> {
    Seq::new(count, |k: int| xxh64_of(repeated(v, (k + 1) as nat)))
}

/// The glyphs that `fixed` gives for the bytes `v`.
pub open spec fn fixed_glyphs(c: Seq<Seq<char>>, v: Seq<u8>, count: nat) -> Seq<Seq<char>> {
    glyphs_for(c, running_hashes(v, count))
}

/// The length that `variable` picks in `[start, end)` for a hash.
pub open spec fn length_for(hash: u64, start: nat, end: nat) -> nat {
    (hash as int % (end - start) + start) as nat
}

impl Catalog {
    /// A catalog of the given glyphs, in their order; an error if there are none.
    pub fn new(glyphs: Vec<String>) -> (r: Result<Catalog, SelectError>)
        ensures
            match r {
                Ok(c) => glyphs@.len() > 0 && c@ == views_of(glyphs@),
                Err(e) => glyphs@.len() == 0 && e == SelectError::EmptyCatalog,
            },
    {
        if glyphs.len() == 0 {
            Err(SelectError::EmptyCatalog)
        } else {
            Ok(Catalog { glyphs })
        }
    }

    /// The number of glyphs.
    pub fn len(&self) -> (r: usize)
        ensures
            r == self@.len(),
    {
        self.glyphs.len()
    }

    /// The glyph that a hash selects: the one at `hash % len`.
    pub fn pick(&self, hash: u64) -> (r: &str)
        requires
            self@.len() > 0,
        ensures
            r@ == self@[index_for(hash, self@.len())],
    {
        let n = self.glyphs.len();
        let i = (hash % (n as u64)) as usize;
        self.glyphs[i].as_str()
    }

    /// The glyphs that the hashes select, one after another.
    pub fn pick_all(&self, hashes: &[u64]) -> (r: String)
        requires
            self@.len() > 0,
        ensures
            r@ == joined(glyphs_for(self@, hashes@)),
    {
        let mut out = String::new();
        let mut i: usize = 0;
        while i < hashes.len()
            invariant
                i <= hashes@.len(),
                self@.len() > 0,
                out@ == joined(glyphs_for(self@, hashes@.subrange(0, i as int))),
            decreases hashes.len() - i,
        {
            let g = self.pick(hashes[i]);
            let ghost before = hashes@.subrange(0, i as int);
            out.append(g);
            i = i + 1;
            assert(glyphs_for(self@, hashes@.subrange(0, i as int)).drop_last() =~= glyphs_for(
                self@,
                before,
            ));
        }
        assert(hashes@.subrange(0, hashes@.len() as int) =~= hashes@);
        out
    }
}

/// One glyph for a value: the catalog entry at its hash modulo the catalog's
/// length.
pub fn one<'a>(catalog: &'a Catalog, value: &[u8]) -> (r: &'a str)
    requires
        catalog@.len() > 0,
    ensures
        r@ == one_glyph(catalog@, value@),
{
    catalog.pick(xxh64(value))
}

/// `count` glyphs for a value: the running hash is fed the value's bytes once
/// for each glyph, and each glyph is picked by the hash after its feed.
pub fn fixed(catalog: &Catalog, value: &[u8], count: usize) -> (r: String)
    requires
        catalog@.len() > 0,
    ensures
        r@ == joined(fixed_glyphs(catalog@, value@, count as nat)),
{
    let mut fed: Vec<u8> = Vec::new();
    let mut hashes: Vec<u64> = Vec::new();
    let mut k: usize = 0;
    assert(fed@ =~= repeated(value@, 0));
    while k < count
        invariant
            k <= count,
            fed@ == repeated(value@, k as nat),
            hashes@ == running_hashes(value@, k as nat),
        decreases count - k,
    {
        let ghost before = fed@;
        fed.extend_from_slice(value);
        assert(fed@ =~= before + value@);
        let h = xxh64(fed.as_slice());
        hashes.push(h);
        k = k + 1;
        assert(hashes@ =~= running_hashes(value@, k as nat));
    }
    catalog.pick_all(hashes.as_slice())
}

/// The length that a hash picks in `[start, end)`.
pub fn length_in(hash: u64, start: usize, end: usize) -> (r: usize)
    requires
        start < end,
    ensures
        r == length_for(hash, start as nat, end as nat),
{
    (hash % ((end - start) as u64)) as usize + start
}

/// Glyphs for a value, as many as its hash picks in `range`; an error if the
/// range is empty.
pub fn variable(catalog: &Catalog, value: &[u8], range: std::ops::Range<usize>) -> (r: Result<
    String,
    SelectError,
>)
    requires
        catalog@.len() > 0,
    ensures
        match r {
            Ok(s) => range.start < range.end && s@ == joined(
                fixed_glyphs(
                    catalog@,
                    value@,
                    length_for(xxh64_of(value@), range.start as nat, range.end as nat),
                ),
            ),
            Err(e) => range.end <= range.start && e == SelectError::InvalidRange,
        },
{
    if range.end <= range.start {
        return Err(SelectError::InvalidRange);
    }
    let count = length_in(xxh64(value), range.start, range.end);
    Ok(fixed(catalog, value, count))
}

/// Every glyph of the catalog, in order.
pub fn iter(catalog: &Catalog) -> (r: &[String])
    ensures
        views_of(r@) == catalog@,
{
    catalog.glyphs.as_slice()
}

/// For a fixed catalog, equal values give the same glyph, and that glyph is one
/// of the catalog's.
pub proof fn lemma_one_deterministic(c: Seq<Seq<char>>, v: Seq<u8>, w: Seq<u8>)
    requires
        c.len() > 0,
        v == w,
    ensures
        one_glyph(c, v) == one_glyph(c, w),
        c.contains(one_glyph(c, v)),
{
    assert(c[index_for(xxh64_of(v), c.len())] == one_glyph(c, v));
}

/// `fixed` gives exactly `count` glyphs, each one of the catalog's.
pub proof fn lemma_fixed_length(c: Seq<Seq<char>>, v: Seq<u8>, count: nat)
    requires
        c.len() > 0,
    ensures
        fixed_glyphs(c, v, count).len() == count,
        forall|i: int| 0 <= i < count ==> c.contains(#[trigger] fixed_glyphs(c, v, count)[i]),
{
    assert forall|i: int| 0 <= i < count implies c.contains(
        #[trigger] fixed_glyphs(c, v, count)[i],
    ) by {
        let h = running_hashes(v, count)[i];
        assert(fixed_glyphs(c, v, count)[i] == c[index_for(h, c.len())]);
    }
}

/// The number of glyphs that `variable` gives lies in `[start, end)`.
pub proof fn lemma_variable_length(c: Seq<Seq<char>>, v: Seq<u8>, start: nat, end: nat)
    requires
        c.len() > 0,
        start < end,
    ensures
        start <= length_for(xxh64_of(v), start, end) < end,
        start <= fixed_glyphs(c, v, length_for(xxh64_of(v), start, end)).len() < end,
{
    lemma_fixed_length(c, v, length_for(xxh64_of(v), start, end));
}

} // verus!
