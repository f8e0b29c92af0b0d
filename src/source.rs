//! Reading emoji metadata text into classified records.
//!
//! Each line is trimmed and read in turn. `# group: ` and `# subgroup: ` lines
//! set the taxonomy context; data lines marked `fully-qualified` become
//! records. The `component` group is left out entirely.
use vstd::prelude::*;
use crate::text::{
    contains_exec, find_from, first_match, has_any_exec, lemma_first_match, matches_at,
    matches_at_exec, same_chars, slice_of, trim_exec,
    chars_of, contains, first_piece_exec, second_piece_exec, first_piece, has_any, lower_of, second_piece, split_lines, starts_with,
    string_of, to_lower, trim,
};

verus! {

/// Why a metadata source could not be read.
#[derive(Debug, Clone, Copy, PartialEq, Eq, Structural)]
pub enum SourceError {
    /// A marker or data line lacks a delimiter or token that it must have.
    MissingToken,
    /// A data line comes before any group or subgroup line.
    MissingContext,
    /// A version token is not `E<major>.<minor>` with a version that fits.
    BadVersion,
}

/// One classified emoji.
pub struct Emoji {
    pub emoji: String,
    pub group: String,
    pub subgroup: String,
    /// `major * 100 + minor`, so that 15.1 is 1501.
    pub version: u16,
    pub has_gender: bool,
    pub has_skin_tone: bool,
    pub has_hair_style: bool,
}

pub struct EmojiView {
    pub glyph: Seq<char>,
    pub group: Seq<char>,
    pub subgroup: Seq<char>,
    pub version: u16,
    pub has_gender: bool,
    pub has_skin_tone: bool,
    pub has_hair_style: bool,
}

impl View for Emoji {
    type V = EmojiView;

    open spec fn view(&self) -> EmojiView {
        EmojiView {
            glyph: self.emoji@,
            group: self.group@,
            subgroup: self.subgroup@,
            version: self.version,
            has_gender: self.has_gender,
            has_skin_tone: self.has_skin_tone,
            has_hair_style: self.has_hair_style,
        }
    }
}

/// Every record of a metadata source, with its taxonomy.
pub struct Collection {
    pub emojis: Vec<Emoji>,
    /// Group names, in the order first seen.
    pub group_features: Vec<String>,
    /// Subgroup names, in the order first seen.
    pub subgroup_features: Vec<String>,
    /// The distinct versions of the records, in the order first seen.
    pub versions: Vec<u16>,
}

pub struct CollectionView {
    pub emojis: Seq<EmojiView>,
    pub groups: Seq<Seq<char>>,
    pub subgroups: Seq<Seq<char>>,
    pub versions: Seq<u16>,
}

pub open spec fn views_of(v: Seq<String>) -> Seq<Seq<char>> {
    v.map_values(|s: String| s@)
}

impl View for Collection {
    type V = CollectionView;

    open spec fn view(&self) -> CollectionView {
        CollectionView {
            emojis: self.emojis@.map_values(|e: Emoji| e@),
            groups: views_of(self.group_features@),
            subgroups: views_of(self.subgroup_features@),
            versions: self.versions@,
        }
    }
}

/// `s` with each space turned into a hyphen.
pub open spec fn hyphenate(s: Seq<char>) -> Seq<char>
    decreases s.len(),
{
    if s.len() == 0 {
        seq![]
    } else {
        hyphenate(s.drop_last()).push(if s.last() == ' ' { '-' } else { s.last() })
    }
}

/// `s` with each `&` spelt out as `and`.
pub open spec fn spell_ampersands(s: Seq<char>) -> Seq<char>
    decreases s.len(),
{
    if s.len() == 0 {
        seq![]
    } else {
        spell_ampersands(s.drop_last()) + if s.last() == '&' {
            seq!['a', 'n', 'd']
        } else {
            seq![s.last()]
        }
    }
}

/// The identifier form of a group or subgroup label.
pub open spec fn feature_name(s: Seq<char>) -> Seq<char> {
    spell_ampersands(hyphenate(lower_of(s)))
}

/// Converts a label to its identifier form: lower case, spaces as hyphens and
/// `&` as `and`.
pub fn to_feature_name(s: &str) -> (r: String)
    ensures
        r@ == feature_name(s@),
{
    let lower = to_lower(s);
    identifier_of_lowered(lower.as_str())
}

/// The identifier form of a label that is already in lower case: spaces as
/// hyphens and `&` as `and`.
pub fn identifier_of_lowered(lower: &str) -> (r: String)
    ensures
        r@ == spell_ampersands(hyphenate(lower@)),
{
    let cs = chars_of(lower);
    let mut h: Vec<char> = Vec::new();
    let mut i: usize = 0;
    while i < cs.len()
        invariant
            i <= cs.len(),
            h@ == hyphenate(cs@.subrange(0, i as int)),
        decreases cs.len() - i,
    {
        let c = cs[i];
        h.push(if c == ' ' { '-' } else { c });
        assert(cs@.subrange(0, i + 1).drop_last() =~= cs@.subrange(0, i as int));
        i = i + 1;
    }
    assert(cs@.subrange(0, cs.len() as int) =~= cs@);
    let mut out: Vec<char> = Vec::new();
    let mut j: usize = 0;
    while j < h.len()
        invariant
            j <= h.len(),
            out@ == spell_ampersands(h@.subrange(0, j as int)),
        decreases h.len() - j,
    {
        let c = h[j];
        assert(h@.subrange(0, j + 1).drop_last() =~= h@.subrange(0, j as int));
        if c == '&' {
            out.push('a');
            out.push('n');
            out.push('d');
            assert(out@ =~= spell_ampersands(h@.subrange(0, j + 1)));
        } else {
            out.push(c);
            assert(out@ =~= spell_ampersands(h@.subrange(0, j + 1)));
        }
        j = j + 1;
    }
    assert(h@.subrange(0, h.len() as int) =~= h@);
    string_of(&out)
}


pub open spec fn group_marker() -> Seq<char> {
    seq!['#', ' ', 'g', 'r', 'o', 'u', 'p', ':']
}

pub open spec fn subgroup_marker() -> Seq<char> {
    seq!['#', ' ', 's', 'u', 'b', 'g', 'r', 'o', 'u', 'p', ':']
}

pub open spec fn label_delimiter() -> Seq<char> {
    seq![':', ' ']
}

pub open spec fn comment_mark() -> Seq<char> {
    seq!['#']
}

pub open spec fn comment_delimiter() -> Seq<char> {
    seq!['#', ' ']
}

pub open spec fn fully_qualified() -> Seq<char> {
    seq!['f', 'u', 'l', 'l', 'y', '-', 'q', 'u', 'a', 'l', 'i', 'f', 'i', 'e', 'd']
}

pub open spec fn component() -> Seq<char> {
    seq!['c', 'o', 'm', 'p', 'o', 'n', 'e', 'n', 't']
}

/// Gender signs, and the man and woman bases of gendered professions.
pub open spec fn gender_marks() -> Seq<char> {
    seq!['\u{2640}', '\u{2642}', '\u{1F468}', '\u{1F469}']
}

/// The five skin-tone modifiers.
pub open spec fn skin_tone_marks() -> Seq<char> {
    seq!['\u{1F3FB}', '\u{1F3FC}', '\u{1F3FD}', '\u{1F3FE}', '\u{1F3FF}']
}

/// The four hair-style components.
pub open spec fn hair_style_marks() -> Seq<char> {
    seq!['\u{1F9B0}', '\u{1F9B1}', '\u{1F9B3}', '\u{1F9B2}']
}

pub open spec fn is_digit(c: char) -> bool {
    '0' <= c && c <= '9'
}

pub open spec fn all_digits(s: Seq<char>) -> bool {
    forall|i: int| 0 <= i < s.len() ==> is_digit(#[trigger] s[i])
}

/// The number that the decimal digits `s` spell.
pub open spec fn digits_value(s: Seq<char>) -> int
    decreases s.len(),
{
    if s.len() == 0 {
        0
    } else {
        digits_value(s.drop_last()) * 10 + (s.last() as u32 - '0' as u32)
    }
}

/// `s` read as a `u16`: one or more decimal digits, with a value that fits.
pub open spec fn parse_u16(s: Seq<char>) -> Option<u16> {
    if s.len() > 0 && all_digits(s) && digits_value(s) <= u16::MAX {
        Some(digits_value(s) as u16)
    } else {
        None
    }
}

/// The version that a token such as `E15.1` encodes, as `major * 100 + minor`:
/// one leading `E`, then exactly two digit parts around one `.`.
pub open spec fn version_of(token: Seq<char>) -> Option<u16> {
    if token.len() == 0 || token[0] != 'E' {
        None
    } else {
        let v = token.drop_first();
        match first_match(v, seq!['.'], 0) {
            None => None,
            Some(i) => {
                let minor = v.subrange(i + 1, v.len() as int);
                if contains(minor, seq!['.']) {
                    None
                } else {
                    match (parse_u16(v.subrange(0, i)), parse_u16(minor)) {
                        (Some(a), Some(b)) => if a * 100 + b <= u16::MAX {
                            Some((a * 100 + b) as u16)
                        } else {
                            None
                        },
                        _ => None,
                    }
                }
            },
        }
    }
}

/// The record that a fully-qualified data line gives in a group and subgroup.
pub open spec fn entry_of(line: Seq<char>, group: Seq<char>, subgroup: Seq<char>) -> Result<
    EmojiView,
    SourceError,
> {
    match second_piece(line, comment_delimiter()) {
        None => Err(SourceError::MissingToken),
        Some(rest) => {
            let glyph = first_piece(rest, seq![' ']);
            match second_piece(rest, seq![' ']) {
                None => Err(SourceError::MissingToken),
                Some(_) if glyph.len() == 0 => Err(SourceError::MissingToken),
                Some(token) => match version_of(token) {
                    None => Err(SourceError::BadVersion),
                    Some(version) => Ok(
                        EmojiView {
                            glyph,
                            group,
                            subgroup,
                            version,
                            has_gender: has_any(glyph, gender_marks()),
                            has_skin_tone: has_any(glyph, skin_tone_marks()),
                            has_hair_style: has_any(glyph, hair_style_marks()),
                        },
                    ),
                },
            }
        },
    }
}

/// What has been read so far: the context and the records.
pub struct ReadState {
    pub group: Seq<char>,
    pub subgroup: Seq<char>,
    pub found: CollectionView,
}

/// `names` with `n` added at the end, unless it is already there.
pub open spec fn with_name(names: Seq<Seq<char>>, n: Seq<char>) -> Seq<Seq<char>> {
    if names.contains(n) {
        names
    } else {
        names.push(n)
    }
}

pub open spec fn with_version(vs: Seq<u16>, v: u16) -> Seq<u16> {
    if vs.contains(v) {
        vs
    } else {
        vs.push(v)
    }
}

/// Reading one line.
pub open spec fn step(st: ReadState, raw: Seq<char>) -> Result<ReadState, SourceError> {
    let l = trim(raw);
    let f = st.found;
    if l.len() == 0 {
        Ok(st)
    } else if starts_with(l, group_marker()) {
        match second_piece(l, label_delimiter()) {
            None => Err(SourceError::MissingToken),
            Some(label) => {
                let g = feature_name(label);
                if g == component() {
                    Ok(ReadState { group: g, subgroup: st.subgroup, found: f })
                } else {
                    Ok(
                        ReadState {
                            group: g,
                            subgroup: st.subgroup,
                            found: CollectionView { groups: with_name(f.groups, g), ..f },
                        },
                    )
                }
            },
        }
    } else if starts_with(l, subgroup_marker()) {
        match second_piece(l, label_delimiter()) {
            None => Err(SourceError::MissingToken),
            Some(label) => if st.group == component() {
                Ok(st)
            } else {
                let sg = feature_name(label);
                Ok(
                    ReadState {
                        group: st.group,
                        subgroup: sg,
                        found: CollectionView { subgroups: with_name(f.subgroups, sg), ..f },
                    },
                )
            },
        }
    } else if starts_with(l, comment_mark()) || !contains(l, fully_qualified()) || st.group
        == component() {
        Ok(st)
    } else if st.group.len() == 0 || st.subgroup.len() == 0 {
        Err(SourceError::MissingContext)
    } else {
        match entry_of(l, st.group, st.subgroup) {
            Err(e) => Err(e),
            Ok(e) => Ok(
                ReadState {
                    group: st.group,
                    subgroup: st.subgroup,
                    found: CollectionView {
                        emojis: f.emojis.push(e),
                        versions: with_version(f.versions, e.version),
                        ..f
                    },
                },
            ),
        }
    }
}

/// Reading the lines in turn, stopping at the first error.
pub open spec fn run(st: ReadState, lines: Seq<Seq<char>>) -> Result<ReadState, SourceError>
    decreases lines.len(),
{
    if lines.len() == 0 {
        Ok(st)
    } else {
        match step(st, lines[0]) {
            Err(e) => Err(e),
            Ok(next) => run(next, lines.drop_first()),
        }
    }
}

pub open spec fn start_state() -> ReadState {
    ReadState {
        group: seq![],
        subgroup: seq![],
        found: CollectionView {
            emojis: seq![],
            groups: seq![],
            subgroups: seq![],
            versions: seq![],
        },
    }
}

/// The collection that a metadata text describes, or why it cannot be read.
pub open spec fn read_source(text: Seq<char>) -> Result<CollectionView, SourceError> {
    match run(start_state(), split_lines(text)) {
        Ok(st) => Ok(st.found),
        Err(e) => Err(e),
    }
}


/// A prefix of a digit string spells no more than the whole.
proof fn lemma_digits_prefix(s: Seq<char>, k: int)
    requires
        all_digits(s),
        0 <= k <= s.len(),
    ensures
        0 <= digits_value(s.subrange(0, k)) <= digits_value(s),
    decreases s.len(),
{
    if k == s.len() {
        assert(s.subrange(0, k) =~= s);
        lemma_digits_nonneg(s);
    } else {
        assert(s.drop_last().subrange(0, k) =~= s.subrange(0, k));
        lemma_digits_prefix(s.drop_last(), k);
        lemma_digits_nonneg(s.drop_last());
    }
}

proof fn lemma_digits_nonneg(s: Seq<char>)
    requires
        all_digits(s),
    ensures
        0 <= digits_value(s),
    decreases s.len(),
{
    if s.len() > 0 {
        lemma_digits_nonneg(s.drop_last());
    }
}

fn parse_u16_exec(s: &Vec<char>) -> (r: Option<u16>)
    ensures
        r == parse_u16(s@),
{
    if s.len() == 0 {
        return None;
    }
    let mut acc: u32 = 0;
    let mut i: usize = 0;
    while i < s.len()
        invariant
            i <= s.len(),
            all_digits(s@.subrange(0, i as int)),
            acc == digits_value(s@.subrange(0, i as int)),
            acc <= u16::MAX,
        decreases s.len() - i,
    {
        let c = s[i];
        if !('0' <= c && c <= '9') {
            assert(!is_digit(s@[i as int]));
            assert(!all_digits(s@));
            return None;
        }
        assert(s@.subrange(0, i + 1).drop_last() =~= s@.subrange(0, i as int));
        let next: u32 = acc * 10 + (c as u32 - '0' as u32);
        i = i + 1;
        assert(all_digits(s@.subrange(0, i as int)));
        assert(s@.subrange(0, i as int).last() == c);
        assert(digits_value(s@.subrange(0, i as int)) == next as int);
        if next > 65535 {
            proof {
                if all_digits(s@) {
                    lemma_digits_prefix(s@, i as int);
                }
            }
            return None;
        }
        acc = next;
    }
    assert(s@.subrange(0, i as int) =~= s@);
    Some(acc as u16)
}

fn version_exec(token: &Vec<char>) -> (r: Option<u16>)
    ensures
        r == version_of(token@),
{
    if token.len() == 0 || token[0] != 'E' {
        return None;
    }
    let v = slice_of(token, 1, token.len());
    assert(v@ =~= token@.drop_first());
    let dot: Vec<char> = vec!['.'];
    assert(dot@ =~= seq!['.']);
    proof {
        lemma_first_match(v@, dot@, 0);
    }
    match find_from(&v, &dot, 0) {
        None => None,
        Some(i) => {
            assert(matches_at(v@, dot@, i as int));
            let n: usize = v.len();
            let major = slice_of(&v, 0, i);
            let minor = slice_of(&v, i + 1, n);
            if contains_exec(&minor, &dot) {
                return None;
            }
            match (parse_u16_exec(&major), parse_u16_exec(&minor)) {
                (Some(a), Some(b)) => {
                    if (a as u32) * 100 + (b as u32) <= 65535 {
                        Some(a * 100 + b)
                    } else {
                        None
                    }
                },
                _ => None,
            }
        },
    }
}

fn chars_exec(v: Vec<char>, Ghost(expected): Ghost<Seq<char>>) -> (r: Vec<char>)
    requires
        v@ =~= expected,
    ensures
        r@ == expected,
{
    v
}

fn entry_exec(line: &Vec<char>, group: &Vec<char>, subgroup: &Vec<char>) -> (r: Result<
    Emoji,
    SourceError,
>)
    ensures
        match r {
            Ok(e) => entry_of(line@, group@, subgroup@) == Ok::<EmojiView, SourceError>(e@),
            Err(e) => entry_of(line@, group@, subgroup@) == Err::<EmojiView, SourceError>(e),
        },
{
    let delim: Vec<char> = vec!['#', ' '];
    assert(delim@ =~= comment_delimiter());
    let space: Vec<char> = vec![' '];
    assert(space@ =~= seq![' ']);
    let rest = match second_piece_exec(line, &delim) {
        None => return Err(SourceError::MissingToken),
        Some(rest) => rest,
    };
    let glyph = first_piece_exec(&rest, &space);
    let token = match second_piece_exec(&rest, &space) {
        None => return Err(SourceError::MissingToken),
        Some(token) => token,
    };
    if glyph.len() == 0 {
        return Err(SourceError::MissingToken);
    }
    let version = match version_exec(&token) {
        None => return Err(SourceError::BadVersion),
        Some(v) => v,
    };
    let gender: Vec<char> = vec!['\u{2640}', '\u{2642}', '\u{1F468}', '\u{1F469}'];
    assert(gender@ =~= gender_marks());
    let skin: Vec<char> = vec!['\u{1F3FB}', '\u{1F3FC}', '\u{1F3FD}', '\u{1F3FE}', '\u{1F3FF}'];
    assert(skin@ =~= skin_tone_marks());
    let hair: Vec<char> = vec!['\u{1F9B0}', '\u{1F9B1}', '\u{1F9B3}', '\u{1F9B2}'];
    assert(hair@ =~= hair_style_marks());
    Ok(
        Emoji {
            emoji: string_of(&glyph),
            group: string_of(group),
            subgroup: string_of(subgroup),
            version,
            has_gender: has_any_exec(&glyph, &gender),
            has_skin_tone: has_any_exec(&glyph, &skin),
            has_hair_style: has_any_exec(&glyph, &hair),
        },
    )
}

/// The state of a read in progress.
struct Reader {
    group: Vec<char>,
    subgroup: Vec<char>,
    emojis: Vec<Emoji>,
    groups: Vec<String>,
    subgroups: Vec<String>,
    versions: Vec<u16>,
}

impl View for Reader {
    type V = ReadState;

    closed spec fn view(&self) -> ReadState {
        ReadState {
            group: self.group@,
            subgroup: self.subgroup@,
            found: CollectionView {
                emojis: self.emojis@.map_values(|e: Emoji| e@),
                groups: views_of(self.groups@),
                subgroups: views_of(self.subgroups@),
                versions: self.versions@,
            },
        }
    }
}

fn add_name(names: &mut Vec<String>, name: String)
    ensures
        views_of(final(names)@) == with_name(views_of(old(names)@), name@),
{
    let mut i: usize = 0;
    while i < names.len()
        invariant
            i <= names.len(),
            forall|k: int| 0 <= k < i ==> names@[k]@ != name@,
        decreases names.len() - i,
    {
        if names[i] == name {
            assert(views_of(names@)[i as int] == name@);
            return;
        }
        i = i + 1;
    }
    assert forall|k: int| 0 <= k < views_of(names@).len() implies views_of(names@)[k] != name@ by {
        assert(views_of(names@)[k] == names@[k]@);
    }
    let ghost before = names@;
    names.push(name);
    assert(views_of(names@) =~= views_of(before).push(name@));
}

fn add_version(vs: &mut Vec<u16>, v: u16)
    ensures
        final(vs)@ == with_version(old(vs)@, v),
{
    let mut i: usize = 0;
    while i < vs.len()
        invariant
            i <= vs.len(),
            forall|k: int| 0 <= k < i ==> vs@[k] != v,
        decreases vs.len() - i,
    {
        if vs[i] == v {
            assert(vs@.contains(v));
            return;
        }
        i = i + 1;
    }
    assert(!vs@.contains(v));
    vs.push(v);
}

impl Reader {
    fn read_line(&mut self, raw: &Vec<char>) -> (r: Result<(), SourceError>)
        ensures
            match step(old(self)@, raw@) {
                Ok(st) => r is Ok && final(self)@ == st,
                Err(e) => r == Err::<(), SourceError>(e),
            },
    {
        let l = trim_exec(raw);
        if l.len() == 0 {
            return Ok(());
        }
        let component_name = chars_exec(
            vec!['c', 'o', 'm', 'p', 'o', 'n', 'e', 'n', 't'],
            Ghost(component()),
        );
        let label_delim = chars_exec(vec![':', ' '], Ghost(label_delimiter()));
        let group_mark = chars_exec(
            vec!['#', ' ', 'g', 'r', 'o', 'u', 'p', ':'],
            Ghost(group_marker()),
        );
        if matches_at_exec(&l, &group_mark, 0) {
            let label = match second_piece_exec(&l, &label_delim) {
                None => return Err(SourceError::MissingToken),
                Some(label) => label,
            };
            let name = to_feature_name(string_of(&label).as_str());
            let g = chars_of(name.as_str());
            let is_component = same_chars(&g, &component_name);
            self.group = g;
            if !is_component {
                add_name(&mut self.groups, name);
            }
            return Ok(());
        }
        let subgroup_mark = chars_exec(
            vec!['#', ' ', 's', 'u', 'b', 'g', 'r', 'o', 'u', 'p', ':'],
            Ghost(subgroup_marker()),
        );
        if matches_at_exec(&l, &subgroup_mark, 0) {
            let label = match second_piece_exec(&l, &label_delim) {
                None => return Err(SourceError::MissingToken),
                Some(label) => label,
            };
            if same_chars(&self.group, &component_name) {
                return Ok(());
            }
            let name = to_feature_name(string_of(&label).as_str());
            self.subgroup = chars_of(name.as_str());
            add_name(&mut self.subgroups, name);
            return Ok(());
        }
        let hash = chars_exec(vec!['#'], Ghost(comment_mark()));
        let fully = chars_exec(
            vec!['f', 'u', 'l', 'l', 'y', '-', 'q', 'u', 'a', 'l', 'i', 'f', 'i', 'e', 'd'],
            Ghost(fully_qualified()),
        );
        if matches_at_exec(&l, &hash, 0) || !contains_exec(&l, &fully) || same_chars(
            &self.group,
            &component_name,
        ) {
            return Ok(());
        }
        if self.group.len() == 0 || self.subgroup.len() == 0 {
            return Err(SourceError::MissingContext);
        }
        let e = match entry_exec(&l, &self.group, &self.subgroup) {
            Err(e) => return Err(e),
            Ok(e) => e,
        };
        add_version(&mut self.versions, e.version);
        let ghost before = self.emojis@;
        let ghost ev = e@;
        self.emojis.push(e);
        assert(self.emojis@.map_values(|e: Emoji| e@) =~= before.map_values(|e: Emoji| e@).push(
            ev,
        ));
        Ok(())
    }
}

/// Searching from `start + k` in `s` is searching from `k` in `s[start..]`.
proof fn lemma_first_match_shift(s: Seq<char>, p: Seq<char>, start: int, k: int)
    requires
        0 <= start <= s.len(),
        0 <= k,
    ensures
        first_match(s, p, start + k) == match first_match(
            s.subrange(start, s.len() as int),
            p,
            k,
        ) {
            Some(j) => Some(j + start),
            None => None::<int>,
        },
    decreases s.len() + 1 - (start + k),
{
    let t = s.subrange(start, s.len() as int);
    if start + k + p.len() <= s.len() {
        if matches_at(s, p, start + k) {
            assert(t.subrange(k, k + p.len()) =~= s.subrange(start + k, start + k + p.len()));
        } else {
            assert(t.subrange(k, k + p.len()) =~= s.subrange(start + k, start + k + p.len()));
            lemma_first_match_shift(s, p, start, k + 1);
        }
    }
}

/// Every record's glyph is non-empty.
pub open spec fn glyphs_nonempty(es: Seq<EmojiView>) -> bool {
    forall|i: int| 0 <= i < es.len() ==> (#[trigger] es[i]).glyph.len() > 0
}

proof fn lemma_step_glyphs(st: ReadState, line: Seq<char>)
    requires
        glyphs_nonempty(st.found.emojis),
    ensures
        step(st, line) is Ok ==> glyphs_nonempty(step(st, line)->Ok_0.found.emojis),
{
    let l = trim(line);
    if let Ok(e) = entry_of(l, st.group, st.subgroup) {
        assert(e.glyph.len() > 0);
        let es = st.found.emojis.push(e);
        assert forall|i: int| 0 <= i < es.len() implies (#[trigger] es[i]).glyph.len() > 0 by {
            if i < st.found.emojis.len() {
                assert(es[i] == st.found.emojis[i]);
            }
        }
    }
}

proof fn lemma_run_glyphs(st: ReadState, lines: Seq<Seq<char>>)
    requires
        glyphs_nonempty(st.found.emojis),
    ensures
        run(st, lines) is Ok ==> glyphs_nonempty(run(st, lines)->Ok_0.found.emojis),
    decreases lines.len(),
{
    if lines.len() > 0 {
        lemma_step_glyphs(st, lines[0]);
        if let Ok(next) = step(st, lines[0]) {
            lemma_run_glyphs(next, lines.drop_first());
        }
    }
}

/// The first line of `s` and the lines after it.
proof fn lemma_lines_head(s: Seq<char>)
    ensures
        split_lines(s).len() > 0,
        split_lines(s)[0] == first_piece(s, seq!['\n']),
        match first_match(s, seq!['\n'], 0) {
            Some(i) => 0 <= i < s.len() && split_lines(s).drop_first() == split_lines(
                s.subrange(i + 1, s.len() as int),
            ),
            None => split_lines(s).drop_first() == Seq::<Seq<char>>::empty(),
        },
{
    lemma_first_match(s, seq!['\n'], 0);
    match first_match(s, seq!['\n'], 0) {
        Some(i) => {
            assert(s.subrange(i, i + 1)[0] == '\n');
            assert(split_lines(s).drop_first() =~= split_lines(s.subrange(i + 1, s.len() as int)));
        },
        None => {
            assert(split_lines(s).drop_first() =~= Seq::<Seq<char>>::empty());
        },
    }
}

impl Collection {
    /// Reads every record of a metadata text: one line after another, each
    /// trimmed; group and subgroup lines set the context, fully-qualified data
    /// lines outside the `component` group become records.
    pub fn all(text: &str) -> (r: Result<Collection, SourceError>)
        ensures
            match r {
                Ok(c) => read_source(text@) == Ok::<CollectionView, SourceError>(c@)
                    && glyphs_nonempty(c@.emojis),
                Err(e) => read_source(text@) == Err::<CollectionView, SourceError>(e),
            },
    {
        let cs = chars_of(text);
        let nl: Vec<char> = vec!['\n'];
        assert(nl@ =~= seq!['\n']);
        let mut reader = Reader {
            group: Vec::new(),
            subgroup: Vec::new(),
            emojis: Vec::new(),
            groups: Vec::new(),
            subgroups: Vec::new(),
            versions: Vec::new(),
        };
        assert(reader@.found.emojis =~= seq![]);
        assert(reader@.found.groups =~= seq![]);
        assert(reader@.found.subgroups =~= seq![]);
        assert(reader@ == start_state());
        let n: usize = cs.len();
        let mut start: usize = 0;
        assert(cs@.subrange(0, n as int) =~= text@);
        loop
            invariant
                n == cs.len(),
                start <= n,
                nl@ == seq!['\n'],
                run(start_state(), split_lines(text@)) == run(
                    reader@,
                    split_lines(cs@.subrange(start as int, n as int)),
                ),
            decreases n - start,
        {
            let ghost rest = cs@.subrange(start as int, n as int);
            let ghost before = reader@;
            proof {
                lemma_first_match_shift(cs@, nl@, start as int, 0);
                lemma_lines_head(rest);
            }
            let found = find_from(&cs, &nl, start);
            let end: usize = match found {
                Some(i) => i,
                None => n,
            };
            let line = slice_of(&cs, start, end);
            proof {
                match first_match(rest, nl@, 0) {
                    Some(j) => {
                        assert(line@ =~= rest.subrange(0, j));
                        assert(cs@.subrange(end + 1, n as int) =~= rest.subrange(
                            j + 1,
                            rest.len() as int,
                        ));
                    },
                    None => {
                        assert(line@ =~= rest);
                    },
                }
            }
            match reader.read_line(&line) {
                Err(e) => {
                    return Err(e);
                },
                Ok(()) => {},
            }
            match found {
                Some(i) => {
                    start = i + 1;
                },
                None => {
                    assert(run(reader@, Seq::<Seq<char>>::empty()) == Ok::<
                        ReadState,
                        SourceError,
                    >(reader@));
                    proof {
                        lemma_run_glyphs(start_state(), split_lines(text@));
                    }
                    return Ok(
                        Collection {
                            emojis: reader.emojis,
                            group_features: reader.groups,
                            subgroup_features: reader.subgroups,
                            versions: reader.versions,
                        },
                    );
                },
            }
        }
    }
}

} // verus!
