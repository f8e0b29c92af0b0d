//! Narrowing a collection to the glyphs that a selection policy keeps.
use vstd::prelude::*;
use crate::source::{views_of, Collection, Emoji, EmojiView};

verus! {

/// Why a policy cannot be applied.
#[derive(Debug, Clone, Copy, PartialEq, Eq, Structural)]
pub enum PolicyError {
    /// More than one version ceiling is enabled.
    ConflictingVersions,
}

/// Which records to keep.
///
/// In subtractive mode (`additive == false`) every record is kept unless its
/// group or subgroup is named; in additive mode only records whose group or
/// subgroup is named are kept. A modifier toggle that is on strips records
/// with that modifier in subtractive mode and keeps them in additive mode;
/// records without the modifier are always kept.
pub struct SelectionPolicy {
    pub additive: bool,
    pub groups: Vec<String>,
    pub subgroups: Vec<String>,
    /// The enabled version ceilings: at most one may be given.
    pub versions: Vec<u16>,
    pub skin_tones: bool,
    pub genders: bool,
    pub hair_styles: bool,
}

pub struct PolicyView {
    pub additive: bool,
    pub groups: Seq<Seq<char>>,
    pub subgroups: Seq<Seq<char>>,
    pub versions: Seq<u16>,
    pub skin_tones: bool,
    pub genders: bool,
    pub hair_styles: bool,
}

impl View for SelectionPolicy {
    type V = PolicyView;

    open spec fn view(&self) -> PolicyView {
        PolicyView {
            additive: self.additive,
            groups: views_of(self.groups@),
            subgroups: views_of(self.subgroups@),
            versions: self.versions@,
            skin_tones: self.skin_tones,
            genders: self.genders,
            hair_styles: self.hair_styles,
        }
    }
}

/// Whether a record passes the filter of one modifier category.
pub open spec fn passes_modifier(additive: bool, toggle: bool, has_modifier: bool) -> bool {
    !has_modifier || if additive {
        toggle
    } else {
        !toggle
    }
}

/// Whether a record passes the group and subgroup selection.
pub open spec fn selected(p: PolicyView, e: EmojiView) -> bool {
    let named = p.groups.contains(e.group) || p.subgroups.contains(e.subgroup);
    if p.additive {
        named
    } else {
        !named
    }
}

/// Whether a record is within the version ceiling, if one is set.
pub open spec fn within_ceiling(p: PolicyView, e: EmojiView) -> bool {
    p.versions.len() == 0 || e.version <= p.versions[0]
}

/// Whether the policy keeps a record.
pub open spec fn keeps(p: PolicyView, e: EmojiView) -> bool {
    &&& selected(p, e)
    &&& within_ceiling(p, e)
    &&& passes_modifier(p.additive, p.skin_tones, e.has_skin_tone)
    &&& passes_modifier(p.additive, p.genders, e.has_gender)
    &&& passes_modifier(p.additive, p.hair_styles, e.has_hair_style)
}

/// The glyphs of the records that the policy keeps, in their order.
pub open spec fn kept(p: PolicyView, es: Seq<EmojiView>) -> Seq<Seq<char>>
    decreases es.len(),
{
    if es.len() == 0 {
        seq![]
    } else if keeps(p, es.last()) {
        kept(p, es.drop_last()).push(es.last().glyph)
    } else {
        kept(p, es.drop_last())
    }
}

/// Whether a record passes the filter of one modifier category: a record
/// without the modifier always does; one with it does when the toggle is on in
/// additive mode, or off in subtractive mode.
pub fn filterable(additive: bool, feature_flag: bool, has_emoji_modifier: bool) -> (r: bool)
    ensures
        r == passes_modifier(additive, feature_flag, has_emoji_modifier),
        !has_emoji_modifier ==> r,
{
    if !has_emoji_modifier {
        return true;
    }
    if additive {
        feature_flag
    } else {
        !feature_flag
    }
}

fn names_contain(names: &Vec<String>, name: &String) -> (r: bool)
    ensures
        r == views_of(names@).contains(name@),
{
    let mut i: usize = 0;
    while i < names.len()
        invariant
            i <= names.len(),
            forall|k: int| 0 <= k < i ==> names@[k]@ != name@,
        decreases names.len() - i,
    {
        if names[i] == *name {
            assert(views_of(names@)[i as int] == name@);
            return true;
        }
        i = i + 1;
    }
    assert forall|k: int| 0 <= k < views_of(names@).len() implies views_of(names@)[k] != name@ by {
        assert(views_of(names@)[k] == names@[k]@);
    }
    false
}

fn keeps_exec(policy: &SelectionPolicy, e: &Emoji) -> (r: bool)
    ensures
        r == keeps(policy@, e@),
{
    let named = names_contain(&policy.groups, &e.group) || names_contain(
        &policy.subgroups,
        &e.subgroup,
    );
    let chosen = if policy.additive {
        named
    } else {
        !named
    };
    let within = policy.versions.len() == 0 || e.version <= policy.versions[0];
    chosen && within && filterable(policy.additive, policy.skin_tones, e.has_skin_tone)
        && filterable(policy.additive, policy.genders, e.has_gender) && filterable(
        policy.additive,
        policy.hair_styles,
        e.has_hair_style,
    )
}

/// The glyphs of the records that `policy` keeps, in the collection's order;
/// an error if more than one version ceiling is enabled.
pub fn filter(collection: &Collection, policy: &SelectionPolicy) -> (r: Result<
    Vec<String>,
    PolicyError,
>)
    ensures
        match r {
            Ok(v) => policy.versions.len() <= 1 && views_of(v@) == kept(
                policy@,
                collection@.emojis,
            ),
            Err(e) => policy.versions.len() > 1 && e == PolicyError::ConflictingVersions,
        },
{
    if policy.versions.len() > 1 {
        return Err(PolicyError::ConflictingVersions);
    }
    let ghost es = collection@.emojis;
    let mut out: Vec<String> = Vec::new();
    let mut i: usize = 0;
    while i < collection.emojis.len()
        invariant
            i <= collection.emojis.len(),
            es == collection@.emojis,
            views_of(out@) == kept(policy@, es.subrange(0, i as int)),
        decreases collection.emojis.len() - i,
    {
        let e = &collection.emojis[i];
        assert(es.subrange(0, i + 1).drop_last() =~= es.subrange(0, i as int));
        assert(es.subrange(0, i + 1).last() == e@);
        if keeps_exec(policy, e) {
            let ghost before = out@;
            out.push(e.emoji.clone());
            assert(views_of(out@) =~= views_of(before).push(e@.glyph));
        }
        i = i + 1;
    }
    assert(es.subrange(0, es.len() as int) =~= es);
    Ok(out)
}

/// The glyphs of the records whose group is among `groups` (when `inside`) or
/// is not (otherwise), in their order.
pub open spec fn by_group(es: Seq<EmojiView>, groups: Seq<Seq<char>>, inside: bool) -> Seq<
    Seq<char>,
>
    decreases es.len(),
{
    if es.len() == 0 {
        seq![]
    } else if groups.contains(es.last().group) == inside {
        by_group(es.drop_last(), groups, inside).push(es.last().glyph)
    } else {
        by_group(es.drop_last(), groups, inside)
    }
}

/// With groups alone named, additive mode keeps exactly the records of those
/// groups, and subtractive mode exactly the others, when the modifier toggles
/// do not strip anything (all on in additive mode, all off in subtractive).
pub proof fn lemma_group_selection(p: PolicyView, es: Seq<EmojiView>)
    requires
        p.subgroups.len() == 0,
        p.versions.len() == 0,
        p.additive ==> p.skin_tones && p.genders && p.hair_styles,
        !p.additive ==> !p.skin_tones && !p.genders && !p.hair_styles,
    ensures
        kept(p, es) == by_group(es, p.groups, p.additive),
    decreases es.len(),
{
    if es.len() > 0 {
        lemma_group_selection(p, es.drop_last());
        assert(!p.subgroups.contains(es.last().subgroup));
    }
}

/// A record without modifiers is kept or dropped alike under every setting of
/// the modifier toggles.
pub proof fn lemma_modifier_pass_through(p: PolicyView, q: PolicyView, e: EmojiView)
    requires
        !e.has_gender && !e.has_skin_tone && !e.has_hair_style,
        p.additive == q.additive,
        p.groups == q.groups,
        p.subgroups == q.subgroups,
        p.versions == q.versions,
    ensures
        keeps(p, e) == keeps(q, e),
        keeps(p, e) == (selected(p, e) && within_ceiling(p, e)),
{
}

/// `f` places each element of `a`, in order, at a distinct later position of `b`.
pub open spec fn embeds(a: Seq<Seq<char>>, b: Seq<Seq<char>>, f: Seq<int>) -> bool {
    &&& f.len() == a.len()
    &&& forall|i: int| 0 <= i < f.len() ==> 0 <= #[trigger] f[i] < b.len() && a[i] == b[f[i]]
    &&& forall|i: int, j: int| 0 <= i < j < f.len() ==> #[trigger] f[i] < #[trigger] f[j]
}

/// `a` is `b` with some elements left out.
pub open spec fn is_subsequence(a: Seq<Seq<char>>, b: Seq<Seq<char>>) -> bool {
    exists|f: Seq<int>| embeds(a, b, f)
}

proof fn lemma_ceiling_subsequence(p: PolicyView, q: PolicyView, es: Seq<EmojiView>)
    requires
        forall|e: EmojiView| keeps(p, e) ==> keeps(q, e),
    ensures
        is_subsequence(kept(p, es), kept(q, es)),
    decreases es.len(),
{
    if es.len() == 0 {
        assert(embeds(kept(p, es), kept(q, es), Seq::<int>::empty()));
    } else {
        let rest = es.drop_last();
        let e = es.last();
        lemma_ceiling_subsequence(p, q, rest);
        let f = choose|f: Seq<int>| embeds(kept(p, rest), kept(q, rest), f);
        let (a, b) = (kept(p, es), kept(q, es));
        if keeps(p, e) {
            let g = f.push(kept(q, rest).len() as int);
            assert forall|i: int| 0 <= i < g.len() implies 0 <= #[trigger] g[i] < b.len() && a[i]
                == b[g[i]] by {
                if i < f.len() {
                    assert(g[i] == f[i]);
                }
            }
            assert forall|i: int, j: int| 0 <= i < j < g.len() implies #[trigger] g[i]
                < #[trigger] g[j] by {
                if j < f.len() {
                    assert(f[i] < f[j]);
                } else {
                    assert(g[i] == f[i]);
                }
            }
            assert(embeds(a, b, g));
        } else {
            assert forall|i: int| 0 <= i < f.len() implies 0 <= #[trigger] f[i] < b.len() && a[i]
                == b[f[i]] by {
                if keeps(q, e) {
                    assert(b[f[i]] == kept(q, rest)[f[i]]);
                }
            }
            assert(embeds(a, b, f));
        }
    }
}

/// A lower version ceiling keeps no glyph that a higher one drops: its glyphs
/// are those of the higher ceiling with some left out, in the same order.
pub proof fn lemma_version_monotone(p: PolicyView, q: PolicyView, es: Seq<EmojiView>)
    requires
        p.versions.len() == 1,
        q.versions.len() == 1,
        p.versions[0] <= q.versions[0],
        p.additive == q.additive,
        p.groups == q.groups,
        p.subgroups == q.subgroups,
        p.skin_tones == q.skin_tones,
        p.genders == q.genders,
        p.hair_styles == q.hair_styles,
    ensures
        forall|e: EmojiView| keeps(p, e) ==> keeps(q, e),
        forall|i: int| 0 <= i < kept(p, es).len() ==> kept(q, es).contains(#[trigger] kept(p, es)[i]),
        is_subsequence(kept(p, es), kept(q, es)),
    decreases es.len(),
{
    lemma_ceiling_subsequence(p, q, es);
    if es.len() > 0 {
        let rest = es.drop_last();
        lemma_version_monotone(p, q, rest);
        let e = es.last();
        assert forall|i: int| 0 <= i < kept(p, es).len() implies kept(q, es).contains(
            #[trigger] kept(p, es)[i],
        ) by {
            if keeps(p, e) {
                assert(kept(q, es) == kept(q, rest).push(e.glyph));
                if i < kept(p, rest).len() {
                    assert(kept(p, es)[i] == kept(p, rest)[i]);
                    let j = choose|j: int| 0 <= j < kept(q, rest).len() && kept(q, rest)[j] == kept(p, rest)[i];
                    assert(kept(q, es)[j] == kept(q, rest)[j]);
                } else {
                    assert(kept(q, es)[kept(q, rest).len() as int] == e.glyph);
                }
            } else {
                assert(kept(p, es)[i] == kept(p, rest)[i]);
                let j = choose|j: int| 0 <= j < kept(q, rest).len() && kept(q, rest)[j] == kept(p, rest)[i];
                if keeps(q, e) {
                    assert(kept(q, es)[j] == kept(q, rest)[j]);
                }
            }
        }
    }
}

} // verus!
