//! The style engine: a cascading rule table.
//!
//! A stylesheet is an ordered list of rules.  Each rule has a predicate
//! (a set of tag key/value conditions plus a zoom range), a specificity
//! score, an importance flag, and the paint properties it sets.  For
//! each property of a feature, the winning declaration is the one from
//! a matching rule that sets the property and ranks highest by
//! (important, specificity, declaration order): importance wins
//! unconditionally, higher specificity wins among equals, and of two
//! equally ranked declarations the later one wins.  A feature that no
//! rule matches resolves to the hidden selector: it is not drawn, but
//! it is still indexed for hit-testing.
//!
//! Resolution is a pure function of the tags, the zoom level and the
//! stylesheet, so a selector can be recomputed at any time (for
//! instance after a stylesheet reload) without touching geometry.

use vstd::prelude::*;

verus! {

/// One key/value pair of a feature's tag mapping, as byte strings.
#[derive(Clone, Debug)]
pub struct Tag {
    pub key: Vec<u8>,
    pub value: Vec<u8>,
}

/// The mathematical value of a tag: its key and value byte strings.
pub struct TagM {
    pub key: Seq<u8>,
    pub value: Seq<u8>,
}

impl View for Tag {
    type V = TagM;

    open spec fn view(&self) -> TagM {
        TagM { key: self.key@, value: self.value@ }
    }
}

/// The views of a tag list.
pub open spec fn tag_views(tags: Seq<Tag>) -> Seq<TagM> {
    tags.map_values(|t: Tag| t@)
}

/// An RGBA colour with 8-bit channels.
#[derive(Clone, Copy, Debug, PartialEq, Eq, Structural)]
pub struct Color {
    pub r: u8,
    pub g: u8,
    pub b: u8,
    pub a: u8,
}

/// One stylesheet rule: predicate, rank, and the properties it sets.
/// Stroke widths are in 1/256ths of a tile-local unit.
#[derive(Clone, Debug)]
pub struct Rule {
    pub conds: Vec<Tag>,
    pub min_zoom: u8,
    pub max_zoom: u8,
    pub important: bool,
    pub specificity: u32,
    pub color: Option<Color>,
    pub width: Option<u32>,
    pub z_index: Option<i32>,
    pub visible: Option<bool>,
}

/// An ordered rule list; `version` changes when the sheet is reloaded.
#[derive(Clone, Debug)]
pub struct Stylesheet {
    pub rules: Vec<Rule>,
    pub version: u64,
}

/// The resolved paint properties of one feature after cascade matching.
#[derive(Clone, Copy, Debug, PartialEq, Eq, Structural)]
pub struct Selector {
    pub color: Color,
    pub width: u32,
    pub z_index: i32,
    pub visible: bool,
}

/// Paint defaults for a feature that at least one rule matches but on
/// which a property is left unset.
pub const DEFAULT_WIDTH: u32 = 256;

/// Whether the tag mapping holds `key` with exactly `value`.
pub open spec fn tags_have(tags: Seq<TagM>, key: Seq<u8>, value: Seq<u8>) -> bool {
    exists|i: int| 0 <= i < tags.len() && (#[trigger] tags[i]).key == key && tags[i].value == value
}

/// Whether a rule's predicate accepts a feature: the zoom lies in the
/// rule's range and every condition is present among the tags.
pub open spec fn rule_matches(r: Rule, tags: Seq<TagM>, zoom: u8) -> bool {
    &&& r.min_zoom <= zoom <= r.max_zoom
    &&& forall|j: int|
        0 <= j < r.conds@.len() ==> tags_have(tags, (#[trigger] r.conds@[j]).key@, r.conds@[j].value@)
}

/// Whether a declaration ranked (`imp`, `spc`) from a later rule beats
/// the current best (`b_imp`, `b_spc`) from an earlier one.  Ties go to
/// the later declaration.
pub open spec fn cand_wins(imp: bool, spc: u32, b_imp: bool, b_spc: u32) -> bool {
    (imp && !b_imp) || (imp == b_imp && spc >= b_spc)
}

/// The best declaration seen so far for one property: its rule's rank
/// and the value it sets.
#[derive(Clone, Copy, Debug)]
pub struct Cand<T> {
    pub important: bool,
    pub specificity: u32,
    pub value: T,
}

/// One cascade step: fold the declaration of a rule (if it matched and
/// sets the property) into the best seen so far.
pub open spec fn consider<T>(
    prev: Option<Cand<T>>,
    matched: bool,
    prop: Option<T>,
    imp: bool,
    spc: u32,
) -> Option<Cand<T>> {
    if matched && prop is Some {
        match prev {
            None => Some(Cand { important: imp, specificity: spc, value: prop->0 }),
            Some(p) => if cand_wins(imp, spc, p.important, p.specificity) {
                Some(Cand { important: imp, specificity: spc, value: prop->0 })
            } else {
                prev
            },
        }
    } else {
        prev
    }
}

/// The winning colour declaration among the first `i` rules.
pub open spec fn best_color_upto(rules: Seq<Rule>, tags: Seq<TagM>, zoom: u8, i: int) -> Option<
    Cand<Color>,
>
    decreases i,
{
    if i <= 0 {
        None
    } else {
        consider(
            best_color_upto(rules, tags, zoom, i - 1),
            rule_matches(rules[i - 1], tags, zoom),
            rules[i - 1].color,
            rules[i - 1].important,
            rules[i - 1].specificity,
        )
    }
}

pub open spec fn best_width_upto(rules: Seq<Rule>, tags: Seq<TagM>, zoom: u8, i: int) -> Option<
    Cand<u32>,
>
    decreases i,
{
    if i <= 0 {
        None
    } else {
        consider(
            best_width_upto(rules, tags, zoom, i - 1),
            rule_matches(rules[i - 1], tags, zoom),
            rules[i - 1].width,
            rules[i - 1].important,
            rules[i - 1].specificity,
        )
    }
}

pub open spec fn best_z_upto(rules: Seq<Rule>, tags: Seq<TagM>, zoom: u8, i: int) -> Option<
    Cand<i32>,
>
    decreases i,
{
    if i <= 0 {
        None
    } else {
        consider(
            best_z_upto(rules, tags, zoom, i - 1),
            rule_matches(rules[i - 1], tags, zoom),
            rules[i - 1].z_index,
            rules[i - 1].important,
            rules[i - 1].specificity,
        )
    }
}

pub open spec fn best_visible_upto(rules: Seq<Rule>, tags: Seq<TagM>, zoom: u8, i: int) -> Option<
    Cand<bool>,
>
    decreases i,
{
    if i <= 0 {
        None
    } else {
        consider(
            best_visible_upto(rules, tags, zoom, i - 1),
            rule_matches(rules[i - 1], tags, zoom),
            rules[i - 1].visible,
            rules[i - 1].important,
            rules[i - 1].specificity,
        )
    }
}

/// Whether any rule at all matches the feature.
pub open spec fn any_rule_matches(rules: Seq<Rule>, tags: Seq<TagM>, zoom: u8) -> bool {
    exists|i: int| 0 <= i < rules.len() && rule_matches(#[trigger] rules[i], tags, zoom)
}

/// The hidden selector: not drawn, no paint.
pub open spec fn spec_hidden() -> Selector {
    Selector { color: Color { r: 0, g: 0, b: 0, a: 0 }, width: 0, z_index: 0, visible: false }
}

/// What the cascade resolves a feature to.
pub open spec fn spec_resolve(rules: Seq<Rule>, tags: Seq<TagM>, zoom: u8) -> Selector {
    if !any_rule_matches(rules, tags, zoom) {
        spec_hidden()
    } else {
        Selector {
            color: match best_color_upto(rules, tags, zoom, rules.len() as int) {
                Some(c) => c.value,
                None => Color { r: 0, g: 0, b: 0, a: 255 },
            },
            width: match best_width_upto(rules, tags, zoom, rules.len() as int) {
                Some(c) => c.value,
                None => DEFAULT_WIDTH,
            },
            z_index: match best_z_upto(rules, tags, zoom, rules.len() as int) {
                Some(c) => c.value,
                None => 0,
            },
            visible: match best_visible_upto(rules, tags, zoom, rules.len() as int) {
                Some(c) => c.value,
                None => true,
            },
        }
    }
}

/// Byte-string equality.
pub fn bytes_eq(a: &Vec<u8>, b: &Vec<u8>) -> (r: bool)
    ensures
        r == (a@ == b@),
{
    if a.len() != b.len() {
        return false;
    }
    let mut i: usize = 0;
    while i < a.len()
        invariant
            i <= a@.len() == b@.len(),
            forall|k: int| 0 <= k < i ==> a@[k] == b@[k],
        decreases a@.len() - i,
    {
        if a[i] != b[i] {
            return false;
        }
        i = i + 1;
    }
    proof {
        assert(a@ =~= b@);
    }
    true
}

impl Selector {
    /// The selector of a feature that no rule matches.
    pub fn hidden() -> (s: Selector)
        ensures
            s == spec_hidden(),
    {
        Selector { color: Color { r: 0, g: 0, b: 0, a: 0 }, width: 0, z_index: 0, visible: false }
    }
}

impl Rule {
    /// Whether this rule's predicate accepts the feature.
    pub fn matches(&self, tags: &Vec<Tag>, zoom: u8) -> (res: bool)
        ensures
            res == rule_matches(*self, tag_views(tags@), zoom),
    {
        if !(self.min_zoom <= zoom && zoom <= self.max_zoom) {
            return false;
        }
        let mut j: usize = 0;
        while j < self.conds.len()
            invariant
                j <= self.conds@.len(),
                self.min_zoom <= zoom <= self.max_zoom,
                forall|k: int|
                    0 <= k < j ==> tags_have(
                        tag_views(tags@),
                        (#[trigger] self.conds@[k]).key@,
                        self.conds@[k].value@,
                    ),
            decreases self.conds@.len() - j,
        {
            let cond = &self.conds[j];
            let mut found = false;
            let mut t: usize = 0;
            while t < tags.len()
                invariant
                    t <= tags@.len(),
                    found ==> tags_have(tag_views(tags@), cond.key@, cond.value@),
                    !found ==> forall|k: int|
                        0 <= k < t ==> !((#[trigger] tags@[k]).key@ == cond.key@ && tags@[k].value@
                            == cond.value@),
                decreases tags@.len() - t,
            {
                if !found && bytes_eq(&tags[t].key, &cond.key) && bytes_eq(
                    &tags[t].value,
                    &cond.value,
                ) {
                    found = true;
                    proof {
                        assert(tag_views(tags@)[t as int] == tags@[t as int]@);
                    }
                }
                t = t + 1;
            }
            if !found {
                return false;
            }
            j = j + 1;
        }
        true
    }
}

impl Stylesheet {
    /// Resolve the cascade for one feature: the winning declaration of
    /// each paint property, or the hidden selector if nothing matches.
    pub fn resolve(&self, tags: &Vec<Tag>, zoom: u8) -> (s: Selector)
        ensures
            s == spec_resolve(self.rules@, tag_views(tags@), zoom),
    {
        let ghost rules = self.rules@;
        let mut best_color: Option<Cand<Color>> = None;
        let mut best_width: Option<Cand<u32>> = None;
        let mut best_z: Option<Cand<i32>> = None;
        let mut best_visible: Option<Cand<bool>> = None;
        let mut any: bool = false;
        let mut i: usize = 0;
        while i < self.rules.len()
            invariant
                i <= rules.len(),
                rules == self.rules@,
                best_color == best_color_upto(rules, tag_views(tags@), zoom, i as int),
                best_width == best_width_upto(rules, tag_views(tags@), zoom, i as int),
                best_z == best_z_upto(rules, tag_views(tags@), zoom, i as int),
                best_visible == best_visible_upto(rules, tag_views(tags@), zoom, i as int),
                any == exists|k: int|
                    0 <= k < i && rule_matches(#[trigger] rules[k], tag_views(tags@), zoom),
            decreases rules.len() - i,
        {
            let r = &self.rules[i];
            let matched = r.matches(tags, zoom);
            if matched {
                any = true;
            }
            if matched {
                if let Some(c) = r.color {
                    best_color = match best_color {
                        None => Some(
                            Cand { important: r.important, specificity: r.specificity, value: c },
                        ),
                        Some(p) => if (r.important && !p.important) || (r.important == p.important
                            && r.specificity >= p.specificity) {
                            Some(
                                Cand {
                                    important: r.important,
                                    specificity: r.specificity,
                                    value: c,
                                },
                            )
                        } else {
                            Some(p)
                        },
                    };
                }
                if let Some(w) = r.width {
                    best_width = match best_width {
                        None => Some(
                            Cand { important: r.important, specificity: r.specificity, value: w },
                        ),
                        Some(p) => if (r.important && !p.important) || (r.important == p.important
                            && r.specificity >= p.specificity) {
                            Some(
                                Cand {
                                    important: r.important,
                                    specificity: r.specificity,
                                    value: w,
                                },
                            )
                        } else {
                            Some(p)
                        },
                    };
                }
                if let Some(z) = r.z_index {
                    best_z = match best_z {
                        None => Some(
                            Cand { important: r.important, specificity: r.specificity, value: z },
                        ),
                        Some(p) => if (r.important && !p.important) || (r.important == p.important
                            && r.specificity >= p.specificity) {
                            Some(
                                Cand {
                                    important: r.important,
                                    specificity: r.specificity,
                                    value: z,
                                },
                            )
                        } else {
                            Some(p)
                        },
                    };
                }
                if let Some(vb) = r.visible {
                    best_visible = match best_visible {
                        None => Some(
                            Cand { important: r.important, specificity: r.specificity, value: vb },
                        ),
                        Some(p) => if (r.important && !p.important) || (r.important == p.important
                            && r.specificity >= p.specificity) {
                            Some(
                                Cand {
                                    important: r.important,
                                    specificity: r.specificity,
                                    value: vb,
                                },
                            )
                        } else {
                            Some(p)
                        },
                    };
                }
            }
            i = i + 1;
        }
        if !any {
            return Selector::hidden();
        }
        Selector {
            color: match best_color {
                Some(c) => c.value,
                None => Color { r: 0, g: 0, b: 0, a: 255 },
            },
            width: match best_width {
                Some(c) => c.value,
                None => DEFAULT_WIDTH,
            },
            z_index: match best_z {
                Some(c) => c.value,
                None => 0,
            },
            visible: match best_visible {
                Some(c) => c.value,
                None => true,
            },
        }
    }
}

/// A winning colour declaration always comes from some matching rule
/// that sets the colour and carries the winning rank.
proof fn lemma_best_color_from_rule(rules: Seq<Rule>, tags: Seq<TagM>, zoom: u8, i: int)
    requires
        0 <= i <= rules.len(),
        best_color_upto(rules, tags, zoom, i) is Some,
    ensures
        exists|k: int|
            0 <= k < i && rule_matches(#[trigger] rules[k], tags, zoom) && rules[k].color == Some(
                (best_color_upto(rules, tags, zoom, i)->0).value,
            ) && rules[k].important == (best_color_upto(rules, tags, zoom, i)->0).important
                && rules[k].specificity == (best_color_upto(rules, tags, zoom, i)->0).specificity,
    decreases i,
{
    if i > 0 {
        let prev = best_color_upto(rules, tags, zoom, i - 1);
        if best_color_upto(rules, tags, zoom, i) == prev {
            lemma_best_color_from_rule(rules, tags, zoom, i - 1);
            let p = prev->0;
            let k = choose|k: int|
                0 <= k < i - 1 && rule_matches(#[trigger] rules[k], tags, zoom) && rules[k].color
                    == Some(p.value) && rules[k].important == p.important && rules[k].specificity
                    == p.specificity;
            assert(0 <= k < i && rule_matches(rules[k], tags, zoom));
        } else {
            assert(rule_matches(rules[i - 1], tags, zoom));
        }
    }
}

/// Later declarations override earlier ones: if the rule at `j` matches
/// and sets the colour, no later rule both matches and sets it, and no
/// earlier matching declaration outranks `j`'s, then the cascade
/// resolves the colour to rule `j`'s.  In particular, of two matching
/// declarations of equal importance and specificity the later wins, and
/// an important declaration beats every non-important one.
pub proof fn lemma_later_color_declaration_wins(rules: Seq<Rule>, tags: Seq<TagM>, zoom: u8, j: int)
    requires
        0 <= j < rules.len(),
        rule_matches(rules[j], tags, zoom),
        rules[j].color is Some,
        forall|k: int|
            j < k < rules.len() ==> !(rule_matches(#[trigger] rules[k], tags, zoom)
                && rules[k].color is Some),
        forall|k: int|
            0 <= k < j && rule_matches(#[trigger] rules[k], tags, zoom) && rules[k].color is Some
                ==> cand_wins(
                rules[j].important,
                rules[j].specificity,
                rules[k].important,
                rules[k].specificity,
            ),
    ensures
        spec_resolve(rules, tags, zoom).color == rules[j].color->0,
{
    assert(any_rule_matches(rules, tags, zoom));
    let after = best_color_upto(rules, tags, zoom, j + 1);
    assert(after is Some && (after->0).value == rules[j].color->0) by {
        let prev = best_color_upto(rules, tags, zoom, j);
        if prev is Some {
            lemma_best_color_from_rule(rules, tags, zoom, j);
        }
    }
    assert forall|i: int| j + 1 <= i <= rules.len() implies best_color_upto(rules, tags, zoom, i)
        == after by {
        lemma_best_color_stable(rules, tags, zoom, j, i);
    }
}

/// An important declaration wins unconditionally: if the rule at `j`
/// matches and sets the colour with the importance flag, and every
/// other matching rule that sets the colour is not important, then the
/// cascade resolves the colour to rule `j`'s, wherever `j` stands.
pub proof fn lemma_important_declaration_wins(rules: Seq<Rule>, tags: Seq<TagM>, zoom: u8, j: int)
    requires
        0 <= j < rules.len(),
        rule_matches(rules[j], tags, zoom),
        rules[j].color is Some,
        rules[j].important,
        forall|k: int|
            0 <= k < rules.len() && k != j && rule_matches(#[trigger] rules[k], tags, zoom)
                && rules[k].color is Some ==> !rules[k].important,
    ensures
        spec_resolve(rules, tags, zoom).color == rules[j].color->0,
{
    assert(any_rule_matches(rules, tags, zoom));
    let after = best_color_upto(rules, tags, zoom, j + 1);
    assert(after is Some && (after->0).value == rules[j].color->0 && (after->0).important) by {
        let prev = best_color_upto(rules, tags, zoom, j);
        if prev is Some {
            lemma_best_color_from_rule(rules, tags, zoom, j);
        }
    }
    assert forall|i: int| j + 1 <= i <= rules.len() implies best_color_upto(rules, tags, zoom, i)
        == after by {
        lemma_best_color_stable_important(rules, tags, zoom, j, i);
    }
}

/// Once an important candidate holds the colour and every later
/// declaration is not important, the winner never changes.
proof fn lemma_best_color_stable_important(
    rules: Seq<Rule>,
    tags: Seq<TagM>,
    zoom: u8,
    j: int,
    i: int,
)
    requires
        0 <= j < rules.len(),
        j + 1 <= i <= rules.len(),
        best_color_upto(rules, tags, zoom, j + 1) is Some,
        (best_color_upto(rules, tags, zoom, j + 1)->0).important,
        forall|k: int|
            0 <= k < rules.len() && k != j && rule_matches(#[trigger] rules[k], tags, zoom)
                && rules[k].color is Some ==> !rules[k].important,
    ensures
        best_color_upto(rules, tags, zoom, i) == best_color_upto(rules, tags, zoom, j + 1),
    decreases i,
{
    if i > j + 1 {
        lemma_best_color_stable_important(rules, tags, zoom, j, i - 1);
        let r = rules[i - 1];
        if rule_matches(r, tags, zoom) && r.color is Some {
            assert(i - 1 != j ==> !r.important);
        }
    }
}

/// Once the rules after `j` contribute nothing, the winning colour is
/// settled at `j + 1`.
proof fn lemma_best_color_stable(rules: Seq<Rule>, tags: Seq<TagM>, zoom: u8, j: int, i: int)
    requires
        0 <= j < rules.len(),
        j + 1 <= i <= rules.len(),
        forall|k: int|
            j < k < rules.len() ==> !(rule_matches(#[trigger] rules[k], tags, zoom)
                && rules[k].color is Some),
    ensures
        best_color_upto(rules, tags, zoom, i) == best_color_upto(rules, tags, zoom, j + 1),
    decreases i,
{
    if i > j + 1 {
        lemma_best_color_stable(rules, tags, zoom, j, i - 1);
    }
}

} // verus!
