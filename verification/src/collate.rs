//! The field collation engine: grouping annotated fields into index groups.
//!
//! An unlinked field always starts an index group of its own. A field whose
//! annotation carries a link identifier joins the group already holding that
//! identifier, or starts one if it is the first such field; the members of a
//! linked group stay sorted by their declared order, ties resolved by
//! declaration order. Merging a field into a group ORs its uniqueness into
//! the group's, while the incoming name, case-insensitivity pair and
//! geospatial kind overwrite the group's when present.

use vstd::prelude::*;

use crate::field::{FieldView, GeoKind, ResolvedField};
use crate::schema::opt_view;

verus! {

/// What kind of index entry one field contributes: a plain signed slot, a
/// full-text entry with its weight, or a geospatial entry.
#[derive(Clone, Copy, PartialEq, Eq, Structural, Debug)]
pub enum IndexKind {
    Numeric(i32),
    Text(u32),
    TwoD(GeoKind),
}

/// One member of an index group: the (possibly dotted) document path it
/// indexes, the kind of entry it contributes, its position inside a compound
/// group, and whether it names the per-document language override.
pub struct IndexPair {
    pub path: String,
    pub kind: IndexKind,
    pub order: u8,
    pub lang: bool,
}

/// Mathematical model of an [`IndexPair`].
pub ghost struct PairView {
    pub path: Seq<char>,
    pub kind: IndexKind,
    pub order: u8,
    pub lang: bool,
}

impl View for IndexPair {
    type V = PairView;

    open spec fn view(&self) -> PairView {
        PairView { path: self.path@, kind: self.kind, order: self.order, lang: self.lang }
    }
}

/// How one resolved field turns into a group member. The indexed path is the
/// field name, extended by the sub-path when one is declared. A geospatial
/// kind takes precedence over a text weight, and both take precedence over
/// the numeric slot; an absent slot defaults to ascending one, an absent
/// order to zero.
pub open spec fn pair_of(f: FieldView) -> PairView {
    PairView {
        path: match f.sub {
            Some(s) => f.field_name + "."@ + s,
            None => f.field_name,
        },
        kind: match f.geo {
            Some(g) => IndexKind::TwoD(g),
            None => match f.text_weight {
                Some(w) => IndexKind::Text(w as u32),
                None => IndexKind::Numeric(
                    match f.index {
                        Some(v) => v,
                        None => 1i32,
                    },
                ),
            },
        },
        order: match f.order {
            Some(o) => o,
            None => 0u8,
        },
        lang: f.lang_field,
    }
}

/// Builds the group member that one resolved field contributes.
pub fn index_pair(f: &ResolvedField) -> (r: IndexPair)
    ensures
        r@ == pair_of(f@),
{
    let path = match &f.sub {
        Some(s) => {
            let mut p = f.field_name.clone();
            p.append(".");
            p.append(s.as_str());
            p
        },
        None => f.field_name.clone(),
    };
    let kind = match &f.geo {
        Some(g) => IndexKind::TwoD(*g),
        None => match f.text_weight {
            Some(w) => IndexKind::Text(w as u32),
            None => IndexKind::Numeric(
                match f.index {
                    Some(v) => v,
                    None => 1i32,
                },
            ),
        },
    };
    IndexPair {
        path,
        kind,
        order: match f.order {
            Some(o) => o,
            None => 0u8,
        },
        lang: f.lang_field,
    }
}

/// A declared case-insensitive comparison rule: a locale and an integer
/// strength, still unvalidated.
pub struct CaseInsensitivity {
    pub locale: String,
    pub strength: u8,
}

/// Mathematical model of a [`CaseInsensitivity`].
pub ghost struct CiView {
    pub locale: Seq<char>,
    pub strength: u8,
}

impl View for CaseInsensitivity {
    type V = CiView;

    open spec fn view(&self) -> CiView {
        CiView { locale: self.locale@, strength: self.strength }
    }
}

/// A case-insensitivity rule counts as declared only when both the locale
/// and the strength are present.
pub open spec fn ci_of_parts(locale: Option<Seq<char>>, strength: Option<u8>) -> Option<CiView> {
    match (locale, strength) {
        (Some(l), Some(s)) => Some(CiView { locale: l, strength: s }),
        _ => None,
    }
}

/// The view of an optional case-insensitivity rule.
pub open spec fn opt_ci_view(c: Option<CaseInsensitivity>) -> Option<CiView> {
    match c {
        Some(v) => Some(v@),
        None => None,
    }
}

/// Pairs a declared locale and strength into a case-insensitivity rule,
/// when both are present.
pub fn make_ci(locale: Option<String>, strength: Option<u8>) -> (r: Option<CaseInsensitivity>)
    ensures
        opt_ci_view(r) == ci_of_parts(opt_view(locale), strength),
{
    match (locale, strength) {
        (Some(l), Some(s)) => Some(CaseInsensitivity { locale: l, strength: s }),
        _ => None,
    }
}

/// One collated index group: its ordered members and the merged options they
/// declared. The members' order is exactly the key-document field order of
/// the emitted index.
pub struct IndexGroup {
    pub pairs: Vec<IndexPair>,
    pub unique: bool,
    pub index_name: Option<String>,
    pub link: Option<String>,
    pub case_insensitivity: Option<CaseInsensitivity>,
    pub geo: Option<GeoKind>,
    pub pfe: Option<String>,
}

/// Mathematical model of an [`IndexGroup`].
pub ghost struct GroupView {
    pub pairs: Seq<PairView>,
    pub unique: bool,
    pub index_name: Option<Seq<char>>,
    pub link: Option<Seq<char>>,
    pub case_insensitivity: Option<CiView>,
    pub geo: Option<GeoKind>,
    pub pfe: Option<Seq<char>>,
}

/// The views of a sequence of group members.
pub open spec fn pairs_view(ps: Seq<IndexPair>) -> Seq<PairView> {
    ps.map_values(|p: IndexPair| p@)
}

impl View for IndexGroup {
    type V = GroupView;

    open spec fn view(&self) -> GroupView {
        GroupView {
            pairs: pairs_view(self.pairs@),
            unique: self.unique,
            index_name: opt_view(self.index_name),
            link: opt_view(self.link),
            case_insensitivity: opt_ci_view(self.case_insensitivity),
            geo: self.geo,
            pfe: opt_view(self.pfe),
        }
    }
}

/// The views of a sequence of index groups.
pub open spec fn groups_view(gs: Seq<IndexGroup>) -> Seq<GroupView> {
    gs.map_values(|g: IndexGroup| g@)
}

/// The views of a sequence of resolved fields.
pub open spec fn fields_view(fs: Seq<ResolvedField>) -> Seq<FieldView> {
    fs.map_values(|f: ResolvedField| f@)
}

/// The group a field starts on its own: one member, and every option taken
/// from the field itself.
pub open spec fn new_group_of(f: FieldView) -> GroupView {
    GroupView {
        pairs: seq![pair_of(f)],
        unique: f.unique,
        index_name: f.index_name,
        link: f.link,
        case_insensitivity: ci_of_parts(f.icase_locale, f.icase_strength),
        geo: f.geo,
        pfe: f.pfe,
    }
}

/// Where a member of the given order is inserted into an order-sorted member
/// sequence: after every member whose order is at most the incoming one, so
/// that equal orders keep declaration order.
pub open spec fn insert_pos(ps: Seq<PairView>, o: u8) -> int
    decreases ps.len(),
{
    if ps.len() == 0 {
        0
    } else if ps[0].order <= o {
        1 + insert_pos(ps.skip(1), o)
    } else {
        0
    }
}

/// A member sequence with one more member, inserted at its sort position.
pub open spec fn insert_sorted_spec(ps: Seq<PairView>, p: PairView) -> Seq<PairView> {
    ps.insert(insert_pos(ps, p.order), p)
}

/// How merging one more linked field into its group changes the group:
/// the member joins at its sort position, uniqueness is ORed in, and the
/// incoming name, case-insensitivity pair and geospatial kind overwrite the
/// group's when present. The group's link and partial filter stay.
pub open spec fn merge_group(g: GroupView, f: FieldView) -> GroupView {
    GroupView {
        pairs: insert_sorted_spec(g.pairs, pair_of(f)),
        unique: g.unique || f.unique,
        index_name: match f.index_name {
            Some(n) => Some(n),
            None => g.index_name,
        },
        link: g.link,
        case_insensitivity: match ci_of_parts(f.icase_locale, f.icase_strength) {
            Some(c) => Some(c),
            None => g.case_insensitivity,
        },
        geo: match f.geo {
            Some(x) => Some(x),
            None => g.geo,
        },
        pfe: g.pfe,
    }
}

/// The first group already carrying the given link identifier, if any.
pub open spec fn find_link(gs: Seq<GroupView>, l: Seq<char>) -> Option<int>
    decreases gs.len(),
{
    if gs.len() == 0 {
        None
    } else if gs[0].link == Some(l) {
        Some(0int)
    } else {
        match find_link(gs.skip(1), l) {
            Some(i) => Some(i + 1),
            None => None,
        }
    }
}

/// How one field extends the groups collated so far: an unlinked field
/// starts its own group; a linked field merges into the group carrying its
/// link, or starts that group on first sight of the link.
pub open spec fn collate_step(gs: Seq<GroupView>, f: FieldView) -> Seq<GroupView> {
    match f.link {
        None => gs.push(new_group_of(f)),
        Some(l) => match find_link(gs, l) {
            Some(i) => gs.update(i, merge_group(gs[i], f)),
            None => gs.push(new_group_of(f)),
        },
    }
}

/// The index groups that a field sequence collates into, in the order each
/// group's first contributing field was encountered.
pub open spec fn collate_spec(fs: Seq<FieldView>) -> Seq<GroupView>
    decreases fs.len(),
{
    if fs.len() == 0 {
        Seq::empty()
    } else {
        collate_step(collate_spec(fs.drop_last()), fs.last())
    }
}

/// Group members sorted by ascending order value.
pub open spec fn sorted_by_order(ps: Seq<PairView>) -> bool {
    forall|i: int, j: int| 0 <= i <= j < ps.len() ==> ps[i].order <= ps[j].order
}

/// Character-for-character string equality.
fn string_eq(a: &String, b: &String) -> (r: bool)
    ensures
        r == (a@ == b@),
{
    *a == *b
}

/// `find_link` answers the first group carrying the link.
proof fn lemma_find_link_at(gs: Seq<GroupView>, l: Seq<char>, k: int)
    requires
        0 <= k < gs.len(),
        gs[k].link == Some(l),
        forall|j: int| 0 <= j < k ==> gs[j].link != Some(l),
    ensures
        find_link(gs, l) == Some(k),
    decreases k,
{
    if k == 0 {
    } else {
        assert(gs[0].link != Some(l));
        assert forall|j: int| 0 <= j < k - 1 implies gs.skip(1)[j].link != Some(l) by {
            assert(gs.skip(1)[j] == gs[j + 1]);
        }
        assert(gs.skip(1)[k - 1] == gs[k]);
        lemma_find_link_at(gs.skip(1), l, k - 1);
    }
}

/// Whatever `find_link` finds lies in bounds and carries the link; when it
/// finds nothing, no group carries the link.
proof fn lemma_find_link_in_bounds(gs: Seq<GroupView>, l: Seq<char>)
    ensures
        match find_link(gs, l) {
            Some(i) => 0 <= i < gs.len() && gs[i].link == Some(l),
            None => forall|k: int| 0 <= k < gs.len() ==> (#[trigger] gs[k]).link != Some(l),
        },
    decreases gs.len(),
{
    if gs.len() > 0 && gs[0].link != Some(l) {
        lemma_find_link_in_bounds(gs.skip(1), l);
        match find_link(gs.skip(1), l) {
            Some(i) => {
                assert(gs.skip(1)[i] == gs[i + 1]);
            },
            None => {
                assert forall|k: int| 0 <= k < gs.len() implies (#[trigger] gs[k]).link != Some(
                    l,
                ) by {
                    if k > 0 {
                        assert(gs.skip(1)[k - 1] == gs[k]);
                    }
                }
            },
        }
    }
}

/// When no group carries the link, `find_link` finds nothing.
proof fn lemma_find_link_none(gs: Seq<GroupView>, l: Seq<char>)
    requires
        forall|j: int| 0 <= j < gs.len() ==> gs[j].link != Some(l),
    ensures
        find_link(gs, l) is None,
    decreases gs.len(),
{
    if gs.len() > 0 {
        assert forall|j: int| 0 <= j < gs.len() - 1 implies gs.skip(1)[j].link != Some(l) by {
            assert(gs.skip(1)[j] == gs[j + 1]);
        }
        lemma_find_link_none(gs.skip(1), l);
    }
}

/// The sort position lies within bounds, every member before it has at most
/// the incoming order, and the member at it (if any) has a greater one.
proof fn lemma_insert_pos_props(ps: Seq<PairView>, o: u8)
    ensures
        0 <= insert_pos(ps, o) <= ps.len(),
        forall|j: int| 0 <= j < insert_pos(ps, o) ==> ps[j].order <= o,
        insert_pos(ps, o) < ps.len() ==> ps[insert_pos(ps, o)].order > o,
    decreases ps.len(),
{
    if ps.len() > 0 && ps[0].order <= o {
        lemma_insert_pos_props(ps.skip(1), o);
        assert forall|j: int| 0 <= j < insert_pos(ps, o) implies ps[j].order <= o by {
            if j > 0 {
                assert(ps.skip(1)[j - 1] == ps[j]);
            }
        }
        if insert_pos(ps, o) < ps.len() {
            assert(ps.skip(1)[insert_pos(ps.skip(1), o)] == ps[insert_pos(ps, o)]);
        }
    }
}

/// Inserting a member at its sort position keeps the sequence sorted.
proof fn lemma_insert_sorted_keeps_sorted(ps: Seq<PairView>, p: PairView)
    requires
        sorted_by_order(ps),
    ensures
        sorted_by_order(insert_sorted_spec(ps, p)),
{
    lemma_insert_pos_props(ps, p.order);
    let pos = insert_pos(ps, p.order);
    let r = ps.insert(pos, p);
    assert forall|i: int, j: int| 0 <= i <= j < r.len() implies r[i].order <= r[j].order by {
        if i < pos && j == pos {
            assert(r[i] == ps[i]);
        } else if i == pos && j > pos {
            assert(r[j] == ps[j - 1]);
            assert(ps[pos].order <= ps[j - 1].order);
        } else if i < pos && j > pos {
            assert(r[i] == ps[i] && r[j] == ps[j - 1]);
        } else if i > pos && j > pos {
            assert(r[i] == ps[i - 1] && r[j] == ps[j - 1]);
        } else if i < pos && j < pos {
            assert(r[i] == ps[i] && r[j] == ps[j]);
        }
    }
}

/// Finds the first group already carrying the given link identifier.
fn find_group(groups: &Vec<IndexGroup>, l: &String) -> (r: Option<usize>)
    ensures
        match r {
            Some(k) => k < groups@.len() && find_link(groups_view(groups@), l@) == Some(k as int),
            None => find_link(groups_view(groups@), l@) is None,
        },
{
    let ghost gv = groups_view(groups@);
    let mut k: usize = 0;
    while k < groups.len()
        invariant
            k <= groups@.len(),
            gv == groups_view(groups@),
            forall|j: int| 0 <= j < k ==> gv[j].link != Some(l@),
        decreases groups@.len() - k,
    {
        let hit = match &groups[k].link {
            Some(gl) => string_eq(gl, l),
            None => false,
        };
        if hit {
            proof {
                lemma_find_link_at(gv, l@, k as int);
            }
            return Some(k);
        }
        assert(gv[k as int].link != Some(l@));
        k += 1;
    }
    proof {
        lemma_find_link_none(gv, l@);
    }
    None
}

/// Finds the sort position for a member of the given order.
fn insert_position(pairs: &Vec<IndexPair>, o: u8) -> (r: usize)
    ensures
        r <= pairs@.len(),
        r as int == insert_pos(pairs_view(pairs@), o),
{
    let ghost pv = pairs_view(pairs@);
    proof {
        assert(pv.skip(0) =~= pv);
    }
    let mut i: usize = 0;
    while i < pairs.len() && pairs[i].order <= o
        invariant
            i <= pairs@.len(),
            pv == pairs_view(pairs@),
            insert_pos(pv, o) == i + insert_pos(pv.skip(i as int), o),
        decreases pairs@.len() - i,
    {
        proof {
            let s = pv.skip(i as int);
            assert(s[0] == pv[i as int]);
            assert(s.skip(1) =~= pv.skip(i as int + 1));
        }
        i += 1;
    }
    proof {
        let s = pv.skip(i as int);
        if i < pairs@.len() {
            assert(s[0] == pv[i as int]);
        } else {
            assert(s.len() == 0);
        }
    }
    i
}

/// LAW: every group that a field sequence collates into keeps its members
/// sorted by ascending declared order, whatever the declaration order of the
/// fields.
pub proof fn lemma_collate_sorted(fs: Seq<FieldView>)
    ensures
        forall|k: int|
            0 <= k < collate_spec(fs).len() ==> sorted_by_order(
                (#[trigger] collate_spec(fs)[k]).pairs,
            ),
    decreases fs.len(),
{
    if fs.len() > 0 {
        lemma_collate_sorted(fs.drop_last());
        let prev = collate_spec(fs.drop_last());
        let f = fs.last();
        let gs = collate_spec(fs);
        assert(gs == collate_step(prev, f));
        assert forall|k: int| 0 <= k < gs.len() implies sorted_by_order(
            (#[trigger] gs[k]).pairs,
        ) by {
            match f.link {
                None => {
                    if k < prev.len() {
                        assert(gs[k] == prev[k]);
                    } else {
                        assert(gs[k] == new_group_of(f));
                    }
                },
                Some(l) => {
                    lemma_find_link_in_bounds(prev, l);
                    match find_link(prev, l) {
                        Some(i) => {
                            if k == i {
                                assert(gs[k] == merge_group(prev[i], f));
                                lemma_insert_sorted_keeps_sorted(prev[i].pairs, pair_of(f));
                            } else {
                                assert(gs[k] == prev[k]);
                            }
                        },
                        None => {
                            if k < prev.len() {
                                assert(gs[k] == prev[k]);
                            } else {
                                assert(gs[k] == new_group_of(f));
                            }
                        },
                    }
                },
            }
        }
    }
}

/// Starts the group that one field forms on its own.
fn new_group(f: ResolvedField) -> (g: IndexGroup)
    ensures
        g@ == new_group_of(f@),
{
    let p = index_pair(&f);
    let mut pairs: Vec<IndexPair> = Vec::new();
    pairs.push(p);
    let g = IndexGroup {
        pairs,
        unique: f.unique,
        index_name: f.index_name,
        link: f.link,
        case_insensitivity: make_ci(f.icase_locale, f.icase_strength),
        geo: f.geo,
        pfe: f.pfe,
    };
    proof {
        assert(g@.pairs =~= seq![pair_of(f@)]);
    }
    g
}

/// Collates resolved fields into index groups, in the order each group's
/// first contributing field appears; each group's members stay sorted by
/// their declared order, ties resolved by declaration order.
pub fn collate(fields: Vec<ResolvedField>) -> (r: Vec<IndexGroup>)
    ensures
        groups_view(r@) == collate_spec(fields_view(fields@)),
        forall|k: int|
            0 <= k < r@.len() ==> sorted_by_order(#[trigger] groups_view(r@)[k].pairs),
{
    let ghost all: Seq<FieldView> = fields_view(fields@);
    let mut rest = fields;
    let mut groups: Vec<IndexGroup> = Vec::new();
    let ghost mut done: int = 0;
    proof {
        assert(fields_view(rest@) =~= all.skip(0));
        assert(all.take(0) =~= Seq::<FieldView>::empty());
    }
    while rest.len() > 0
        invariant
            0 <= done <= all.len(),
            fields_view(rest@) == all.skip(done),
            groups_view(groups@) == collate_spec(all.take(done)),
        decreases rest@.len(),
    {
        proof {
            assert(fields_view(rest@).len() == rest@.len());
        }
        let ghost rest0 = rest@;
        let f = rest.remove(0);
        let ghost fv = f@;
        proof {
            assert(fields_view(rest0)[0] == fv);
            assert(fv == all[done]);
            assert forall|j: int| 0 <= j < rest@.len() implies fields_view(rest@)[j] == all.skip(
                done + 1,
            )[j] by {
                assert(rest@[j] == rest0[j + 1]);
                assert(fields_view(rest0)[j + 1] == all.skip(done)[j + 1]);
            }
            assert(fields_view(rest@) =~= all.skip(done + 1));
            assert(all.take(done + 1).drop_last() =~= all.take(done));
            assert(all.take(done + 1).last() == all[done]);
        }
        let ghost prev = groups_view(groups@);
        let found = match &f.link {
            Some(l) => find_group(&groups, l),
            None => None,
        };
        match found {
            Some(k) => {
                let ghost groups0 = groups@;
                let mut g = groups.remove(k);
                let ghost gv = g@;
                let p = index_pair(&f);
                let pos = insert_position(&g.pairs, p.order);
                let ghost old_pairs = g.pairs@;
                g.pairs.insert(pos, p);
                proof {
                    assert forall|j: int|
                        0 <= j < old_pairs.len() + 1 implies pairs_view(
                        old_pairs.insert(pos as int, p),
                    )[j] == pairs_view(old_pairs).insert(pos as int, p@)[j] by {
                        if j < pos {
                            assert(old_pairs.insert(pos as int, p)[j] == old_pairs[j]);
                        } else if j == pos {
                            assert(old_pairs.insert(pos as int, p)[j] == p);
                        } else {
                            assert(old_pairs.insert(pos as int, p)[j] == old_pairs[j - 1]);
                        }
                    }
                    assert(pairs_view(old_pairs.insert(pos as int, p)) =~= pairs_view(
                        old_pairs,
                    ).insert(pos as int, p@));
                }
                g.unique = g.unique || f.unique;
                match f.index_name {
                    Some(n) => { g.index_name = Some(n); },
                    None => {},
                }
                match make_ci(f.icase_locale, f.icase_strength) {
                    Some(c) => { g.case_insensitivity = Some(c); },
                    None => {},
                }
                match f.geo {
                    Some(x) => { g.geo = Some(x); },
                    None => {},
                }
                proof {
                    assert(gv == prev[k as int]);
                    assert(g@ == merge_group(gv, fv));
                }
                let ghost g2 = g@;
                groups.insert(k, g);
                proof {
                    assert forall|j: int| 0 <= j < groups@.len() implies groups_view(groups@)[j]
                        == prev.update(k as int, merge_group(gv, fv))[j] by {
                        if j < k {
                            assert(groups@[j] == groups0.remove(k as int)[j]);
                            assert(groups0.remove(k as int)[j] == groups0[j]);
                        } else if j == k {
                            assert(groups@[j]@ == g2);
                        } else {
                            assert(groups@[j] == groups0.remove(k as int)[j - 1]);
                            assert(groups0.remove(k as int)[j - 1] == groups0[j]);
                        }
                    }
                    assert(groups_view(groups@) =~= prev.update(k as int, merge_group(gv, fv)));
                }
            },
            None => {
                let g = new_group(f);
                let ghost groups0 = groups@;
                groups.push(g);
                proof {
                    assert forall|j: int| 0 <= j < groups@.len() implies groups_view(groups@)[j]
                        == prev.push(new_group_of(fv))[j] by {
                        if j < groups0.len() {
                            assert(groups@[j] == groups0[j]);
                        } else {
                            assert(groups@[j] == g);
                        }
                    }
                    assert(groups_view(groups@) =~= prev.push(new_group_of(fv)));
                }
            },
        }
        proof {
            assert(groups_view(groups@) == collate_step(prev, fv));
            done = done + 1;
            assert(groups_view(groups@) == collate_spec(all.take(done)));
        }
    }
    proof {
        assert(all.take(done) =~= all);
        lemma_collate_sorted(all);
    }
    groups
}

/// Some field of the sequence carries this link identifier.
pub open spec fn has_field_link(fs: Seq<FieldView>, l: Seq<char>) -> bool {
    exists|i: int| 0 <= i < fs.len() && (#[trigger] fs[i]).link == Some(l)
}

/// Some field of the sequence carries this link identifier and declares
/// uniqueness.
pub open spec fn some_linked_unique(fs: Seq<FieldView>, l: Seq<char>) -> bool {
    exists|i: int| 0 <= i < fs.len() && (#[trigger] fs[i]).link == Some(l) && fs[i].unique
}

/// Some group of the sequence carries this link identifier.
pub open spec fn has_group_link(gs: Seq<GroupView>, l: Seq<char>) -> bool {
    exists|k: int| 0 <= k < gs.len() && (#[trigger] gs[k]).link == Some(l)
}

/// What collation guarantees of its groups: no two groups share a link
/// identifier, a link identifier has a group exactly when some field carries
/// it, and a linked group is unique exactly when one of its contributing
/// fields declared uniqueness.
pub open spec fn collate_wf(fs: Seq<FieldView>, gs: Seq<GroupView>) -> bool {
    &&& (forall|a: int, b: int|
        0 <= a < b < gs.len() && (#[trigger] gs[a]).link is Some ==> gs[a].link != (
        #[trigger] gs[b]).link)
    &&& (forall|l: Seq<char>|
        #![trigger has_group_link(gs, l)]
        #![trigger has_field_link(fs, l)]
        has_group_link(gs, l) <==> has_field_link(fs, l))
    &&& (forall|k: int|
        0 <= k < gs.len() ==> ((#[trigger] gs[k]).link matches Some(l) ==> (gs[k].unique
            <==> some_linked_unique(fs, l))))
}

/// Dropping the last field splits the link predicates into the prefix's part
/// and the last field's own contribution.
proof fn lemma_field_link_last(fs: Seq<FieldView>, l: Seq<char>)
    requires
        fs.len() > 0,
    ensures
        has_field_link(fs, l) <==> (has_field_link(fs.drop_last(), l) || fs.last().link == Some(
            l,
        )),
        some_linked_unique(fs, l) <==> (some_linked_unique(fs.drop_last(), l) || (fs.last().link
            == Some(l) && fs.last().unique)),
{
    let fs0 = fs.drop_last();
    if has_field_link(fs, l) {
        let i = choose|i: int| 0 <= i < fs.len() && (#[trigger] fs[i]).link == Some(l);
        if i < fs.len() - 1 {
            assert(fs0[i] == fs[i]);
        }
    }
    if has_field_link(fs0, l) {
        let i = choose|i: int| 0 <= i < fs0.len() && (#[trigger] fs0[i]).link == Some(l);
        assert(fs[i] == fs0[i]);
    }
    if fs.last().link == Some(l) {
        assert(fs[fs.len() - 1].link == Some(l));
    }
    if some_linked_unique(fs, l) {
        let i = choose|i: int|
            0 <= i < fs.len() && (#[trigger] fs[i]).link == Some(l) && fs[i].unique;
        if i < fs.len() - 1 {
            assert(fs0[i] == fs[i]);
        }
    }
    if some_linked_unique(fs0, l) {
        let i = choose|i: int|
            0 <= i < fs0.len() && (#[trigger] fs0[i]).link == Some(l) && fs0[i].unique;
        assert(fs[i] == fs0[i]);
    }
    if fs.last().link == Some(l) && fs.last().unique {
        assert(fs[fs.len() - 1].link == Some(l) && fs[fs.len() - 1].unique);
    }
}

/// Collation always produces well-formed groups.
proof fn lemma_collate_wf(fs: Seq<FieldView>)
    ensures
        collate_wf(fs, collate_spec(fs)),
    decreases fs.len(),
{
    if fs.len() == 0 {
        let gs = collate_spec(fs);
        assert(gs.len() == 0);
        assert forall|l: Seq<char>|
            #![trigger has_group_link(gs, l)]
            #![trigger has_field_link(fs, l)]
            has_group_link(gs, l) <==> has_field_link(fs, l) by {}
    } else {
        let fs0 = fs.drop_last();
        let f = fs.last();
        lemma_collate_wf(fs0);
        let prev = collate_spec(fs0);
        let gs = collate_spec(fs);
        assert(gs == collate_step(prev, f));
        assert forall|l: Seq<char>| true implies (has_field_link(fs, l) <==> (has_field_link(
            fs0,
            l,
        ) || f.link == Some(l))) && (some_linked_unique(fs, l) <==> (some_linked_unique(fs0, l)
            || (f.link == Some(l) && f.unique))) by {
            lemma_field_link_last(fs, l);
        }
        match f.link {
            None => {
                let ng = new_group_of(f);
                assert(gs == prev.push(ng));
                assert forall|a: int, b: int|
                    0 <= a < b < gs.len() && (#[trigger] gs[a]).link is Some implies gs[a].link
                    != (#[trigger] gs[b]).link by {
                    assert(gs[a] == prev[a]);
                    if b < prev.len() {
                        assert(gs[b] == prev[b]);
                    } else {
                        assert(gs[b] == ng);
                    }
                }
                assert forall|l: Seq<char>|
                    #![trigger has_group_link(gs, l)]
                    #![trigger has_field_link(fs, l)]
                    has_group_link(gs, l) <==> has_field_link(fs, l) by {
                    if has_group_link(gs, l) {
                        let k = choose|k: int|
                            0 <= k < gs.len() && (#[trigger] gs[k]).link == Some(l);
                        assert(gs[k] == prev[k]);
                        assert(has_group_link(prev, l));
                    }
                    if has_field_link(fs, l) {
                        assert(has_field_link(fs0, l));
                        let k = choose|k: int|
                            0 <= k < prev.len() && (#[trigger] prev[k]).link == Some(l);
                        assert(gs[k] == prev[k]);
                        assert(has_group_link(gs, l));
                    }
                }
                assert forall|k: int| 0 <= k < gs.len() implies ((#[trigger] gs[k]).link matches
                    Some(l) ==> (gs[k].unique <==> some_linked_unique(fs, l))) by {
                    if k < prev.len() {
                        assert(gs[k] == prev[k]);
                    } else {
                        assert(gs[k] == ng);
                    }
                }
            },
            Some(l0) => {
                lemma_find_link_in_bounds(prev, l0);
                match find_link(prev, l0) {
                    Some(i) => {
                        let mg = merge_group(prev[i], f);
                        assert(gs == prev.update(i, mg));
                        assert(mg.link == Some(l0));
                        assert forall|k: int| 0 <= k < gs.len() implies (#[trigger] gs[k]).link
                            == prev[k].link by {
                            if k != i {
                                assert(gs[k] == prev[k]);
                            }
                        }
                        assert forall|a: int, b: int|
                            0 <= a < b < gs.len() && (#[trigger] gs[a]).link is Some implies
                            gs[a].link != (#[trigger] gs[b]).link by {
                            assert(gs[a].link == prev[a].link && gs[b].link == prev[b].link);
                        }
                        assert forall|l: Seq<char>|
                            #![trigger has_group_link(gs, l)]
                            #![trigger has_field_link(fs, l)]
                            has_group_link(gs, l) <==> has_field_link(fs, l) by {
                            if has_group_link(gs, l) {
                                let k = choose|k: int|
                                    0 <= k < gs.len() && (#[trigger] gs[k]).link == Some(l);
                                assert(prev[k].link == Some(l));
                                assert(has_group_link(prev, l));
                            }
                            if has_field_link(fs, l) {
                                if l == l0 {
                                    assert(gs[i].link == Some(l));
                                    assert(has_group_link(gs, l));
                                } else {
                                    assert(has_field_link(fs0, l));
                                    let k = choose|k: int|
                                        0 <= k < prev.len() && (#[trigger] prev[k]).link == Some(
                                            l,
                                        );
                                    assert(gs[k].link == Some(l));
                                    assert(has_group_link(gs, l));
                                }
                            }
                        }
                        assert forall|k: int| 0 <= k < gs.len() implies ((
                        #[trigger] gs[k]).link matches Some(l) ==> (gs[k].unique
                            <==> some_linked_unique(fs, l))) by {
                            if gs[k].link is Some {
                                let l = gs[k].link->Some_0;
                                if k == i {
                                    assert(l == l0);
                                    assert(gs[k].unique == (prev[i].unique || f.unique));
                                } else {
                                    assert(gs[k] == prev[k]);
                                    if l == l0 {
                                        if k < i {
                                            assert(prev[k].link != prev[i].link);
                                        } else {
                                            assert(prev[i].link != prev[k].link);
                                        }
                                        assert(false);
                                    }
                                }
                            }
                        }
                    },
                    None => {
                        let ng = new_group_of(f);
                        assert(gs == prev.push(ng));
                        assert(ng.link == Some(l0));
                        assert(!has_group_link(prev, l0));
                        assert(!has_field_link(fs0, l0));
                        assert forall|a: int, b: int|
                            0 <= a < b < gs.len() && (#[trigger] gs[a]).link is Some implies
                            gs[a].link != (#[trigger] gs[b]).link by {
                            assert(gs[a] == prev[a]);
                            if b < prev.len() {
                                assert(gs[b] == prev[b]);
                            } else {
                                assert(gs[b] == ng);
                                assert(prev[a].link != Some(l0));
                            }
                        }
                        assert forall|l: Seq<char>|
                            #![trigger has_group_link(gs, l)]
                            #![trigger has_field_link(fs, l)]
                            has_group_link(gs, l) <==> has_field_link(fs, l) by {
                            if has_group_link(gs, l) {
                                let k = choose|k: int|
                                    0 <= k < gs.len() && (#[trigger] gs[k]).link == Some(l);
                                if k < prev.len() {
                                    assert(gs[k] == prev[k]);
                                    assert(has_group_link(prev, l));
                                } else {
                                    assert(gs[k] == ng);
                                    assert(l == l0);
                                }
                            }
                            if has_field_link(fs, l) {
                                if l == l0 {
                                    assert(gs[prev.len() as int] == ng);
                                    assert(has_group_link(gs, l));
                                } else {
                                    assert(has_field_link(fs0, l));
                                    let k = choose|k: int|
                                        0 <= k < prev.len() && (#[trigger] prev[k]).link == Some(
                                            l,
                                        );
                                    assert(gs[k] == prev[k]);
                                    assert(has_group_link(gs, l));
                                }
                            }
                        }
                        assert forall|k: int| 0 <= k < gs.len() implies ((
                        #[trigger] gs[k]).link matches Some(l) ==> (gs[k].unique
                            <==> some_linked_unique(fs, l))) by {
                            if gs[k].link is Some {
                                let l = gs[k].link->Some_0;
                                if k < prev.len() {
                                    assert(gs[k] == prev[k]);
                                    assert(prev[k].link != Some(l0));
                                } else {
                                    assert(gs[k] == ng);
                                    assert(l == l0);
                                    if some_linked_unique(fs0, l0) {
                                        let i = choose|i: int|
                                            0 <= i < fs0.len() && (#[trigger] fs0[i]).link
                                                == Some(l0) && fs0[i].unique;
                                        assert(has_field_link(fs0, l0));
                                        assert(false);
                                    }
                                }
                            }
                        }
                    },
                }
            },
        }
    }
}

/// LAW: `unique` on a compound group holds exactly when at least one of the
/// fields collated into it declared uniqueness — the group ORs its members'
/// uniqueness together.
pub proof fn lemma_compound_group_unique(fs: Seq<FieldView>, k: int, l: Seq<char>)
    requires
        0 <= k < collate_spec(fs).len(),
        collate_spec(fs)[k].link == Some(l),
    ensures
        collate_spec(fs)[k].unique <==> some_linked_unique(fs, l),
{
    lemma_collate_wf(fs);
}

/// LAW: two fields sharing a link identifier collate into a single compound
/// group whose members stand in ascending declared order, declaration order
/// breaking the tie — whichever of the two is declared first.
pub proof fn lemma_linked_pair_order(f1: FieldView, f2: FieldView, l: Seq<char>)
    requires
        f1.link == Some(l),
        f2.link == Some(l),
    ensures
        collate_spec(seq![f1, f2]).len() == 1,
        collate_spec(seq![f1, f2])[0].pairs == (if pair_of(f2).order < pair_of(f1).order {
            seq![pair_of(f2), pair_of(f1)]
        } else {
            seq![pair_of(f1), pair_of(f2)]
        }),
{
    let fs = seq![f1, f2];
    reveal_with_fuel(collate_spec, 3);
    reveal_with_fuel(find_link, 2);
    reveal_with_fuel(insert_pos, 2);
    assert(fs.drop_last() =~= seq![f1]);
    assert(seq![f1].drop_last() =~= Seq::<FieldView>::empty());
    assert(fs.last() == f2);
    assert(seq![f1].last() == f1);
    let g1 = new_group_of(f1);
    assert(collate_spec(seq![f1]) == seq![g1]) by {
        assert(collate_spec(Seq::<FieldView>::empty()) =~= Seq::<GroupView>::empty());
        assert(Seq::<GroupView>::empty().push(g1) =~= seq![g1]);
    }
    assert(seq![g1][0] == g1);
    assert(find_link(seq![g1], l) == Some(0int)) by {
        assert(g1.link == Some(l));
    }
    let p1 = pair_of(f1);
    let p2 = pair_of(f2);
    let merged = merge_group(g1, f2);
    assert(collate_spec(fs) =~= seq![g1].update(0, merged));
    assert(collate_spec(fs)[0] == merged);
    assert(g1.pairs == seq![p1]);
    assert(seq![p1].skip(1) =~= Seq::<PairView>::empty());
    if p1.order <= p2.order {
        assert(insert_pos(seq![p1], p2.order) == 1);
        assert(merged.pairs == seq![p1].insert(1, p2));
        assert(seq![p1].insert(1, p2) =~= seq![p1, p2]);
    } else {
        assert(insert_pos(seq![p1], p2.order) == 0);
        assert(merged.pairs == seq![p1].insert(0, p2));
        assert(seq![p1].insert(0, p2) =~= seq![p2, p1]);
    }
}

} // verus!
