//! Building the per-group index instructions: the ordered key document and
//! the options object that accompanies it.

use vstd::prelude::*;

use crate::collate::{CiView, GroupView, IndexGroup, IndexKind, IndexPair, PairView, pairs_view};
use crate::field::GeoKind;
use crate::schema::{SchemaError, opt_view};

verus! {

/// Ordinal comparison strength of an index collation, from least to most
/// discriminating, as the database's index grammar defines them.
#[derive(Clone, Copy, PartialEq, Eq, Structural, Debug)]
pub enum CollationStrength {
    Primary,
    Secondary,
    Tertiary,
    Quaternary,
    Identical,
}

/// The declared strength levels run from one to five; anything else is a
/// schema-declaration error.
pub open spec fn strength_of_spec(level: u8) -> Option<CollationStrength> {
    match level {
        1u8 => Some(CollationStrength::Primary),
        2u8 => Some(CollationStrength::Secondary),
        3u8 => Some(CollationStrength::Tertiary),
        4u8 => Some(CollationStrength::Quaternary),
        5u8 => Some(CollationStrength::Identical),
        _ => None,
    }
}

/// Maps a declared integer strength to its ordinal level. Exactly the levels
/// one through five are meaningful; every other value is rejected.
pub fn strength_of(level: u8) -> (r: Option<CollationStrength>)
    ensures
        r == strength_of_spec(level),
        r is Some <==> 1 <= level <= 5,
{
    match level {
        1u8 => Some(CollationStrength::Primary),
        2u8 => Some(CollationStrength::Secondary),
        3u8 => Some(CollationStrength::Tertiary),
        4u8 => Some(CollationStrength::Quaternary),
        5u8 => Some(CollationStrength::Identical),
        _ => None,
    }
}

/// The index-type marker one key-document entry carries: a signed slot for a
/// plain index, or the literal text, planar or spherical marker.
#[derive(Clone, Copy, PartialEq, Eq, Structural, Debug)]
pub enum KeyMarker {
    Slot(i32),
    Text,
    TwoD,
    TwoDSphere,
}

/// One entry of an index's key document: a document path and its marker.
pub struct KeyEntry {
    pub path: String,
    pub marker: KeyMarker,
}

/// Mathematical model of a [`KeyEntry`].
pub ghost struct KeyEntryView {
    pub path: Seq<char>,
    pub marker: KeyMarker,
}

impl View for KeyEntry {
    type V = KeyEntryView;

    open spec fn view(&self) -> KeyEntryView {
        KeyEntryView { path: self.path@, marker: self.marker }
    }
}

/// The views of a key document.
pub open spec fn keys_view(ks: Seq<KeyEntry>) -> Seq<KeyEntryView> {
    ks.map_values(|k: KeyEntry| k@)
}

/// The key-document entry one group member yields. A geospatial member's
/// marker follows the group's merged geospatial kind, not the member's own;
/// only a member outside any group geospatial setting falls back to its own.
pub open spec fn key_entry_of(geo: Option<GeoKind>, p: PairView) -> KeyEntryView {
    KeyEntryView {
        path: p.path,
        marker: match p.kind {
            IndexKind::Numeric(v) => KeyMarker::Slot(v),
            IndexKind::Text(_) => KeyMarker::Text,
            IndexKind::TwoD(own) => match geo {
                Some(GeoKind::Spherical { .. }) => KeyMarker::TwoDSphere,
                Some(GeoKind::Cartesian) => KeyMarker::TwoD,
                None => match own {
                    GeoKind::Spherical { .. } => KeyMarker::TwoDSphere,
                    GeoKind::Cartesian => KeyMarker::TwoD,
                },
            },
        },
    }
}

/// A group's ordered key document: one entry per member, in member order.
pub open spec fn key_doc_spec(g: GroupView) -> Seq<KeyEntryView> {
    g.pairs.map_values(|p: PairView| key_entry_of(g.geo, p))
}

/// Emits the ordered key document of one collated group.
pub fn build_key_doc(g: &IndexGroup) -> (r: Vec<KeyEntry>)
    ensures
        keys_view(r@) == key_doc_spec(g@),
{
    let ghost pv = pairs_view(g.pairs@);
    let mut out: Vec<KeyEntry> = Vec::new();
    let mut i: usize = 0;
    proof {
        assert(keys_view(out@) =~= key_doc_spec(g@).take(0));
    }
    while i < g.pairs.len()
        invariant
            i <= g.pairs@.len(),
            pv == pairs_view(g.pairs@),
            keys_view(out@) == key_doc_spec(g@).take(i as int),
        decreases g.pairs@.len() - i,
    {
        let p = &g.pairs[i];
        let marker = match p.kind {
            IndexKind::Numeric(v) => KeyMarker::Slot(v),
            IndexKind::Text(_) => KeyMarker::Text,
            IndexKind::TwoD(own) => match &g.geo {
                Some(GeoKind::Spherical { .. }) => KeyMarker::TwoDSphere,
                Some(GeoKind::Cartesian) => KeyMarker::TwoD,
                None => match own {
                    GeoKind::Spherical { .. } => KeyMarker::TwoDSphere,
                    GeoKind::Cartesian => KeyMarker::TwoD,
                },
            },
        };
        let e = KeyEntry { path: p.path.clone(), marker };
        let ghost ev = e@;
        let ghost out0 = out@;
        out.push(e);
        proof {
            assert(pv.len() == g.pairs@.len());
            assert(key_doc_spec(g@).len() == pv.len());
            assert(key_doc_spec(g@).take(i as int).len() == i as int);
            assert(keys_view(out0).len() == i as int);
            assert(out0.len() == i as int);
            assert(ev == key_entry_of(g@.geo, pv[i as int]));
            assert(keys_view(out@) =~= key_doc_spec(g@).take(i as int + 1)) by {
                assert forall|j: int| 0 <= j < out@.len() implies keys_view(out@)[j] == key_doc_spec(
                    g@,
                ).take(i as int + 1)[j] by {
                    if j < i as int {
                        assert(out@[j] == out0[j]);
                        assert(keys_view(out0)[j] == key_doc_spec(g@).take(i as int)[j]);
                    } else {
                        assert(out@[j]@ == ev);
                    }
                }
            }
        }
        i += 1;
    }
    proof {
        assert(key_doc_spec(g@).take(i as int) =~= key_doc_spec(g@));
    }
    out
}

/// One entry of a text index's weights sub-document.
pub struct Weight {
    pub path: String,
    pub weight: u32,
}

/// Mathematical model of a [`Weight`].
pub ghost struct WeightView {
    pub path: Seq<char>,
    pub weight: u32,
}

impl View for Weight {
    type V = WeightView;

    open spec fn view(&self) -> WeightView {
        WeightView { path: self.path@, weight: self.weight }
    }
}

/// The views of a weights sub-document.
pub open spec fn weights_view(ws: Seq<Weight>) -> Seq<WeightView> {
    ws.map_values(|w: Weight| w@)
}

/// The weights sub-document of a group: exactly the text members' paths and
/// weights, in member order.
pub open spec fn weights_spec(ps: Seq<PairView>) -> Seq<WeightView>
    decreases ps.len(),
{
    if ps.len() == 0 {
        Seq::empty()
    } else {
        weights_spec(ps.drop_last()) + (match ps.last().kind {
            IndexKind::Text(w) => seq![WeightView { path: ps.last().path, weight: w }],
            _ => Seq::empty(),
        })
    }
}

/// Collects the weights sub-document of a group's members.
fn build_weights(pairs: &Vec<IndexPair>) -> (r: Vec<Weight>)
    ensures
        weights_view(r@) == weights_spec(pairs_view(pairs@)),
{
    let ghost pv = pairs_view(pairs@);
    let mut out: Vec<Weight> = Vec::new();
    let mut i: usize = 0;
    proof {
        assert(pv.take(0) =~= Seq::<PairView>::empty());
        assert(weights_view(out@) =~= weights_spec(pv.take(0)));
    }
    while i < pairs.len()
        invariant
            i <= pairs@.len(),
            pv == pairs_view(pairs@),
            weights_view(out@) == weights_spec(pv.take(i as int)),
        decreases pairs@.len() - i,
    {
        proof {
            assert(pv.take(i as int + 1).drop_last() =~= pv.take(i as int));
            assert(pv.take(i as int + 1).last() == pv[i as int]);
        }
        match pairs[i].kind {
            IndexKind::Text(w) => {
                let ghost out0 = out@;
                out.push(Weight { path: pairs[i].path.clone(), weight: w });
                proof {
                    let wv = WeightView { path: pv[i as int].path, weight: w };
                    assert forall|j: int| 0 <= j < out@.len() implies weights_view(out@)[j]
                        == (weights_spec(pv.take(i as int)) + seq![wv])[j] by {
                        if j < out0.len() {
                            assert(out@[j] == out0[j]);
                        } else {
                            assert(out@[j]@ == wv);
                        }
                    }
                    assert(weights_view(out@) =~= weights_spec(pv.take(i as int + 1)));
                }
            },
            _ => {
                proof {
                    assert(weights_spec(pv.take(i as int + 1)) =~= weights_spec(
                        pv.take(i as int),
                    ));
                }
            },
        }
        i += 1;
    }
    proof {
        assert(pv.take(i as int) =~= pv);
    }
    out
}

/// The language-override field of a group: the path of the first member
/// flagged as the language field, if any.
pub open spec fn lang_override_spec(ps: Seq<PairView>) -> Option<Seq<char>>
    decreases ps.len(),
{
    if ps.len() == 0 {
        None
    } else if ps[0].lang {
        Some(ps[0].path)
    } else {
        lang_override_spec(ps.skip(1))
    }
}

/// The language override is the flagged member found first.
proof fn lemma_lang_at(ps: Seq<PairView>, k: int)
    requires
        0 <= k < ps.len(),
        ps[k].lang,
        forall|j: int| 0 <= j < k ==> !(#[trigger] ps[j]).lang,
    ensures
        lang_override_spec(ps) == Some(ps[k].path),
    decreases k,
{
    if k > 0 {
        assert(!ps[0].lang);
        assert forall|j: int| 0 <= j < k - 1 implies !(#[trigger] ps.skip(1)[j]).lang by {
            assert(ps.skip(1)[j] == ps[j + 1]);
        }
        assert(ps.skip(1)[k - 1] == ps[k]);
        lemma_lang_at(ps.skip(1), k - 1);
    }
}

/// Without a flagged member there is no language override.
proof fn lemma_lang_none(ps: Seq<PairView>)
    requires
        forall|j: int| 0 <= j < ps.len() ==> !(#[trigger] ps[j]).lang,
    ensures
        lang_override_spec(ps) is None,
    decreases ps.len(),
{
    if ps.len() > 0 {
        assert forall|j: int| 0 <= j < ps.len() - 1 implies !(#[trigger] ps.skip(1)[j]).lang by {
            assert(ps.skip(1)[j] == ps[j + 1]);
        }
        lemma_lang_none(ps.skip(1));
    }
}

/// Finds the language-override path among a group's members.
fn find_lang(pairs: &Vec<IndexPair>) -> (r: Option<String>)
    ensures
        opt_view(r) == lang_override_spec(pairs_view(pairs@)),
{
    let ghost pv = pairs_view(pairs@);
    let mut i: usize = 0;
    while i < pairs.len()
        invariant
            i <= pairs@.len(),
            pv == pairs_view(pairs@),
            forall|j: int| 0 <= j < i ==> !(#[trigger] pv[j]).lang,
        decreases pairs@.len() - i,
    {
        if pairs[i].lang {
            proof {
                lemma_lang_at(pv, i as int);
            }
            return Some(pairs[i].path.clone());
        }
        assert(!pv[i as int].lang);
        i += 1;
    }
    proof {
        lemma_lang_none(pv);
    }
    None
}

/// Whether a partial filter expression's text lexes in the filter grammar.
pub uninterp spec fn filter_text_lexes(s: Seq<char>) -> bool;

/// Relies on proc_macro2::TokenStream's FromStr impl, built without the
/// crate's proc-macro feature so that its own fallback lexer runs
/// unconditionally. Whether the text lexes is then a function of the
/// characters alone, in every process, at the pinned version; the lexer is
/// total and returns a Result without panicking.
#[verifier::external_body]
fn lex_filter_text(s: &str) -> (r: bool)
    ensures
        r == filter_text_lexes(s@),
{
    s.parse::<proc_macro2::TokenStream>().is_ok()
}

/// The collation attached to an emitted index: a locale, and an ordinal
/// strength when one was declared. An index always carries a collation; an
/// undeclared one defaults to the "en" locale with no explicit strength.
pub struct CollationOpt {
    pub locale: String,
    pub strength: Option<CollationStrength>,
}

/// Mathematical model of a [`CollationOpt`].
pub ghost struct CollationOptView {
    pub locale: Seq<char>,
    pub strength: Option<CollationStrength>,
}

impl View for CollationOpt {
    type V = CollationOptView;

    open spec fn view(&self) -> CollationOptView {
        CollationOptView { locale: self.locale@, strength: self.strength }
    }
}

/// How a group's declared case-insensitivity turns into its collation: the
/// declared locale with the mapped strength, or the default "en" locale with
/// none.
pub open spec fn collation_spec(ci: Option<CiView>) -> CollationOptView {
    match ci {
        None => CollationOptView { locale: "en"@, strength: None },
        Some(c) => CollationOptView { locale: c.locale, strength: strength_of_spec(c.strength) },
    }
}

/// The options object accompanying one emitted index.
pub struct IndexOptions {
    /// Explicit index name; an empty declared name counts as none.
    pub name: Option<String>,
    pub unique: bool,
    /// Document expiration in seconds; present only when the record type
    /// declares a positive expiration.
    pub expire_after_secs: Option<u64>,
    /// Text weights; present only when at least one member is text-weighted.
    pub weights: Option<Vec<Weight>>,
    /// Spherical location bits; present only for a spherical group.
    pub bits: Option<u32>,
    /// Bit pattern of the minimum coordinate, for a spherical group.
    pub min_bits: Option<u64>,
    /// Bit pattern of the maximum coordinate, for a spherical group.
    pub max_bits: Option<u64>,
    pub collation: CollationOpt,
    pub language_override: Option<String>,
    pub partial_filter: Option<String>,
}

/// Mathematical model of an [`IndexOptions`].
pub ghost struct OptionsView {
    pub name: Option<Seq<char>>,
    pub unique: bool,
    pub expire_after_secs: Option<u64>,
    pub weights: Option<Seq<WeightView>>,
    pub bits: Option<u32>,
    pub min_bits: Option<u64>,
    pub max_bits: Option<u64>,
    pub collation: CollationOptView,
    pub language_override: Option<Seq<char>>,
    pub partial_filter: Option<Seq<char>>,
}

impl View for IndexOptions {
    type V = OptionsView;

    open spec fn view(&self) -> OptionsView {
        OptionsView {
            name: opt_view(self.name),
            unique: self.unique,
            expire_after_secs: self.expire_after_secs,
            weights: match self.weights {
                Some(w) => Some(weights_view(w@)),
                None => None,
            },
            bits: self.bits,
            min_bits: self.min_bits,
            max_bits: self.max_bits,
            collation: self.collation@,
            language_override: opt_view(self.language_override),
            partial_filter: opt_view(self.partial_filter),
        }
    }
}

/// The group's partial filter text, if any, lexes.
pub open spec fn pfe_ok(g: GroupView) -> bool {
    match g.pfe {
        Some(t) => filter_text_lexes(t),
        None => true,
    }
}

/// The group's declared collation strength, if any, is meaningful.
pub open spec fn strength_ok(g: GroupView) -> bool {
    match g.case_insensitivity {
        Some(c) => strength_of_spec(c.strength) is Some,
        None => true,
    }
}

/// Everything the options builder validates about one group.
pub open spec fn options_ok(g: GroupView) -> bool {
    pfe_ok(g) && strength_ok(g)
}

/// The options object a valid group yields, given the record type's
/// expiration setting.
pub open spec fn options_spec(g: GroupView, expiration_secs: u64) -> OptionsView {
    OptionsView {
        name: match g.index_name {
            Some(n) => if n.len() > 0 {
                Some(n)
            } else {
                None
            },
            None => None,
        },
        unique: g.unique,
        expire_after_secs: if expiration_secs > 0 {
            Some(expiration_secs)
        } else {
            None
        },
        weights: if weights_spec(g.pairs).len() > 0 {
            Some(weights_spec(g.pairs))
        } else {
            None
        },
        bits: match g.geo {
            Some(GeoKind::Spherical { bits, .. }) => Some(bits),
            _ => None,
        },
        min_bits: match g.geo {
            Some(GeoKind::Spherical { min_bits, .. }) => Some(min_bits),
            _ => None,
        },
        max_bits: match g.geo {
            Some(GeoKind::Spherical { max_bits, .. }) => Some(max_bits),
            _ => None,
        },
        collation: collation_spec(g.case_insensitivity),
        language_override: lang_override_spec(g.pairs),
        partial_filter: g.pfe,
    }
}

/// Emits the options object of one collated group.
///
/// Fails exactly when the group's partial filter text does not lex, or its
/// declared collation strength lies outside one through five; the filter is
/// checked first.
pub fn build_options(g: &IndexGroup, expiration_secs: u64) -> (r: Result<
    IndexOptions,
    SchemaError,
>)
    ensures
        r is Ok <==> options_ok(g@),
        !pfe_ok(g@) ==> r == Err::<IndexOptions, SchemaError>(SchemaError::MalformedPartialFilter),
        pfe_ok(g@) && !strength_ok(g@) ==> r == Err::<IndexOptions, SchemaError>(
            SchemaError::CollationStrengthOutOfRange,
        ),
        r matches Ok(o) ==> o@ == options_spec(g@, expiration_secs),
{
    let partial_filter = match &g.pfe {
        Some(t) => {
            if !lex_filter_text(t.as_str()) {
                return Err(SchemaError::MalformedPartialFilter);
            }
            Some(t.clone())
        },
        None => None,
    };
    let collation = match &g.case_insensitivity {
        None => CollationOpt { locale: "en".to_owned(), strength: None },
        Some(c) => match strength_of(c.strength) {
            Some(s) => CollationOpt { locale: c.locale.clone(), strength: Some(s) },
            None => {
                return Err(SchemaError::CollationStrengthOutOfRange);
            },
        },
    };
    let weights_all = build_weights(&g.pairs);
    proof {
        assert(weights_view(weights_all@).len() == weights_all@.len());
    }
    let weights = if weights_all.len() > 0 {
        Some(weights_all)
    } else {
        None
    };
    let name = match &g.index_name {
        Some(n) => {
            if n.as_str().is_empty() {
                None
            } else {
                Some(n.clone())
            }
        },
        None => None,
    };
    let (bits, min_bits, max_bits) = match &g.geo {
        Some(GeoKind::Spherical { bits, min_bits, max_bits }) => (
            Some(*bits),
            Some(*min_bits),
            Some(*max_bits),
        ),
        _ => (None, None, None),
    };
    let opts = IndexOptions {
        name,
        unique: g.unique,
        expire_after_secs: if expiration_secs > 0 {
            Some(expiration_secs)
        } else {
            None
        },
        weights,
        bits,
        min_bits,
        max_bits,
        collation,
        language_override: find_lang(&g.pairs),
        partial_filter,
    };
    Ok(opts)
}

} // verus!
