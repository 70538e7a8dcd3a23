//! The field metadata model: one field's annotation bag, normalized.
//!
//! Normalization packs the four raw geospatial settings into one value,
//! filling in the conventional spherical defaults where the declaration is
//! silent: twenty-six location bits and coordinate bounds of minus and plus
//! one hundred eighty degrees (carried as IEEE-754 double bit patterns).

use vstd::prelude::*;

use crate::schema::{IndexingMeta, MetaView, TwoDKind, opt_view};

verus! {

/// Default location bits for a spherical geospatial index.
pub const SPHERE_DEFAULT_BITS: u32 = 26;

/// IEEE-754 double bit pattern of the default minimum coordinate, minus one
/// hundred eighty degrees.
pub const SPHERE_DEFAULT_MIN_BITS: u64 = 0xC066_8000_0000_0000;

/// IEEE-754 double bit pattern of the default maximum coordinate, plus one
/// hundred eighty degrees.
pub const SPHERE_DEFAULT_MAX_BITS: u64 = 0x4066_8000_0000_0000;

/// A fully resolved geospatial index kind: spherical geometry carries its
/// location bits and coordinate bounds, planar geometry carries nothing.
#[derive(Clone, Copy, PartialEq, Eq, Structural, Debug)]
pub enum GeoKind {
    Spherical { bits: u32, min_bits: u64, max_bits: u64 },
    Cartesian,
}

/// How the raw geospatial settings of an annotation bag resolve: absent stays
/// absent, planar carries no parameters, and a spherical declaration takes
/// its explicit parameters where given and the conventional defaults where
/// not.
pub open spec fn resolve_geo_spec(
    two_d: Option<TwoDKind>,
    bits: Option<u32>,
    min_bits: Option<u64>,
    max_bits: Option<u64>,
) -> Option<GeoKind> {
    match two_d {
        None => None,
        Some(TwoDKind::Cartesian) => Some(GeoKind::Cartesian),
        Some(TwoDKind::Spherical) => Some(
            GeoKind::Spherical {
                bits: match bits {
                    Some(b) => b,
                    None => SPHERE_DEFAULT_BITS,
                },
                min_bits: match min_bits {
                    Some(m) => m,
                    None => SPHERE_DEFAULT_MIN_BITS,
                },
                max_bits: match max_bits {
                    Some(m) => m,
                    None => SPHERE_DEFAULT_MAX_BITS,
                },
            },
        ),
    }
}

/// One field's normalized indexing metadata: the raw bag with its geospatial
/// settings packed into a [`GeoKind`].
pub struct ResolvedField {
    pub field_name: String,
    pub sub: Option<String>,
    pub index: Option<i32>,
    pub link: Option<String>,
    pub order: Option<u8>,
    pub unique: bool,
    pub text_weight: Option<u8>,
    pub geo: Option<GeoKind>,
    pub icase_locale: Option<String>,
    pub icase_strength: Option<u8>,
    pub index_name: Option<String>,
    pub lang_field: bool,
    pub pfe: Option<String>,
}

/// Mathematical model of a [`ResolvedField`].
pub ghost struct FieldView {
    pub field_name: Seq<char>,
    pub sub: Option<Seq<char>>,
    pub index: Option<i32>,
    pub link: Option<Seq<char>>,
    pub order: Option<u8>,
    pub unique: bool,
    pub text_weight: Option<u8>,
    pub geo: Option<GeoKind>,
    pub icase_locale: Option<Seq<char>>,
    pub icase_strength: Option<u8>,
    pub index_name: Option<Seq<char>>,
    pub lang_field: bool,
    pub pfe: Option<Seq<char>>,
}

impl View for ResolvedField {
    type V = FieldView;

    open spec fn view(&self) -> FieldView {
        FieldView {
            field_name: self.field_name@,
            sub: opt_view(self.sub),
            index: self.index,
            link: opt_view(self.link),
            order: self.order,
            unique: self.unique,
            text_weight: self.text_weight,
            geo: self.geo,
            icase_locale: opt_view(self.icase_locale),
            icase_strength: self.icase_strength,
            index_name: opt_view(self.index_name),
            lang_field: self.lang_field,
            pfe: opt_view(self.pfe),
        }
    }
}

/// How a named field's annotation bag normalizes into a [`FieldView`].
pub open spec fn resolve_field_spec(name: Seq<char>, m: MetaView) -> FieldView {
    FieldView {
        field_name: name,
        sub: m.sub,
        index: m.index,
        link: m.link,
        order: m.order,
        unique: m.unique,
        text_weight: m.text_weight,
        geo: resolve_geo_spec(m.two_d, m.two_d_bits, m.two_d_min_bits, m.two_d_max_bits),
        icase_locale: m.icase_locale,
        icase_strength: m.icase_strength,
        index_name: m.name,
        lang_field: m.lang_field,
        pfe: m.pfe,
    }
}

/// Normalizes one field's annotation bag, packing the geospatial settings
/// and applying the spherical defaults.
pub fn resolve_field(name: String, meta: IndexingMeta) -> (r: ResolvedField)
    ensures
        r@ == resolve_field_spec(name@, meta@),
{
    let geo = match meta.two_d {
        None => None,
        Some(TwoDKind::Cartesian) => Some(GeoKind::Cartesian),
        Some(TwoDKind::Spherical) => Some(
            GeoKind::Spherical {
                bits: match meta.two_d_bits {
                    Some(b) => b,
                    None => SPHERE_DEFAULT_BITS,
                },
                min_bits: match meta.two_d_min_bits {
                    Some(m) => m,
                    None => SPHERE_DEFAULT_MIN_BITS,
                },
                max_bits: match meta.two_d_max_bits {
                    Some(m) => m,
                    None => SPHERE_DEFAULT_MAX_BITS,
                },
            },
        ),
    };
    ResolvedField {
        field_name: name,
        sub: meta.sub,
        index: meta.index,
        link: meta.link,
        order: meta.order,
        unique: meta.unique,
        text_weight: meta.text_weight,
        geo,
        icase_locale: meta.icase_locale,
        icase_strength: meta.icase_strength,
        index_name: meta.name,
        lang_field: meta.lang_field,
        pfe: meta.pfe,
    }
}

} // verus!
