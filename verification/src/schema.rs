//! The schema declaration surface: the raw, per-field annotation bag that a
//! record type carries, and the record-level declaration that owns it.
//!
//! Everything here is input. The compiler consumes a [`RecordSchema`] and
//! produces the collection identity and index instructions; fields whose
//! `indexing` bag is absent take no part in index building.

use vstd::prelude::*;

verus! {

/// The declared flavour of a geospatial index, before parameter defaulting.
#[derive(Clone, Copy, PartialEq, Eq, Structural, Debug)]
pub enum TwoDKind {
    /// Spherical geometry; carries bits and coordinate bounds once resolved.
    Spherical,
    /// Planar geometry; carries no numeric parameters.
    Cartesian,
}

/// One field's raw indexing annotation bag, exactly as declared.
///
/// Geospatial coordinate bounds are carried as IEEE-754 double bit patterns:
/// the compiler never interprets them, it only defaults and forwards them.
#[derive(Clone)]
pub struct IndexingMeta {
    /// Nested sub-document path; the index path becomes `field.sub`.
    pub sub: Option<String>,
    /// Explicit index slot (direction/priority).
    pub index: Option<i32>,
    /// Link identifier joining this field into a compound index.
    pub link: Option<String>,
    /// Position of this field inside its compound index.
    pub order: Option<u8>,
    pub unique: bool,
    /// Declares a full-text index with this weight.
    pub text_weight: Option<u8>,
    pub two_d: Option<TwoDKind>,
    pub two_d_bits: Option<u32>,
    /// Bit pattern of the minimum coordinate for a spherical index.
    pub two_d_min_bits: Option<u64>,
    /// Bit pattern of the maximum coordinate for a spherical index.
    pub two_d_max_bits: Option<u64>,
    pub icase_locale: Option<String>,
    pub icase_strength: Option<u8>,
    /// Explicit index name.
    pub name: Option<String>,
    /// Marks the field holding the per-document language override.
    pub lang_field: bool,
    /// Partial filter expression text.
    pub pfe: Option<String>,
}

/// Mathematical model of an [`IndexingMeta`].
pub ghost struct MetaView {
    pub sub: Option<Seq<char>>,
    pub index: Option<i32>,
    pub link: Option<Seq<char>>,
    pub order: Option<u8>,
    pub unique: bool,
    pub text_weight: Option<u8>,
    pub two_d: Option<TwoDKind>,
    pub two_d_bits: Option<u32>,
    pub two_d_min_bits: Option<u64>,
    pub two_d_max_bits: Option<u64>,
    pub icase_locale: Option<Seq<char>>,
    pub icase_strength: Option<u8>,
    pub name: Option<Seq<char>>,
    pub lang_field: bool,
    pub pfe: Option<Seq<char>>,
}

/// The view of an optional string: the character sequence, if present.
pub open spec fn opt_view(s: Option<String>) -> Option<Seq<char>> {
    match s {
        Some(v) => Some(v@),
        None => None,
    }
}

impl View for IndexingMeta {
    type V = MetaView;

    open spec fn view(&self) -> MetaView {
        MetaView {
            sub: opt_view(self.sub),
            index: self.index,
            link: opt_view(self.link),
            order: self.order,
            unique: self.unique,
            text_weight: self.text_weight,
            two_d: self.two_d,
            two_d_bits: self.two_d_bits,
            two_d_min_bits: self.two_d_min_bits,
            two_d_max_bits: self.two_d_max_bits,
            icase_locale: opt_view(self.icase_locale),
            icase_strength: self.icase_strength,
            name: opt_view(self.name),
            lang_field: self.lang_field,
            pfe: opt_view(self.pfe),
        }
    }
}

/// One declared field of a record type: its identifier, whether it is the
/// identity field (application-assigned or store-native), and its indexing
/// annotations, if any.
pub struct FieldDecl {
    pub name: String,
    /// Application-assigned identity field.
    pub id_field: bool,
    /// Store-generated identity field.
    pub native_id_field: bool,
    pub indexing: Option<IndexingMeta>,
}

/// Mathematical model of a [`FieldDecl`].
pub ghost struct DeclView {
    pub name: Seq<char>,
    pub id_field: bool,
    pub native_id_field: bool,
    pub indexing: Option<MetaView>,
}

impl View for FieldDecl {
    type V = DeclView;

    open spec fn view(&self) -> DeclView {
        DeclView {
            name: self.name@,
            id_field: self.id_field,
            native_id_field: self.native_id_field,
            indexing: match self.indexing {
                Some(m) => Some(m@),
                None => None,
            },
        }
    }
}

/// A whole record type's declaration: the collection it lives in, its
/// optional document expiration, and its fields.
pub struct RecordSchema {
    pub collection_name: String,
    /// Documents of this type expire after this many seconds; zero or absent
    /// means no expiration. The setting applies to every index of the type.
    pub expiration_secs: Option<u64>,
    pub fields: Vec<FieldDecl>,
}

/// Mathematical model of a [`RecordSchema`].
pub ghost struct SchemaView {
    pub collection_name: Seq<char>,
    pub expiration_secs: Option<u64>,
    pub fields: Seq<DeclView>,
}

/// The views of a sequence of field declarations.
pub open spec fn decls_view(ds: Seq<FieldDecl>) -> Seq<DeclView> {
    ds.map_values(|d: FieldDecl| d@)
}

impl View for RecordSchema {
    type V = SchemaView;

    open spec fn view(&self) -> SchemaView {
        SchemaView {
            collection_name: self.collection_name@,
            expiration_secs: self.expiration_secs,
            fields: decls_view(self.fields@),
        }
    }
}

/// Everything that can go wrong while compiling a schema declaration. These
/// are programmer errors, surfaced before any runtime use of the type.
#[derive(Clone, Copy, PartialEq, Eq, Structural, Debug)]
pub enum SchemaError {
    /// More than one field is marked as identity, or one field carries both
    /// identity markings.
    MultipleIdentityFields,
    /// No field is marked as identity.
    MissingIdentityField,
    /// A declared collation strength lies outside the meaningful range.
    CollationStrengthOutOfRange,
    /// A partial filter expression does not lex in the filter grammar.
    MalformedPartialFilter,
}

} // verus!
