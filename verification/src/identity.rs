//! Identity resolution: finding the one field that identifies a document.
//!
//! A record type must mark exactly one field as its identity, either
//! application-assigned or store-native (never both on one field). An
//! application-assigned identity is implicitly unique, so its indexing
//! metadata is upgraded before collation; a store-native identity keeps its
//! conventional store-level name, an underscore before the field's own.

use vstd::prelude::*;

use crate::schema::{DeclView, FieldDecl, IndexingMeta, MetaView, SchemaError, decls_view};

verus! {

/// How a saved record's key value is obtained from an instance: by reference
/// for an application-assigned key, by unwrapping the optional holder for a
/// store-generated key that is guaranteed present once saved.
#[derive(Clone, Copy, PartialEq, Eq, Structural, Debug)]
pub enum KeyAccess {
    ByReference,
    UnwrapOptional,
}

/// The identity part of a compiled collection: the store-level name of the
/// key field, and how to reach its value.
pub struct IdentityInfo {
    pub key_field_name: String,
    pub key_access: KeyAccess,
}

/// Mathematical model of an [`IdentityInfo`].
pub ghost struct IdentityInfoView {
    pub key_field_name: Seq<char>,
    pub key_access: KeyAccess,
}

impl View for IdentityInfo {
    type V = IdentityInfoView;

    open spec fn view(&self) -> IdentityInfoView {
        IdentityInfoView { key_field_name: self.key_field_name@, key_access: self.key_access }
    }
}

/// A field marked as identity, in either flavour.
pub open spec fn is_identity(d: DeclView) -> bool {
    d.id_field || d.native_id_field
}

/// No field of the sequence is marked as identity.
pub open spec fn no_identity(ds: Seq<DeclView>) -> bool {
    forall|i: int| 0 <= i < ds.len() ==> !is_identity(#[trigger] ds[i])
}

/// Exactly one field is marked as identity, and that field does not carry
/// both identity flavours at once. This is precisely when identity
/// resolution succeeds.
pub open spec fn identity_ok(ds: Seq<DeclView>) -> bool {
    exists|k: int|
        0 <= k < ds.len() && is_identity(#[trigger] ds[k]) && !(ds[k].id_field
            && ds[k].native_id_field) && (forall|j: int|
            0 <= j < ds.len() && j != k ==> !is_identity(#[trigger] ds[j]))
}

/// The store-level name of the key field: a store-generated key goes by the
/// conventional underscore-prefixed name, an application-assigned key by the
/// field's own name.
pub open spec fn key_name_spec(name: Seq<char>, native: bool) -> Seq<char> {
    if native {
        "_"@ + name
    } else {
        name
    }
}

/// The indexing metadata an application-assigned identity field ends up
/// with: its own, with uniqueness switched on.
pub open spec fn upgraded_meta(m: MetaView) -> MetaView {
    MetaView {
        sub: m.sub,
        index: m.index,
        link: m.link,
        order: m.order,
        unique: true,
        text_weight: m.text_weight,
        two_d: m.two_d,
        two_d_bits: m.two_d_bits,
        two_d_min_bits: m.two_d_min_bits,
        two_d_max_bits: m.two_d_max_bits,
        icase_locale: m.icase_locale,
        icase_strength: m.icase_strength,
        name: m.name,
        lang_field: m.lang_field,
        pfe: m.pfe,
    }
}

/// A bare metadata bag that only declares uniqueness: what an
/// application-assigned identity field without annotations receives.
pub open spec fn fresh_unique_meta() -> MetaView {
    MetaView {
        sub: None,
        index: None,
        link: None,
        order: None,
        unique: true,
        text_weight: None,
        two_d: None,
        two_d_bits: None,
        two_d_min_bits: None,
        two_d_max_bits: None,
        icase_locale: None,
        icase_strength: None,
        name: None,
        lang_field: false,
        pfe: None,
    }
}

/// An application-assigned identity field after its implicit uniqueness
/// upgrade.
pub open spec fn upgraded_decl(d: DeclView) -> DeclView {
    DeclView {
        name: d.name,
        id_field: d.id_field,
        native_id_field: d.native_id_field,
        indexing: Some(
            match d.indexing {
                Some(m) => upgraded_meta(m),
                None => fresh_unique_meta(),
            },
        ),
    }
}

/// Scans a record type's fields for its identity field.
///
/// Succeeds exactly when one field is marked as identity, with one flavour.
/// On success it returns the key-field name and access path, and the fields
/// with the application-assigned identity's implicit uniqueness applied;
/// every other field comes back untouched.
#[verifier::loop_isolation(false)]
pub fn resolve_identity(fields: Vec<FieldDecl>) -> (r: Result<
    (IdentityInfo, Vec<FieldDecl>),
    SchemaError,
>)
    ensures
        r is Ok <==> identity_ok(decls_view(fields@)),
        r == Err::<(IdentityInfo, Vec<FieldDecl>), SchemaError>(SchemaError::MissingIdentityField)
            <==> no_identity(decls_view(fields@)),
        !identity_ok(decls_view(fields@)) && !no_identity(decls_view(fields@)) ==> r == Err::<
            (IdentityInfo, Vec<FieldDecl>),
            SchemaError,
        >(SchemaError::MultipleIdentityFields),
        r matches Ok(p) ==> ({
            let ds = decls_view(fields@);
            let out = decls_view(p.1@);
            &&& out.len() == ds.len()
            &&& (forall|j: int|
                0 <= j < ds.len() && !is_identity(#[trigger] ds[j]) ==> out[j] == ds[j])
            &&& (forall|k: int|
                0 <= k < ds.len() && is_identity(#[trigger] ds[k]) ==> ({
                    &&& p.0@.key_field_name == key_name_spec(ds[k].name, ds[k].native_id_field)
                    &&& (ds[k].native_id_field ==> out[k] == ds[k] && p.0@.key_access
                        == KeyAccess::UnwrapOptional)
                    &&& (!ds[k].native_id_field ==> out[k] == upgraded_decl(ds[k]) && p.0@.key_access
                        == KeyAccess::ByReference)
                }))
        }),
{
    let mut fields = fields;
    let ghost ds = decls_view(fields@);
    let mut found: Option<usize> = None;
    let mut native = false;
    let mut i: usize = 0;
    while i < fields.len()
        invariant
            i <= fields@.len(),
            ds == decls_view(fields@),
            match found {
                Some(k) => k < i && is_identity(ds[k as int]) && !(ds[k as int].id_field
                    && ds[k as int].native_id_field) && native == ds[k as int].native_id_field
                    && (forall|j: int|
                    0 <= j < i && j != k ==> !is_identity(#[trigger] ds[j])),
                None => forall|j: int| 0 <= j < i ==> !is_identity(#[trigger] ds[j]),
            },
        decreases fields@.len() - i,
    {
        let marked = fields[i].id_field || fields[i].native_id_field;
        if marked {
            assert(is_identity(ds[i as int]));
            let second = found.is_some();
            let both = fields[i].id_field && fields[i].native_id_field;
            if second || both {
                proof {
                    assert(!identity_ok(ds)) by {
                        if identity_ok(ds) {
                            let k0 = choose|k0: int|
                                0 <= k0 < ds.len() && is_identity(#[trigger] ds[k0]) && !(
                                ds[k0].id_field && ds[k0].native_id_field) && (forall|j: int|
                                    0 <= j < ds.len() && j != k0 ==> !is_identity(
                                        #[trigger] ds[j],
                                    ));
                            if second {
                                let k = found->Some_0 as int;
                                if k0 != k {
                                    assert(!is_identity(ds[k]));
                                } else {
                                    assert(!is_identity(ds[i as int]));
                                }
                            } else {
                                if k0 != i as int {
                                    assert(!is_identity(ds[i as int]));
                                }
                            }
                        }
                    }
                    assert(!no_identity(ds)) by {
                        assert(is_identity(ds[i as int]));
                    }
                }
                return Err(SchemaError::MultipleIdentityFields);
            }
            found = Some(i);
            native = fields[i].native_id_field;
        }
        i += 1;
    }
    match found {
        None => {
            assert(no_identity(ds));
            assert(!identity_ok(ds)) by {
                if identity_ok(ds) {
                    let k0 = choose|k0: int|
                        0 <= k0 < ds.len() && is_identity(#[trigger] ds[k0]) && !(ds[k0].id_field
                            && ds[k0].native_id_field) && (forall|j: int|
                            0 <= j < ds.len() && j != k0 ==> !is_identity(#[trigger] ds[j]));
                    assert(!is_identity(ds[k0]));
                }
            }
            Err(SchemaError::MissingIdentityField)
        },
        Some(k) => {
            assert(identity_ok(ds)) by {
                assert(0 <= (k as int) < ds.len() && is_identity(ds[k as int]) && !(
                ds[k as int].id_field && ds[k as int].native_id_field) && (forall|j: int|
                    0 <= j < ds.len() && j != k as int ==> !is_identity(#[trigger] ds[j])));
            }
            if native {
                let mut key = String::new();
                key.append("_");
                key.append(fields[k].name.as_str());
                proof {
                    assert(key@ =~= "_"@ + ds[k as int].name);
                }
                let info = IdentityInfo { key_field_name: key, key_access: KeyAccess::UnwrapOptional };
                Ok((info, fields))
            } else {
                let ghost fields0 = fields@;
                let mut f = fields.remove(k);
                let key = f.name.clone();
                let meta = match f.indexing {
                    Some(mut m) => {
                        m.unique = true;
                        m
                    },
                    None => IndexingMeta {
                        sub: None,
                        index: None,
                        link: None,
                        order: None,
                        unique: true,
                        text_weight: None,
                        two_d: None,
                        two_d_bits: None,
                        two_d_min_bits: None,
                        two_d_max_bits: None,
                        icase_locale: None,
                        icase_strength: None,
                        name: None,
                        lang_field: false,
                        pfe: None,
                    },
                };
                f.indexing = Some(meta);
                proof {
                    assert(f@ == upgraded_decl(ds[k as int]));
                }
                let ghost f2 = f@;
                fields.insert(k, f);
                proof {
                    assert forall|j: int| 0 <= j < fields@.len() implies decls_view(fields@)[j]
                        == ds.update(k as int, f2)[j] by {
                        if j < k {
                            assert(fields@[j] == fields0.remove(k as int)[j]);
                            assert(fields0.remove(k as int)[j] == fields0[j]);
                        } else if j == k {
                            assert(fields@[j]@ == f2);
                        } else {
                            assert(fields@[j] == fields0.remove(k as int)[j - 1]);
                            assert(fields0.remove(k as int)[j - 1] == fields0[j]);
                        }
                    }
                    assert(decls_view(fields@) =~= ds.update(k as int, f2));
                }
                let info = IdentityInfo { key_field_name: key, key_access: KeyAccess::ByReference };
                Ok((info, fields))
            }
        },
    }
}

} // verus!
