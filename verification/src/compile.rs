//! The compile step: from a record type's declared schema to its collection
//! identity and its ordered list of index build instructions.
//!
//! Compilation runs once, at type-registration time: identity resolution
//! first (so that an application-assigned key's implicit uniqueness takes
//! part in collation), then collation of the annotated fields, then one key
//! document and options object per group, in collation order.

use vstd::prelude::*;

use crate::collate::{GroupView, collate, collate_spec, fields_view};
use crate::emit::{
    IndexOptions, KeyEntry, OptionsView, build_key_doc, build_options, key_doc_spec, keys_view,
    options_ok, options_spec, KeyEntryView,
};
use crate::field::{FieldView, ResolvedField, resolve_field, resolve_field_spec};
use crate::identity::{
    KeyAccess, identity_ok, is_identity, key_name_spec, no_identity, resolve_identity,
    upgraded_decl,
};
use crate::schema::{DeclView, FieldDecl, RecordSchema, SchemaError, SchemaView, decls_view};

verus! {

/// The normalized identity of a collection: where documents of the record
/// type live, the store-level key field, how the key's value is reached, and
/// the type-wide expiration (zero meaning none).
pub struct IdentitySpec {
    pub collection_name: String,
    pub key_field_name: String,
    pub key_access: KeyAccess,
    pub expiration_secs: u64,
}

/// Mathematical model of an [`IdentitySpec`].
pub ghost struct IdentitySpecView {
    pub collection_name: Seq<char>,
    pub key_field_name: Seq<char>,
    pub key_access: KeyAccess,
    pub expiration_secs: u64,
}

impl View for IdentitySpec {
    type V = IdentitySpecView;

    open spec fn view(&self) -> IdentitySpecView {
        IdentitySpecView {
            collection_name: self.collection_name@,
            key_field_name: self.key_field_name@,
            key_access: self.key_access,
            expiration_secs: self.expiration_secs,
        }
    }
}

/// One index build instruction: the ordered key document and its options.
pub struct IndexSpec {
    pub keys: Vec<KeyEntry>,
    pub options: IndexOptions,
}

/// Mathematical model of an [`IndexSpec`].
pub ghost struct IndexSpecView {
    pub keys: Seq<KeyEntryView>,
    pub options: OptionsView,
}

impl View for IndexSpec {
    type V = IndexSpecView;

    open spec fn view(&self) -> IndexSpecView {
        IndexSpecView { keys: keys_view(self.keys@), options: self.options@ }
    }
}

/// A compiled collection: the identity and the index instructions, ready to
/// hand to a database driver.
pub struct CompiledCollection {
    pub identity: IdentitySpec,
    pub indexes: Vec<IndexSpec>,
}

/// The views of a sequence of index instructions.
pub open spec fn indexes_view(xs: Seq<IndexSpec>) -> Seq<IndexSpecView> {
    xs.map_values(|x: IndexSpec| x@)
}

/// Every field declaration after identity resolution: the one
/// application-assigned identity field (if that is the flavour declared)
/// carries its implicit uniqueness, everything else is untouched.
pub open spec fn upgrade_all(ds: Seq<DeclView>) -> Seq<DeclView> {
    Seq::new(
        ds.len(),
        |i: int|
            if is_identity(ds[i]) && !ds[i].native_id_field {
                upgraded_decl(ds[i])
            } else {
                ds[i]
            },
    )
}

/// The fields that take part in index building: those carrying an indexing
/// annotation, normalized, in declaration order.
pub open spec fn indexed_fields_spec(ds: Seq<DeclView>) -> Seq<FieldView>
    decreases ds.len(),
{
    if ds.len() == 0 {
        Seq::empty()
    } else {
        indexed_fields_spec(ds.drop_last()) + (match ds.last().indexing {
            Some(m) => seq![resolve_field_spec(ds.last().name, m)],
            None => Seq::empty(),
        })
    }
}

/// The index groups a whole schema collates into.
pub open spec fn schema_groups(s: SchemaView) -> Seq<GroupView> {
    collate_spec(indexed_fields_spec(upgrade_all(s.fields)))
}

/// The record type's expiration setting, zero when absent.
pub open spec fn expiration_of(s: SchemaView) -> u64 {
    match s.expiration_secs {
        Some(e) => e,
        None => 0u64,
    }
}

/// A schema compiles exactly when its identity resolves and every collated
/// group passes the options checks.
pub open spec fn schema_ok(s: SchemaView) -> bool {
    identity_ok(s.fields) && (forall|k: int|
        0 <= k < schema_groups(s).len() ==> options_ok(#[trigger] schema_groups(s)[k]))
}

/// Compiles a record type's schema declaration.
///
/// On success the result holds the collection identity and, in collation
/// order, one key document and options object per index group. Compilation
/// fails exactly on the schema-declaration errors: zero or several identity
/// fields (or both flavours on one), a partial filter that does not lex, or
/// a collation strength outside one through five.
#[verifier::loop_isolation(false)]
pub fn compile(schema: RecordSchema) -> (r: Result<CompiledCollection, SchemaError>)
    ensures
        r is Ok <==> schema_ok(schema@),
        no_identity(schema@.fields) ==> r == Err::<CompiledCollection, SchemaError>(
            SchemaError::MissingIdentityField,
        ),
        !no_identity(schema@.fields) && !identity_ok(schema@.fields) ==> r == Err::<
            CompiledCollection,
            SchemaError,
        >(SchemaError::MultipleIdentityFields),
        identity_ok(schema@.fields) && !schema_ok(schema@) ==> (r == Err::<
            CompiledCollection,
            SchemaError,
        >(SchemaError::MalformedPartialFilter) || r == Err::<CompiledCollection, SchemaError>(
            SchemaError::CollationStrengthOutOfRange,
        )),
        r matches Ok(c) ==> ({
            let s = schema@;
            let gs = schema_groups(s);
            &&& c.identity@.collection_name == s.collection_name
            &&& c.identity@.expiration_secs == expiration_of(s)
            &&& (forall|k: int|
                0 <= k < s.fields.len() && is_identity(#[trigger] s.fields[k]) ==> ({
                    &&& c.identity@.key_field_name == key_name_spec(
                        s.fields[k].name,
                        s.fields[k].native_id_field,
                    )
                    &&& c.identity@.key_access == (if s.fields[k].native_id_field {
                        KeyAccess::UnwrapOptional
                    } else {
                        KeyAccess::ByReference
                    })
                }))
            &&& indexes_view(c.indexes@).len() == gs.len()
            &&& (forall|k: int|
                0 <= k < gs.len() ==> (#[trigger] indexes_view(c.indexes@)[k]).keys
                    == key_doc_spec(gs[k]) && indexes_view(c.indexes@)[k].options == options_spec(
                    gs[k],
                    expiration_of(s),
                ))
        }),
{
    let ghost s = schema@;
    let RecordSchema { collection_name, expiration_secs, fields } = schema;
    let (info, fields) = match resolve_identity(fields) {
        Ok(p) => p,
        Err(e) => {
            return Err(e);
        },
    };
    proof {
        assert(decls_view(fields@) =~= upgrade_all(s.fields));
    }
    let ghost up = upgrade_all(s.fields);
    let mut rest = fields;
    let mut resolved: Vec<ResolvedField> = Vec::new();
    let ghost mut done: int = 0;
    proof {
        assert(decls_view(rest@) =~= up.skip(0));
        assert(fields_view(resolved@) =~= indexed_fields_spec(up.take(0)));
    }
    while rest.len() > 0
        invariant
            0 <= done <= up.len(),
            decls_view(rest@) == up.skip(done),
            fields_view(resolved@) == indexed_fields_spec(up.take(done)),
        decreases rest@.len(),
    {
        proof {
            assert(decls_view(rest@).len() == rest@.len());
        }
        let ghost rest0 = rest@;
        let d = rest.remove(0);
        let ghost dv = d@;
        proof {
            assert(decls_view(rest0)[0] == dv);
            assert(dv == up[done]);
            assert forall|j: int| 0 <= j < rest@.len() implies decls_view(rest@)[j] == up.skip(
                done + 1,
            )[j] by {
                assert(rest@[j] == rest0[j + 1]);
                assert(decls_view(rest0)[j + 1] == up.skip(done)[j + 1]);
            }
            assert(decls_view(rest@) =~= up.skip(done + 1));
            assert(up.take(done + 1).drop_last() =~= up.take(done));
            assert(up.take(done + 1).last() == up[done]);
        }
        let ghost res0 = fields_view(resolved@);
        match d.indexing {
            Some(m) => {
                let ghost mv = m@;
                let rf = resolve_field(d.name, m);
                resolved.push(rf);
                proof {
                    assert forall|j: int| 0 <= j < resolved@.len() implies fields_view(
                        resolved@,
                    )[j] == res0.push(resolve_field_spec(dv.name, mv))[j] by {}
                    assert(fields_view(resolved@) =~= res0.push(resolve_field_spec(dv.name, mv)));
                    assert(indexed_fields_spec(up.take(done + 1)) =~= res0.push(
                        resolve_field_spec(dv.name, mv),
                    ));
                }
            },
            None => {
                proof {
                    assert(indexed_fields_spec(up.take(done + 1)) =~= res0);
                }
            },
        }
        proof {
            done = done + 1;
        }
    }
    proof {
        assert(up.take(done) =~= up);
    }
    let groups = collate(resolved);
    let ghost gs = schema_groups(s);
    proof {
        assert(crate::collate::groups_view(groups@) == gs);
    }
    let expiration = match expiration_secs {
        Some(e) => e,
        None => 0u64,
    };
    let mut indexes: Vec<IndexSpec> = Vec::new();
    let mut i: usize = 0;
    while i < groups.len()
        invariant
            i <= groups@.len(),
            crate::collate::groups_view(groups@) == gs,
            expiration == expiration_of(s),
            indexes_view(indexes@).len() == i as int,
            forall|k: int| 0 <= k < i ==> options_ok(#[trigger] gs[k]),
            forall|k: int|
                0 <= k < i ==> (#[trigger] indexes_view(indexes@)[k]).keys == key_doc_spec(gs[k])
                    && indexes_view(indexes@)[k].options == options_spec(gs[k], expiration_of(s)),
        decreases groups@.len() - i,
    {
        let keys = build_key_doc(&groups[i]);
        match build_options(&groups[i], expiration) {
            Ok(o) => {
                let ghost x0 = indexes@;
                let x = IndexSpec { keys, options: o };
                let ghost xv = x@;
                indexes.push(x);
                proof {
                    assert forall|k: int| 0 <= k < indexes@.len() implies indexes_view(
                        indexes@,
                    )[k] == x0.map_values(|y: IndexSpec| y@).push(xv)[k] by {
                        if k < x0.len() {
                            assert(indexes@[k] == x0[k]);
                        } else {
                            assert(indexes@[k] == x);
                        }
                    }
                    assert(gs[i as int] == groups@[i as int]@);
                }
            },
            Err(e) => {
                proof {
                    assert(!options_ok(schema_groups(s)[i as int]));
                    assert(!schema_ok(s));
                }
                return Err(e);
            },
        }
        i += 1;
    }
    proof {
        assert(schema_ok(s));
    }
    Ok(
        CompiledCollection {
            identity: IdentitySpec {
                collection_name,
                key_field_name: info.key_field_name,
                key_access: info.key_access,
                expiration_secs: expiration,
            },
            indexes,
        },
    )
}

/// The save contract's integrity check: a replace-by-identity must have
/// matched exactly one existing document. A mismatch is a real error of the
/// operation, not a mere diagnostic.
pub fn replace_matched_one(matched_count: u64) -> (r: bool)
    ensures
        r == (matched_count == 1),
{
    matched_count == 1
}

} // verus!
