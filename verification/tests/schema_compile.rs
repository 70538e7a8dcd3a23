use goldleaf::compile::compile;
use goldleaf::emit::{CollationStrength, KeyMarker};
use goldleaf::field::GeoKind;
use goldleaf::identity::KeyAccess;
use goldleaf::schema::{FieldDecl, IndexingMeta, RecordSchema, SchemaError, TwoDKind};

fn meta() -> IndexingMeta {
    IndexingMeta {
        sub: None,
        index: None,
        link: None,
        order: None,
        unique: false,
        text_weight: None,
        two_d: None,
        two_d_bits: None,
        two_d_min_bits: None,
        two_d_max_bits: None,
        icase_locale: None,
        icase_strength: None,
        name: None,
        lang_field: false,
        pfe: None,
    }
}

fn plain_field(name: &str, indexing: Option<IndexingMeta>) -> FieldDecl {
    FieldDecl {
        name: name.to_string(),
        id_field: false,
        native_id_field: false,
        indexing,
    }
}

fn native_id(name: &str) -> FieldDecl {
    FieldDecl {
        name: name.to_string(),
        id_field: false,
        native_id_field: true,
        indexing: None,
    }
}

fn app_id(name: &str) -> FieldDecl {
    FieldDecl {
        name: name.to_string(),
        id_field: true,
        native_id_field: false,
        indexing: None,
    }
}

fn schema(fields: Vec<FieldDecl>) -> RecordSchema {
    RecordSchema {
        collection_name: "things".to_string(),
        expiration_secs: None,
        fields,
    }
}

#[test]
fn one_identity_field_compiles() {
    let c = compile(schema(vec![native_id("id"), plain_field("a", None)]));
    assert!(c.is_ok());
}

#[test]
fn missing_identity_field_fails() {
    let c = compile(schema(vec![plain_field("a", None)]));
    assert_eq!(c.err().unwrap(), SchemaError::MissingIdentityField);
}

#[test]
fn two_identity_fields_fail() {
    let c = compile(schema(vec![native_id("id"), app_id("key")]));
    assert_eq!(c.err().unwrap(), SchemaError::MultipleIdentityFields);
}

#[test]
fn both_identity_flavours_on_one_field_fail() {
    let both = FieldDecl {
        name: "id".to_string(),
        id_field: true,
        native_id_field: true,
        indexing: None,
    };
    let c = compile(schema(vec![both]));
    assert_eq!(c.err().unwrap(), SchemaError::MultipleIdentityFields);
}

#[test]
fn native_identity_uses_store_key_name() {
    let c = compile(schema(vec![native_id("id")])).unwrap();
    assert_eq!(c.identity.key_field_name, "_id");
    assert_eq!(c.identity.key_access, KeyAccess::UnwrapOptional);
    assert_eq!(c.identity.collection_name, "things");
}

#[test]
fn application_identity_keeps_name_and_gets_unique_index() {
    let c = compile(schema(vec![app_id("email")])).unwrap();
    assert_eq!(c.identity.key_field_name, "email");
    assert_eq!(c.identity.key_access, KeyAccess::ByReference);
    assert_eq!(c.indexes.len(), 1);
    assert_eq!(c.indexes[0].keys.len(), 1);
    assert_eq!(c.indexes[0].keys[0].path, "email");
    assert_eq!(c.indexes[0].keys[0].marker, KeyMarker::Slot(1));
    assert!(c.indexes[0].options.unique);
}

#[test]
fn user_example_single_unique_index() {
    let mut m = meta();
    m.index = Some(1);
    m.unique = true;
    let c = compile(RecordSchema {
        collection_name: "User".to_string(),
        expiration_secs: None,
        fields: vec![native_id("id"), plain_field("username", Some(m))],
    })
    .unwrap();
    assert_eq!(c.identity.key_field_name, "_id");
    assert_eq!(c.indexes.len(), 1);
    assert_eq!(c.indexes[0].keys.len(), 1);
    assert_eq!(c.indexes[0].keys[0].path, "username");
    assert_eq!(c.indexes[0].keys[0].marker, KeyMarker::Slot(1));
    let o = &c.indexes[0].options;
    assert!(o.unique);
    assert_eq!(o.name, None);
    assert_eq!(o.expire_after_secs, None);
    assert!(o.weights.is_none());
    assert_eq!(o.collation.locale, "en");
    assert_eq!(o.collation.strength, None);
    assert_eq!(o.language_override, None);
    assert_eq!(o.partial_filter, None);
}

#[test]
fn linked_fields_form_one_compound_index() {
    let mut country = meta();
    country.link = Some("geo".to_string());
    country.order = Some(0);
    let mut city = meta();
    city.link = Some("geo".to_string());
    city.order = Some(1);
    let c = compile(schema(vec![
        native_id("id"),
        plain_field("country", Some(country)),
        plain_field("city", Some(city)),
    ]))
    .unwrap();
    assert_eq!(c.indexes.len(), 1);
    let keys = &c.indexes[0].keys;
    assert_eq!(keys.len(), 2);
    assert_eq!(keys[0].path, "country");
    assert_eq!(keys[0].marker, KeyMarker::Slot(1));
    assert_eq!(keys[1].path, "city");
    assert_eq!(keys[1].marker, KeyMarker::Slot(1));
}

#[test]
fn linked_fields_order_ignores_declaration_order() {
    let mut country = meta();
    country.link = Some("geo".to_string());
    country.order = Some(0);
    let mut city = meta();
    city.link = Some("geo".to_string());
    city.order = Some(1);
    let c = compile(schema(vec![
        native_id("id"),
        plain_field("city", Some(city)),
        plain_field("country", Some(country)),
    ]))
    .unwrap();
    assert_eq!(c.indexes.len(), 1);
    let keys = &c.indexes[0].keys;
    assert_eq!(keys.len(), 2);
    assert_eq!(keys[0].path, "country");
    assert_eq!(keys[1].path, "city");
}

#[test]
fn linked_fields_equal_order_keeps_declaration_order() {
    let mut a = meta();
    a.link = Some("pair".to_string());
    let mut b = meta();
    b.link = Some("pair".to_string());
    let c = compile(schema(vec![
        native_id("id"),
        plain_field("first", Some(a)),
        plain_field("second", Some(b)),
    ]))
    .unwrap();
    let keys = &c.indexes[0].keys;
    assert_eq!(keys[0].path, "first");
    assert_eq!(keys[1].path, "second");
}

#[test]
fn compound_unique_is_or_of_members() {
    let mut a = meta();
    a.link = Some("x".to_string());
    let mut b = meta();
    b.link = Some("x".to_string());
    b.unique = true;
    let c = compile(schema(vec![
        native_id("id"),
        plain_field("a", Some(a.clone())),
        plain_field("b", Some(b)),
    ]))
    .unwrap();
    assert!(c.indexes[0].options.unique);

    let mut b2 = meta();
    b2.link = Some("x".to_string());
    let c2 = compile(schema(vec![
        native_id("id"),
        plain_field("a", Some(a)),
        plain_field("b", Some(b2)),
    ]))
    .unwrap();
    assert!(!c2.indexes[0].options.unique);
}

#[test]
fn lone_linked_field_still_builds_its_group() {
    let mut a = meta();
    a.link = Some("solo".to_string());
    let c = compile(schema(vec![native_id("id"), plain_field("a", Some(a))])).unwrap();
    assert_eq!(c.indexes.len(), 1);
    assert_eq!(c.indexes[0].keys[0].path, "a");
}

#[test]
fn spherical_defaults_fill_in() {
    let mut g = meta();
    g.two_d = Some(TwoDKind::Spherical);
    let c = compile(schema(vec![native_id("id"), plain_field("loc", Some(g))])).unwrap();
    let o = &c.indexes[0].options;
    assert_eq!(o.bits, Some(26));
    assert_eq!(f64::from_bits(o.min_bits.unwrap()), -180.0);
    assert_eq!(f64::from_bits(o.max_bits.unwrap()), 180.0);
    assert_eq!(c.indexes[0].keys[0].marker, KeyMarker::TwoDSphere);
}

#[test]
fn explicit_spherical_parameters_pass_through() {
    let mut g = meta();
    g.two_d = Some(TwoDKind::Spherical);
    g.two_d_bits = Some(12);
    g.two_d_min_bits = Some((-90.0f64).to_bits());
    g.two_d_max_bits = Some(90.0f64.to_bits());
    let c = compile(schema(vec![native_id("id"), plain_field("loc", Some(g))])).unwrap();
    let o = &c.indexes[0].options;
    assert_eq!(o.bits, Some(12));
    assert_eq!(f64::from_bits(o.min_bits.unwrap()), -90.0);
    assert_eq!(f64::from_bits(o.max_bits.unwrap()), 90.0);
}

#[test]
fn cartesian_geo_carries_no_parameters() {
    let mut g = meta();
    g.two_d = Some(TwoDKind::Cartesian);
    let c = compile(schema(vec![native_id("id"), plain_field("pos", Some(g))])).unwrap();
    let o = &c.indexes[0].options;
    assert_eq!(o.bits, None);
    assert_eq!(o.min_bits, None);
    assert_eq!(o.max_bits, None);
    assert_eq!(c.indexes[0].keys[0].marker, KeyMarker::TwoD);
}

#[test]
fn geo_field_resolves_spherical() {
    let mut g = meta();
    g.two_d = Some(TwoDKind::Spherical);
    let f = goldleaf::field::resolve_field("loc".to_string(), g);
    assert_eq!(
        f.geo,
        Some(GeoKind::Spherical {
            bits: 26,
            min_bits: (-180.0f64).to_bits(),
            max_bits: 180.0f64.to_bits(),
        })
    );
}

#[test]
fn text_weights_collect_exactly_weighted_members() {
    let mut title = meta();
    title.link = Some("search".to_string());
    title.text_weight = Some(10);
    title.order = Some(0);
    let mut body = meta();
    body.link = Some("search".to_string());
    body.text_weight = Some(2);
    body.order = Some(1);
    let mut stamp = meta();
    stamp.link = Some("search".to_string());
    stamp.order = Some(2);
    let c = compile(schema(vec![
        native_id("id"),
        plain_field("title", Some(title)),
        plain_field("body", Some(body)),
        plain_field("stamp", Some(stamp)),
    ]))
    .unwrap();
    assert_eq!(c.indexes.len(), 1);
    assert_eq!(c.indexes[0].keys[0].marker, KeyMarker::Text);
    assert_eq!(c.indexes[0].keys[1].marker, KeyMarker::Text);
    assert_eq!(c.indexes[0].keys[2].marker, KeyMarker::Slot(1));
    let w = c.indexes[0].options.weights.as_ref().unwrap();
    assert_eq!(w.len(), 2);
    assert_eq!(w[0].path, "title");
    assert_eq!(w[0].weight, 10);
    assert_eq!(w[1].path, "body");
    assert_eq!(w[1].weight, 2);
}

#[test]
fn unweighted_group_has_no_weights() {
    let mut m = meta();
    m.index = Some(-1);
    let c = compile(schema(vec![native_id("id"), plain_field("when", Some(m))])).unwrap();
    assert!(c.indexes[0].options.weights.is_none());
    assert_eq!(c.indexes[0].keys[0].marker, KeyMarker::Slot(-1));
}

#[test]
fn collation_strength_out_of_range_fails() {
    for bad in [0u8, 6, 200] {
        let mut m = meta();
        m.icase_locale = Some("en".to_string());
        m.icase_strength = Some(bad);
        let c = compile(schema(vec![native_id("id"), plain_field("a", Some(m))]));
        assert_eq!(c.err().unwrap(), SchemaError::CollationStrengthOutOfRange);
    }
}

#[test]
fn collation_strength_levels_map_in_order() {
    let expect = [
        (1u8, CollationStrength::Primary),
        (2, CollationStrength::Secondary),
        (3, CollationStrength::Tertiary),
        (4, CollationStrength::Quaternary),
        (5, CollationStrength::Identical),
    ];
    for (level, strength) in expect {
        let mut m = meta();
        m.icase_locale = Some("fr".to_string());
        m.icase_strength = Some(level);
        let c = compile(schema(vec![native_id("id"), plain_field("a", Some(m))])).unwrap();
        let col = &c.indexes[0].options.collation;
        assert_eq!(col.locale, "fr");
        assert_eq!(col.strength, Some(strength));
    }
}

#[test]
fn locale_without_strength_keeps_default_collation() {
    let mut m = meta();
    m.icase_locale = Some("de".to_string());
    let c = compile(schema(vec![native_id("id"), plain_field("a", Some(m))])).unwrap();
    let col = &c.indexes[0].options.collation;
    assert_eq!(col.locale, "en");
    assert_eq!(col.strength, None);
}

#[test]
fn malformed_partial_filter_fails() {
    let mut m = meta();
    m.pfe = Some("{ status: ".to_string());
    let c = compile(schema(vec![native_id("id"), plain_field("a", Some(m))]));
    assert_eq!(c.err().unwrap(), SchemaError::MalformedPartialFilter);
}

#[test]
fn wellformed_partial_filter_passes_through() {
    let mut m = meta();
    m.pfe = Some("{ status: 1 }".to_string());
    let c = compile(schema(vec![native_id("id"), plain_field("a", Some(m))])).unwrap();
    assert_eq!(
        c.indexes[0].options.partial_filter.as_deref(),
        Some("{ status: 1 }")
    );
}

#[test]
fn empty_declared_name_is_dropped() {
    let mut m = meta();
    m.name = Some(String::new());
    let c = compile(schema(vec![native_id("id"), plain_field("a", Some(m))])).unwrap();
    assert_eq!(c.indexes[0].options.name, None);

    let mut m2 = meta();
    m2.name = Some("by_a".to_string());
    let c2 = compile(schema(vec![native_id("id"), plain_field("a", Some(m2))])).unwrap();
    assert_eq!(c2.indexes[0].options.name.as_deref(), Some("by_a"));
}

#[test]
fn expiration_applies_to_every_index_when_positive() {
    let mut a = meta();
    a.index = Some(1);
    let mut b = meta();
    b.index = Some(-1);
    let c = compile(RecordSchema {
        collection_name: "sessions".to_string(),
        expiration_secs: Some(3600),
        fields: vec![
            native_id("id"),
            plain_field("a", Some(a)),
            plain_field("b", Some(b)),
        ],
    })
    .unwrap();
    assert_eq!(c.identity.expiration_secs, 3600);
    assert_eq!(c.indexes.len(), 2);
    for x in &c.indexes {
        assert_eq!(x.options.expire_after_secs, Some(3600));
    }
}

#[test]
fn zero_expiration_means_none() {
    let mut a = meta();
    a.index = Some(1);
    let c = compile(RecordSchema {
        collection_name: "sessions".to_string(),
        expiration_secs: Some(0),
        fields: vec![native_id("id"), plain_field("a", Some(a))],
    })
    .unwrap();
    assert_eq!(c.indexes[0].options.expire_after_secs, None);
}

#[test]
fn language_field_sets_override() {
    let mut text = meta();
    text.link = Some("t".to_string());
    text.text_weight = Some(1);
    let mut lang = meta();
    lang.link = Some("t".to_string());
    lang.lang_field = true;
    lang.order = Some(1);
    let c = compile(schema(vec![
        native_id("id"),
        plain_field("body", Some(text)),
        plain_field("tongue", Some(lang)),
    ]))
    .unwrap();
    assert_eq!(
        c.indexes[0].options.language_override.as_deref(),
        Some("tongue")
    );
}

#[test]
fn sub_path_extends_field_name() {
    let mut m = meta();
    m.sub = Some("zip".to_string());
    let c = compile(schema(vec![native_id("id"), plain_field("address", Some(m))])).unwrap();
    assert_eq!(c.indexes[0].keys[0].path, "address.zip");
}

#[test]
fn group_geo_kind_decides_member_marker() {
    let mut a = meta();
    a.link = Some("g".to_string());
    a.two_d = Some(TwoDKind::Cartesian);
    let mut b = meta();
    b.link = Some("g".to_string());
    b.two_d = Some(TwoDKind::Spherical);
    b.order = Some(1);
    let c = compile(schema(vec![
        native_id("id"),
        plain_field("a", Some(a)),
        plain_field("b", Some(b)),
    ]))
    .unwrap();
    assert_eq!(c.indexes[0].keys[0].marker, KeyMarker::TwoDSphere);
    assert_eq!(c.indexes[0].keys[1].marker, KeyMarker::TwoDSphere);
}

#[test]
fn independent_fields_keep_declaration_order() {
    let mut a = meta();
    a.index = Some(1);
    let mut b = meta();
    b.index = Some(-1);
    let c = compile(schema(vec![
        native_id("id"),
        plain_field("x", Some(a)),
        plain_field("y", Some(b)),
    ]))
    .unwrap();
    assert_eq!(c.indexes.len(), 2);
    assert_eq!(c.indexes[0].keys[0].path, "x");
    assert_eq!(c.indexes[1].keys[0].path, "y");
}

#[test]
fn unannotated_fields_build_no_indexes() {
    let c = compile(schema(vec![
        native_id("id"),
        plain_field("a", None),
        plain_field("b", None),
    ]))
    .unwrap();
    assert!(c.indexes.is_empty());
}

#[test]
fn merged_name_is_last_declared() {
    let mut a = meta();
    a.link = Some("x".to_string());
    a.name = Some("first_name".to_string());
    let mut b = meta();
    b.link = Some("x".to_string());
    b.name = Some("second_name".to_string());
    b.order = Some(1);
    let c = compile(schema(vec![
        native_id("id"),
        plain_field("a", Some(a)),
        plain_field("b", Some(b)),
    ]))
    .unwrap();
    assert_eq!(c.indexes[0].options.name.as_deref(), Some("second_name"));
}

#[test]
fn merged_group_keeps_first_members_filter() {
    let mut a = meta();
    a.link = Some("x".to_string());
    let mut b = meta();
    b.link = Some("x".to_string());
    b.pfe = Some("{ active: true }".to_string());
    b.order = Some(1);
    let c = compile(schema(vec![
        native_id("id"),
        plain_field("a", Some(a)),
        plain_field("b", Some(b)),
    ]))
    .unwrap();
    assert_eq!(c.indexes[0].options.partial_filter, None);
}

#[test]
fn merge_needs_both_collation_parts_to_overwrite() {
    let mut a = meta();
    a.link = Some("x".to_string());
    a.icase_locale = Some("fr".to_string());
    a.icase_strength = Some(2);
    let mut b = meta();
    b.link = Some("x".to_string());
    b.icase_locale = Some("de".to_string());
    b.order = Some(1);
    let c = compile(schema(vec![
        native_id("id"),
        plain_field("a", Some(a)),
        plain_field("b", Some(b)),
    ]))
    .unwrap();
    let col = &c.indexes[0].options.collation;
    assert_eq!(col.locale, "fr");
    assert_eq!(col.strength, Some(CollationStrength::Secondary));
}

#[test]
fn replace_must_match_exactly_one() {
    assert!(goldleaf::compile::replace_matched_one(1));
    assert!(!goldleaf::compile::replace_matched_one(0));
    assert!(!goldleaf::compile::replace_matched_one(2));
}
