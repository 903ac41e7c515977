use boilermates::directives::{AttrFor, DirectiveKind, Error, FieldDefinition, FieldDirective};
use boilermates::engine::{boilermates, BaseSchema, GeneratedFamily};
use boilermates::model::{OutputField, OutputStruct};
use boilermates::registry::OutputStructs;

fn field(name: &str, ty: &str, directives: Vec<FieldDirective>) -> FieldDefinition {
    FieldDefinition { name: name.to_string(), ty: ty.to_string(), directives }
}

fn derive(base: BaseSchema, attrs: Vec<AttrFor>, mates: Vec<String>) -> GeneratedFamily {
    boilermates(base, &attrs, &mates).expect("derivation should succeed")
}

#[test]
fn no_directive_field_is_in_every_variant() {
    let base = BaseSchema {
        name: "Base".to_string(),
        attrs: vec![],
        fields: vec![field("plain", "String", vec![])],
    };
    let fam = derive(base, vec![], vec!["V0".to_string(), "V1".to_string()]);
    for name in ["Base", "V0", "V1"] {
        let schema = fam.structs.get(name).expect("variant registered");
        assert!(schema.has_field("plain"), "{name} should have `plain`");
    }
}

#[test]
fn no_mates_gives_base_alone() {
    let base = BaseSchema {
        name: "Base".to_string(),
        attrs: vec![],
        fields: vec![field("x", "u32", vec![])],
    };
    let fam = derive(base, vec![], vec![]);
    assert_eq!(fam.structs.names(), vec!["Base".to_string()]);
    assert!(fam.structs.get("Base").unwrap().has_field("x"));
    assert!(fam.conversions.is_empty());
    assert_eq!(fam.markers.len(), 1);
    assert!(fam.markers[0].present);
}

#[test]
fn base_name_is_always_first_variant() {
    let base = BaseSchema { name: "Base".to_string(), attrs: vec![], fields: vec![] };
    let fam = derive(base, vec![], vec!["V0".to_string()]);
    let names = fam.structs.names();
    assert_eq!(names, vec!["Base".to_string(), "V0".to_string()]);
}

#[test]
fn base_attributes_are_kept() {
    let base = BaseSchema {
        name: "Base".to_string(),
        attrs: vec!["#[derive(Debug)]".to_string()],
        fields: vec![],
    };
    let fam = derive(base, vec![], vec!["V0".to_string()]);
    assert_eq!(
        fam.structs.get("Base").unwrap().attributes,
        vec!["#[derive(Debug)]".to_string()]
    );
    assert!(fam.structs.get("V0").unwrap().attributes.is_empty());
}

#[test]
fn attr_for_attaches_to_one_variant() {
    let base = BaseSchema { name: "Base".to_string(), attrs: vec![], fields: vec![] };
    let attrs = vec![AttrFor {
        target_struct: "V0".to_string(),
        attribute: "#[derive(Clone)]".to_string(),
    }];
    let fam = derive(base, attrs, vec!["V0".to_string()]);
    assert_eq!(
        fam.structs.get("V0").unwrap().attributes,
        vec!["#[derive(Clone)]".to_string()]
    );
    assert!(fam.structs.get("Base").unwrap().attributes.is_empty());
}

#[test]
fn only_in_restricts_membership() {
    let base = BaseSchema {
        name: "Base".to_string(),
        attrs: vec![],
        fields: vec![field("x", "u32", vec![FieldDirective::OnlyIn(vec!["V1".to_string()])])],
    };
    let fam = derive(base, vec![], vec!["V0".to_string(), "V1".to_string()]);
    assert!(!fam.structs.get("Base").unwrap().has_field("x"));
    assert!(!fam.structs.get("V0").unwrap().has_field("x"));
    assert!(fam.structs.get("V1").unwrap().has_field("x"));
}

#[test]
fn not_in_removes_membership() {
    let base = BaseSchema {
        name: "Base".to_string(),
        attrs: vec![],
        fields: vec![field("x", "u32", vec![FieldDirective::NotIn(vec!["V0".to_string()])])],
    };
    let fam = derive(base, vec![], vec!["V0".to_string(), "V1".to_string()]);
    assert!(fam.structs.get("Base").unwrap().has_field("x"));
    assert!(!fam.structs.get("V0").unwrap().has_field("x"));
    assert!(fam.structs.get("V1").unwrap().has_field("x"));
}

#[test]
fn only_in_self_keeps_field_on_base_alone() {
    let base = BaseSchema {
        name: "Base".to_string(),
        attrs: vec![],
        fields: vec![field("secret", "u64", vec![FieldDirective::OnlyInSelf])],
    };
    let fam = derive(base, vec![], vec!["V0".to_string()]);
    assert!(fam.structs.get("Base").unwrap().has_field("secret"));
    assert!(!fam.structs.get("V0").unwrap().has_field("secret"));
}

#[test]
fn directives_apply_in_encountered_order() {
    // OnlyIn replaces the candidate set, a later NotIn subtracts from it.
    let base = BaseSchema {
        name: "Base".to_string(),
        attrs: vec![],
        fields: vec![field(
            "x",
            "u32",
            vec![
                FieldDirective::OnlyIn(vec!["V0".to_string(), "V1".to_string()]),
                FieldDirective::NotIn(vec!["V0".to_string()]),
            ],
        )],
    };
    let fam = derive(base, vec![], vec!["V0".to_string(), "V1".to_string()]);
    assert!(!fam.structs.get("Base").unwrap().has_field("x"));
    assert!(!fam.structs.get("V0").unwrap().has_field("x"));
    assert!(fam.structs.get("V1").unwrap().has_field("x"));
}

#[test]
fn unknown_variant_in_only_in_is_fatal() {
    let base = BaseSchema {
        name: "Base".to_string(),
        attrs: vec![],
        fields: vec![field("x", "u32", vec![FieldDirective::OnlyIn(vec!["Nope".to_string()])])],
    };
    let err = boilermates(base, &vec![], &vec!["V0".to_string()]).unwrap_err();
    assert_eq!(
        err,
        Error::UnknownVariant {
            variant: "Nope".to_string(),
            directive: DirectiveKind::OnlyIn,
            field: Some("x".to_string()),
        }
    );
    assert_eq!(err.describe(), "unknown variant `Nope`");
}

#[test]
fn unknown_variant_in_not_in_is_fatal() {
    let base = BaseSchema {
        name: "Base".to_string(),
        attrs: vec![],
        fields: vec![field("x", "u32", vec![FieldDirective::NotIn(vec!["Gone".to_string()])])],
    };
    let err = boilermates(base, &vec![], &vec!["V0".to_string()]).unwrap_err();
    assert_eq!(
        err,
        Error::UnknownVariant {
            variant: "Gone".to_string(),
            directive: DirectiveKind::NotIn,
            field: Some("x".to_string()),
        }
    );
}

#[test]
fn unknown_variant_in_attr_for_is_fatal() {
    let base = BaseSchema { name: "Base".to_string(), attrs: vec![], fields: vec![] };
    let attrs = vec![AttrFor {
        target_struct: "Nope".to_string(),
        attribute: "#[derive(Clone)]".to_string(),
    }];
    let err = boilermates(base, &attrs, &vec!["V0".to_string()]).unwrap_err();
    assert_eq!(
        err,
        Error::UnknownVariant {
            variant: "Nope".to_string(),
            directive: DirectiveKind::AttrFor,
            field: None,
        }
    );
}

#[test]
fn duplicate_mate_name_is_rejected() {
    let base = BaseSchema { name: "Base".to_string(), attrs: vec![], fields: vec![] };
    let err = boilermates(base, &vec![], &vec!["V0".to_string(), "V0".to_string()]).unwrap_err();
    assert_eq!(err, Error::DuplicateVariant { variant: "V0".to_string() });
    assert_eq!(err.describe(), "duplicate variant `V0`");
}

#[test]
fn mate_repeating_base_name_is_rejected() {
    let base = BaseSchema { name: "Base".to_string(), attrs: vec![], fields: vec![] };
    let err = boilermates(base, &vec![], &vec!["Base".to_string()]).unwrap_err();
    assert_eq!(err, Error::DuplicateVariant { variant: "Base".to_string() });
}

#[test]
fn registry_keeps_first_registration_order() {
    let mut structs = OutputStructs::new();
    structs.register("Zeta".to_string());
    structs.register("Alpha".to_string());
    structs.register("Mid".to_string());
    structs.register("Alpha".to_string());
    assert_eq!(structs.len(), 3);
    assert_eq!(
        structs.names(),
        vec!["Zeta".to_string(), "Alpha".to_string(), "Mid".to_string()]
    );
}

#[test]
fn registry_get_mut_edits_one_schema() {
    let mut structs = OutputStructs::new();
    structs.register("A".to_string());
    structs.register("B".to_string());
    assert!(structs.get_mut("C").is_none());
    let b = structs.get_mut("B").unwrap();
    b.attributes.push("#[repr(C)]".to_string());
    assert_eq!(structs.get("B").unwrap().attributes, vec!["#[repr(C)]".to_string()]);
    assert!(structs.get("A").unwrap().attributes.is_empty());
}

#[test]
fn attach_attribute_fails_on_unregistered_name() {
    let mut structs = OutputStructs::new();
    structs.register("A".to_string());
    assert!(structs.attach_attribute("A", "#[derive(Clone)]".to_string()).is_ok());
    let err = structs.attach_attribute("B", "#[derive(Clone)]".to_string()).unwrap_err();
    assert_eq!(
        err,
        Error::UnknownVariant {
            variant: "B".to_string(),
            directive: DirectiveKind::AttrFor,
            field: None,
        }
    );
}

#[test]
fn initialize_seeds_base_then_mates() {
    let structs = OutputStructs::initialize(
        "Base".to_string(),
        vec!["#[derive(Debug)]".to_string()],
        &vec!["V0".to_string(), "V1".to_string()],
    )
    .unwrap();
    assert_eq!(
        structs.names(),
        vec!["Base".to_string(), "V0".to_string(), "V1".to_string()]
    );
    assert_eq!(structs.get("Base").unwrap().attributes, vec!["#[derive(Debug)]".to_string()]);
}

#[test]
fn markers_cover_every_field_variant_pair() {
    let base = BaseSchema {
        name: "Base".to_string(),
        attrs: vec![],
        fields: vec![
            field("x_count", "u32", vec![]),
            field("y", "bool", vec![FieldDirective::OnlyInSelf]),
        ],
    };
    let fam = derive(base, vec![], vec!["V0".to_string()]);
    // field-major, then variant order
    assert_eq!(fam.markers.len(), 4);
    assert_eq!(fam.markers[0].field, "x_count");
    assert_eq!(fam.markers[0].variant, "Base");
    assert!(fam.markers[0].present);
    assert_eq!(fam.markers[0].marker, "HasXCount");
    assert_eq!(fam.markers[1].variant, "V0");
    assert!(fam.markers[1].present);
    assert_eq!(fam.markers[1].marker, "HasXCount");
    assert_eq!(fam.markers[2].field, "y");
    assert_eq!(fam.markers[2].variant, "Base");
    assert!(fam.markers[2].present);
    assert_eq!(fam.markers[2].marker, "HasY");
    assert_eq!(fam.markers[3].variant, "V0");
    assert!(!fam.markers[3].present);
    assert_eq!(fam.markers[3].marker, "HasNoY");
}

#[test]
fn marker_names_use_the_case_transform() {
    let f = OutputField::new("request_id".to_string(), "u64".to_string(), false);
    assert_eq!(f.name(), "request_id");
    assert_eq!(f.trait_name(), "HasRequestId");
    assert_eq!(f.neg_trait_name(), "HasNoRequestId");
}

#[test]
fn fields_compare_by_name_alone() {
    let a = OutputField::new("x".to_string(), "u32".to_string(), false);
    let b = OutputField::new("x".to_string(), "String".to_string(), true);
    let c = OutputField::new("y".to_string(), "u32".to_string(), false);
    assert_eq!(a, b);
    assert_ne!(a, c);
}

#[test]
fn missing_and_common_fields_follow_name_identity() {
    let left = OutputStruct {
        attributes: vec![],
        fields: vec![
            OutputField::new("a".to_string(), "u8".to_string(), false),
            OutputField::new("b".to_string(), "u8".to_string(), false),
            OutputField::new("c".to_string(), "u8".to_string(), true),
        ],
    };
    let right = OutputStruct {
        attributes: vec![],
        fields: vec![OutputField::new("b".to_string(), "u16".to_string(), false)],
    };
    let missing: Vec<String> =
        left.missing_fields_from(&right).iter().map(|f| f.name.clone()).collect();
    assert_eq!(missing, vec!["a".to_string(), "c".to_string()]);
    let common: Vec<String> =
        left.same_fields_as(&right).iter().map(|f| f.name.clone()).collect();
    assert_eq!(common, vec!["b".to_string()]);
}

#[test]
fn derivation_is_deterministic() {
    let make = || BaseSchema {
        name: "Base".to_string(),
        attrs: vec![],
        fields: vec![
            field("a", "String", vec![]),
            field("b", "u32", vec![FieldDirective::NotIn(vec!["V0".to_string()])]),
        ],
    };
    let mates = vec!["V0".to_string(), "V1".to_string()];
    let one = boilermates(make(), &vec![], &mates).unwrap();
    let two = boilermates(make(), &vec![], &mates).unwrap();
    assert_eq!(one.structs.names(), two.structs.names());
    assert_eq!(one.markers, two.markers);
    assert_eq!(one.conversions.len(), two.conversions.len());
    for (d1, d2) in one.conversions.iter().zip(two.conversions.iter()) {
        assert_eq!(d1.source, d2.source);
        assert_eq!(d1.target, d2.target);
    }
}
