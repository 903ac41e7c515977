use boilermates::convert::{apply_partial, apply_partial_defaults, apply_total, find_field,
    FieldValue};
use boilermates::directives::{AttrFor, FieldDefinition, FieldDirective};
use boilermates::engine::{boilermates, BaseSchema, GeneratedFamily};
use boilermates::model::OutputStruct;
use boilermates::synthesis::{synthesize_pair, ConversionDescriptor, ConversionKind, FillRule};

fn field(name: &str, ty: &str, directives: Vec<FieldDirective>) -> FieldDefinition {
    FieldDefinition { name: name.to_string(), ty: ty.to_string(), directives }
}

fn names_of(s: &OutputStruct) -> Vec<String> {
    s.fields.iter().map(|f| f.name.clone()).collect()
}

fn descriptor<'a>(fam: &'a GeneratedFamily, source: &str, target: &str) -> &'a ConversionDescriptor {
    fam.conversions
        .iter()
        .find(|d| d.source == source && d.target == target)
        .expect("descriptor for the pair")
}

fn value_of(schema: &OutputStruct, record: &[FieldValue], name: &str) -> FieldValue {
    let i = find_field(&schema.fields, name).expect("field present");
    record[i].clone()
}

fn given(text: &str) -> FieldValue {
    FieldValue::Given(text.to_string())
}

#[test]
fn correct_conversion() {
    let base = BaseSchema {
        name: "Step1".to_string(),
        attrs: vec![],
        fields: vec![
            field("field1", "String", vec![]),
            field("field2", "u32", vec![FieldDirective::NotIn(vec!["Step1".to_string()])]),
            field("field3", "f64", vec![FieldDirective::OnlyIn(vec!["Step3".to_string()])]),
        ],
    };
    let attrs = vec![AttrFor {
        target_struct: "Step2".to_string(),
        attribute: "#[derive(Clone)]".to_string(),
    }];
    let mates = vec!["Step2".to_string(), "Step3".to_string()];
    let fam = boilermates(base, &attrs, &mates).unwrap();

    let step1 = fam.structs.get("Step1").unwrap();
    let step2 = fam.structs.get("Step2").unwrap();
    let step3 = fam.structs.get("Step3").unwrap();
    assert_eq!(names_of(step1), vec!["field1".to_string()]);
    assert_eq!(names_of(step2), vec!["field1".to_string(), "field2".to_string()]);
    assert_eq!(
        names_of(step3),
        vec!["field1".to_string(), "field2".to_string(), "field3".to_string()]
    );
    assert_eq!(step2.attributes, vec!["#[derive(Clone)]".to_string()]);

    // the generated conversion names follow the snake-case transform
    let step1_to_step2 = descriptor(&fam, "Step1", "Step2");
    assert_eq!(step1_to_step2.forms.len(), 2);
    assert_eq!(step1_to_step2.forms[0].fn_name, "into_step2");
    assert_eq!(step1_to_step2.forms[1].fn_name, "into_step2_defaults");

    let step1_rec = vec![given("test")];
    let step2_rec = apply_partial(step1, step2, &step1_rec, &vec![given("42")]);
    let step3_rec = apply_partial(step2, step3, &step2_rec, &vec![given("42.0")]);

    assert_eq!(value_of(step2, &step2_rec, "field1"), value_of(step1, &step1_rec, "field1"));
    assert_eq!(value_of(step3, &step3_rec, "field1"), value_of(step1, &step1_rec, "field1"));
    assert_eq!(value_of(step3, &step3_rec, "field2"), value_of(step2, &step2_rec, "field2"));
    assert_eq!(value_of(step3, &step3_rec, "field3"), given("42.0"));
}

#[test]
fn base_v0_v2_scenario() {
    // base `Base` with a (plain), b (not in V0), c (only in V2);
    // requested variants V0 and V2.
    let base = BaseSchema {
        name: "Base".to_string(),
        attrs: vec![],
        fields: vec![
            field("a", "String", vec![]),
            field("b", "u32", vec![FieldDirective::NotIn(vec!["V0".to_string()])]),
            field("c", "f64", vec![FieldDirective::OnlyIn(vec!["V2".to_string()])]),
        ],
    };
    let fam =
        boilermates(base, &vec![], &vec!["V0".to_string(), "V2".to_string()]).unwrap();

    // b is removed from V0 alone; c's candidate set is replaced by {V2},
    // so c is in neither Base nor V0.
    let base_s = fam.structs.get("Base").unwrap();
    let v0 = fam.structs.get("V0").unwrap();
    let v2 = fam.structs.get("V2").unwrap();
    assert_eq!(names_of(base_s), vec!["a".to_string(), "b".to_string()]);
    assert_eq!(names_of(v0), vec!["a".to_string()]);
    assert_eq!(names_of(v2), vec!["a".to_string(), "b".to_string(), "c".to_string()]);

    // Base -> V0: nothing is missing, so only a total conversion exists.
    let to_v0 = descriptor(&fam, "Base", "V0");
    assert_eq!(to_v0.missing.len(), 0);
    assert_eq!(to_v0.forms.len(), 1);
    assert_eq!(to_v0.forms[0].kind, ConversionKind::Total);
    assert_eq!(to_v0.forms[0].params.len(), 0);

    // applying it drops b
    let base_rec = vec![given("alpha"), given("7")];
    let v0_rec = apply_total(base_s, v0, &base_rec);
    assert_eq!(v0_rec, vec![given("alpha")]);

    // V0 -> Base: b is missing and has no default, so only the two partial
    // forms exist — no total conversion — and the full form takes one
    // argument per missing field.
    let to_base = descriptor(&fam, "V0", "Base");
    assert_eq!(to_base.missing.len(), 1);
    assert_eq!(to_base.missing_no_default.len(), 1);
    assert_eq!(to_base.forms.len(), 2);
    assert_eq!(to_base.forms[0].kind, ConversionKind::Partial);
    assert_eq!(to_base.forms[0].params.len(), 1);
    assert_eq!(to_base.forms[1].kind, ConversionKind::PartialWithDefaults);
    assert_eq!(to_base.forms[1].params.len(), 1);

    let back = apply_partial(v0, base_s, &v0_rec, &vec![given("9")]);
    assert_eq!(back, vec![given("alpha"), given("9")]);

    // V0 -> V2: b and c are missing, both without defaults: two partial
    // forms, two arguments each, and no total conversion.
    let to_v2 = descriptor(&fam, "V0", "V2");
    assert_eq!(to_v2.missing.len(), 2);
    assert_eq!(to_v2.forms.len(), 2);
    assert_eq!(to_v2.forms[0].params.len(), 2);
    let v2_rec = apply_partial(v0, v2, &v0_rec, &vec![given("9"), given("2.5")]);
    assert_eq!(v2_rec, vec![given("alpha"), given("9"), given("2.5")]);
}

#[test]
fn common_fields_equal_name_intersection() {
    let base = BaseSchema {
        name: "Base".to_string(),
        attrs: vec![],
        fields: vec![
            field("a", "String", vec![]),
            field("b", "u32", vec![FieldDirective::NotIn(vec!["V0".to_string()])]),
            field("c", "f64", vec![FieldDirective::OnlyIn(vec!["V2".to_string()])]),
        ],
    };
    let fam =
        boilermates(base, &vec![], &vec!["V0".to_string(), "V2".to_string()]).unwrap();
    for d in &fam.conversions {
        let source = fam.structs.get(&d.source).unwrap();
        let target = fam.structs.get(&d.target).unwrap();
        let mut expected: Vec<String> = Vec::new();
        for f in &target.fields {
            if source.has_field(&f.name) {
                expected.push(f.name.clone());
            }
        }
        let got: Vec<String> = d.common.iter().map(|f| f.name.clone()).collect();
        assert_eq!(got, expected, "{} -> {}", d.source, d.target);
    }
}

#[test]
fn defaulted_field_is_spread_and_autofilled() {
    // d carries Default and no placement directive: present in all variants.
    // e carries Default but is kept out of V1, so conversions from V1 must
    // fill it automatically.
    let base = BaseSchema {
        name: "Base".to_string(),
        attrs: vec![],
        fields: vec![
            field("d", "bool", vec![FieldDirective::Default]),
            field(
                "e",
                "u32",
                vec![FieldDirective::Default, FieldDirective::NotIn(vec!["V1".to_string()])],
            ),
        ],
    };
    let fam = boilermates(base, &vec![], &vec!["V1".to_string()]).unwrap();

    let base_s = fam.structs.get("Base").unwrap();
    let v1 = fam.structs.get("V1").unwrap();
    assert!(base_s.has_field("d"));
    assert!(v1.has_field("d"));
    assert!(base_s.fields.iter().find(|f| f.name == "d").unwrap().default);
    assert!(!v1.has_field("e"));

    // V1 -> Base: e is missing but defaulted, so the total form exists
    // besides both partial forms.
    let to_base = descriptor(&fam, "V1", "Base");
    assert_eq!(to_base.missing.len(), 1);
    assert_eq!(to_base.missing_no_default.len(), 0);
    assert_eq!(to_base.forms.len(), 3);
    assert_eq!(to_base.forms[0].kind, ConversionKind::Total);
    assert_eq!(to_base.forms[0].fn_name, "from");
    assert_eq!(to_base.forms[1].kind, ConversionKind::Partial);
    assert_eq!(to_base.forms[2].kind, ConversionKind::PartialWithDefaults);
    assert_eq!(to_base.forms[2].params.len(), 0);

    // e is auto-filled with its type's default in the total and in the
    // defaults-partial fill rules...
    assert_eq!(to_base.forms[0].fills, vec![FillRule::FromSource, FillRule::TypeDefault]);
    assert_eq!(to_base.forms[2].fills, vec![FillRule::FromSource, FillRule::TypeDefault]);
    // ...and in the produced records.
    let v1_rec = vec![given("true")];
    let total = apply_total(v1, base_s, &v1_rec);
    assert_eq!(total, vec![given("true"), FieldValue::DefaultOf("u32".to_string())]);
    let with_defaults = apply_partial_defaults(v1, base_s, &v1_rec, &vec![]);
    assert_eq!(with_defaults, vec![given("true"), FieldValue::DefaultOf("u32".to_string())]);
}

#[test]
fn partial_fill_rules_number_arguments_in_target_order() {
    let source = OutputStruct {
        attributes: vec![],
        fields: vec![boilermates::model::OutputField::new(
            "keep".to_string(),
            "u8".to_string(),
            false,
        )],
    };
    let target = OutputStruct {
        attributes: vec![],
        fields: vec![
            boilermates::model::OutputField::new("first".to_string(), "u8".to_string(), false),
            boilermates::model::OutputField::new("keep".to_string(), "u8".to_string(), false),
            boilermates::model::OutputField::new("second".to_string(), "u8".to_string(), false),
        ],
    };
    let d = synthesize_pair(&"S".to_string(), &source, &"T".to_string(), &target);
    assert_eq!(d.source, "S");
    assert_eq!(d.target, "T");
    assert_eq!(d.forms.len(), 2);
    let partial = &d.forms[0];
    assert_eq!(partial.kind, ConversionKind::Partial);
    assert_eq!(partial.fn_name, "into_t");
    assert_eq!(
        partial.fills,
        vec![FillRule::Supplied(0), FillRule::FromSource, FillRule::Supplied(1)]
    );
    let params: Vec<String> = partial.params.iter().map(|f| f.name.clone()).collect();
    assert_eq!(params, vec!["first".to_string(), "second".to_string()]);

    assert!(find_field(&target.fields, "absent").is_none());

    // a multi-word target name goes through the snake-case transform whole
    let d2 = synthesize_pair(&"S".to_string(), &source, &"MyTarget".to_string(), &target);
    assert_eq!(d2.forms[0].fn_name, "into_my_target");
    assert_eq!(d2.forms[1].fn_name, "into_my_target_defaults");
}

#[test]
fn no_pair_gets_two_total_conversions() {
    let base = BaseSchema {
        name: "Base".to_string(),
        attrs: vec![],
        fields: vec![
            field("d", "bool", vec![FieldDirective::Default]),
            field("e", "u32", vec![FieldDirective::Default]),
        ],
    };
    let fam =
        boilermates(base, &vec![], &vec!["V0".to_string(), "V1".to_string()]).unwrap();
    // 3 variants give 6 ordered pairs
    assert_eq!(fam.conversions.len(), 6);
    for d in &fam.conversions {
        let totals = d.forms.iter().filter(|f| f.kind == ConversionKind::Total).count();
        assert_eq!(totals, 1, "{} -> {}: every field is defaulted", d.source, d.target);
        // identical member sets: nothing missing, no partial forms
        assert_eq!(d.forms.len(), 1);
    }
}
