//! The conversion synthesizer: for every ordered pair of registered
//! variants, the conversion descriptor — common fields, missing fields,
//! missing fields without defaults, and the emitted conversion forms with
//! their parameter lists and per-field fill rules.

use vstd::prelude::*;
use crate::model::{
    OutputField,
    OutputStruct,
    FieldModel,
    SchemaModel,
    fields_contain,
    spec_common_fields,
    spec_missing_fields,
    str_eq,
};
use crate::casing::{snake_of, snake_case};
use crate::registry::OutputStructs;

verus! {

/// How one target field is filled by a conversion body.
#[derive(Clone, Copy, PartialEq, Eq, Debug)]
pub enum FillRule {
    /// Moved from the source value's field of the same name.
    FromSource,
    /// Taken from the caller's explicit arguments, at this position.
    Supplied(usize),
    /// Filled with the field type's default value.
    TypeDefault,
}

/// The kind of a generated conversion.
#[derive(Clone, Copy, PartialEq, Eq, Debug)]
pub enum ConversionKind {
    /// Argument-free; always succeeds.
    Total,
    /// One explicit argument per missing field.
    Partial,
    /// Explicit arguments only for missing fields without defaults.
    PartialWithDefaults,
}

/// One generated conversion: its kind, its function name, its explicit
/// parameters in target declaration order, and one fill rule per target
/// field, in target declaration order.
#[derive(Debug)]
pub struct ConversionForm {
    pub kind: ConversionKind,
    pub fn_name: String,
    pub params: Vec<OutputField>,
    pub fills: Vec<FillRule>,
}

/// Mathematical model of a conversion form.
#[verifier::ext_equal]
pub ghost struct FormModel {
    pub kind: ConversionKind,
    pub fn_name: Seq<char>,
    pub params: Seq<FieldModel>,
    pub fills: Seq<FillRule>,
}

impl View for ConversionForm {
    type V = FormModel;

    open spec fn view(&self) -> FormModel {
        FormModel {
            kind: self.kind,
            fn_name: self.fn_name@,
            params: self.params@.map_values(|f: OutputField| f@),
            fills: self.fills@,
        }
    }
}

/// The conversion descriptor for one ordered variant pair.
#[derive(Debug)]
pub struct ConversionDescriptor {
    pub source: String,
    pub target: String,
    pub common: Vec<OutputField>,
    pub missing: Vec<OutputField>,
    pub missing_no_default: Vec<OutputField>,
    pub forms: Vec<ConversionForm>,
}

/// Mathematical model of a conversion descriptor.
#[verifier::ext_equal]
pub ghost struct DescriptorModel {
    pub source: Seq<char>,
    pub target: Seq<char>,
    pub common: Seq<FieldModel>,
    pub missing: Seq<FieldModel>,
    pub missing_no_default: Seq<FieldModel>,
    pub forms: Seq<FormModel>,
}

impl View for ConversionDescriptor {
    type V = DescriptorModel;

    open spec fn view(&self) -> DescriptorModel {
        DescriptorModel {
            source: self.source@,
            target: self.target@,
            common: self.common@.map_values(|f: OutputField| f@),
            missing: self.missing@.map_values(|f: OutputField| f@),
            missing_no_default: self.missing_no_default@.map_values(|f: OutputField| f@),
            forms: self.forms@.map_values(|f: ConversionForm| f@),
        }
    }
}

/// The missing fields of the pair that lack `Default`.
pub open spec fn spec_missing_nd_fields(target: SchemaModel, source: SchemaModel) -> Seq<
    FieldModel,
> {
    spec_missing_fields(target, source).filter(|f: FieldModel| !f.default)
}

/// How many of the first `j` target fields are missing from the source.
pub open spec fn spec_missing_before(target: SchemaModel, source: SchemaModel, j: int) -> int {
    target.fields.take(j).filter(
        |f: FieldModel| !fields_contain(source.fields, f.name),
    ).len() as int
}

/// How many of the first `j` target fields are missing from the source and
/// lack `Default`.
pub open spec fn spec_missing_nd_before(target: SchemaModel, source: SchemaModel, j: int) -> int {
    target.fields.take(j).filter(
        |f: FieldModel| !fields_contain(source.fields, f.name) && !f.default,
    ).len() as int
}

/// Fill rules of the total conversion: common fields move from the source,
/// every other (defaulted) field takes its type default.
pub open spec fn spec_total_fills(target: SchemaModel, source: SchemaModel) -> Seq<FillRule> {
    Seq::new(
        target.fields.len(),
        |j: int|
            if fields_contain(source.fields, target.fields[j].name) {
                FillRule::FromSource
            } else {
                FillRule::TypeDefault
            },
    )
}

/// Fill rules of the partial conversion: common fields move from the source,
/// each missing field takes the next explicit argument, in target order.
pub open spec fn spec_partial_fills(target: SchemaModel, source: SchemaModel) -> Seq<FillRule> {
    Seq::new(
        target.fields.len(),
        |j: int|
            if fields_contain(source.fields, target.fields[j].name) {
                FillRule::FromSource
            } else {
                FillRule::Supplied(spec_missing_before(target, source, j) as usize)
            },
    )
}

/// Fill rules of the defaults-partial conversion: common fields move from
/// the source, missing defaulted fields take their type default, and each
/// remaining missing field takes the next explicit argument, in target
/// order.
pub open spec fn spec_partial_defaults_fills(target: SchemaModel, source: SchemaModel) -> Seq<
    FillRule,
> {
    Seq::new(
        target.fields.len(),
        |j: int|
            if fields_contain(source.fields, target.fields[j].name) {
                FillRule::FromSource
            } else if target.fields[j].default {
                FillRule::TypeDefault
            } else {
                FillRule::Supplied(spec_missing_nd_before(target, source, j) as usize)
            },
    )
}

/// The total conversion form.
pub open spec fn spec_total_form(target: SchemaModel, source: SchemaModel) -> FormModel {
    FormModel {
        kind: ConversionKind::Total,
        fn_name: "from"@,
        params: Seq::<FieldModel>::empty(),
        fills: spec_total_fills(target, source),
    }
}

/// The partial conversion form, named after the target variant.
pub open spec fn spec_partial_form(
    target_name: Seq<char>,
    target: SchemaModel,
    source: SchemaModel,
) -> FormModel {
    FormModel {
        kind: ConversionKind::Partial,
        fn_name: snake_of("into"@ + target_name),
        params: spec_missing_fields(target, source),
        fills: spec_partial_fills(target, source),
    }
}

/// The defaults-partial conversion form, named after the target variant.
pub open spec fn spec_partial_defaults_form(
    target_name: Seq<char>,
    target: SchemaModel,
    source: SchemaModel,
) -> FormModel {
    FormModel {
        kind: ConversionKind::PartialWithDefaults,
        fn_name: snake_of("into"@ + target_name + "_defaults"@),
        params: spec_missing_nd_fields(target, source),
        fills: spec_partial_defaults_fills(target, source),
    }
}

/// The descriptor for the ordered pair source → target: a total form exactly
/// when every missing field is defaulted, and the two partial forms exactly
/// when some field is missing.
pub open spec fn spec_descriptor(
    source: (Seq<char>, SchemaModel),
    target: (Seq<char>, SchemaModel),
) -> DescriptorModel {
    let common = spec_common_fields(target.1, source.1);
    let missing = spec_missing_fields(target.1, source.1);
    let missing_nd = spec_missing_nd_fields(target.1, source.1);
    DescriptorModel {
        source: source.0,
        target: target.0,
        common,
        missing,
        missing_no_default: missing_nd,
        forms: (if missing_nd.len() == 0 {
            seq![spec_total_form(target.1, source.1)]
        } else {
            Seq::<FormModel>::empty()
        }) + (if missing.len() > 0 {
            seq![
                spec_partial_form(target.0, target.1, source.1),
                spec_partial_defaults_form(target.0, target.1, source.1),
            ]
        } else {
            Seq::<FormModel>::empty()
        }),
    }
}

/// The fields of `fields` that lack `Default`, in order.
fn without_defaults(fields: &Vec<OutputField>) -> (r: Vec<OutputField>)
    ensures
        r@.map_values(|f: OutputField| f@) == fields@.map_values(|f: OutputField| f@).filter(
            |f: FieldModel| !f.default,
        ),
{
    let ghost fv = fields@.map_values(|f: OutputField| f@);
    let mut r: Vec<OutputField> = Vec::new();
    proof {
        reveal(Seq::filter);
        assert(fv.take(0) =~= Seq::<FieldModel>::empty());
        assert(r@.map_values(|f: OutputField| f@) =~= fv.take(0).filter(
            |f: FieldModel| !f.default));
    }
    let mut i: usize = 0;
    while i < fields.len()
        invariant
            0 <= i <= fields.len(),
            fv == fields@.map_values(|f: OutputField| f@),
            fv.len() == fields@.len(),
            r@.map_values(|f: OutputField| f@) == fv.take(i as int).filter(
                |f: FieldModel| !f.default,
            ),
        decreases fields.len() - i,
    {
        let ghost pred = |f: FieldModel| !f.default;
        if !fields[i].default {
            r.push(fields[i].clone_field());
        }
        proof {
            reveal(Seq::filter);
            assert(fv.take(i + 1).drop_last() =~= fv.take(i as int));
            assert(fv.take(i + 1).last() == fv[i as int]);
            assert(fv[i as int] == fields@[i as int]@);
            assert(r@.map_values(|f: OutputField| f@) =~= fv.take(i + 1).filter(pred));
        }
        i += 1;
    }
    proof {
        assert(fv.take(fields@.len() as int) =~= fv);
    }
    r
}

/// The function name of a partial conversion into `target_name`: `into`,
/// the target's name, and for the defaults form a `_defaults` tail, the
/// whole under the fixed snake-case transform.
fn conversion_fn_name(target_name: &String, defaults: bool) -> (r: String)
    ensures
        !defaults ==> r@ == snake_of("into"@ + target_name@),
        defaults ==> r@ == snake_of("into"@ + target_name@ + "_defaults"@),
{
    let mut s = String::from_str("into").concat(target_name.as_str());
    if defaults {
        s = s.concat("_defaults");
    }
    snake_case(s.as_str())
}

/// The per-field fill rules of one conversion form of the pair.
fn fills_for(target: &OutputStruct, source: &OutputStruct, kind: ConversionKind) -> (r: Vec<
    FillRule,
>)
    ensures
        kind is Total ==> r@ == spec_total_fills(target@, source@),
        kind is Partial ==> r@ == spec_partial_fills(target@, source@),
        kind is PartialWithDefaults ==> r@ == spec_partial_defaults_fills(target@, source@),
{
    let ghost tv = target@;
    let ghost sv = source@;
    let mut r: Vec<FillRule> = Vec::new();
    let mut arg: usize = 0;
    proof {
        reveal(Seq::filter);
        assert(tv.fields.take(0) =~= Seq::<FieldModel>::empty());
        assert(tv.fields.take(0).filter(|f: FieldModel| !fields_contain(sv.fields, f.name))
            =~= Seq::<FieldModel>::empty());
        assert(tv.fields.take(0).filter(
            |f: FieldModel| !fields_contain(sv.fields, f.name) && !f.default,
        ) =~= Seq::<FieldModel>::empty());
    }
    let mut j: usize = 0;
    while j < target.fields.len()
        invariant
            0 <= j <= target.fields.len(),
            tv == target@,
            sv == source@,
            tv.fields.len() == target.fields@.len(),
            r@.len() == j,
            kind is Total ==> forall|k: int| 0 <= k < j ==> r@[k] == spec_total_fills(tv, sv)[k],
            kind is Partial ==> forall|k: int|
                0 <= k < j ==> r@[k] == spec_partial_fills(tv, sv)[k],
            kind is PartialWithDefaults ==> forall|k: int|
                0 <= k < j ==> r@[k] == spec_partial_defaults_fills(tv, sv)[k],
            kind is Partial ==> arg as int == spec_missing_before(tv, sv, j as int),
            kind is PartialWithDefaults ==> arg as int == spec_missing_nd_before(
                tv,
                sv,
                j as int,
            ),
            arg <= j,
        decreases target.fields.len() - j,
    {
        let ghost mpred = |f: FieldModel| !fields_contain(sv.fields, f.name);
        let ghost mndpred = |f: FieldModel| !fields_contain(sv.fields, f.name) && !f.default;
        proof {
            reveal(Seq::filter);
            assert(tv.fields.take(j + 1).drop_last() =~= tv.fields.take(j as int));
            assert(tv.fields.take(j + 1).last() == tv.fields[j as int]);
            assert(tv.fields[j as int] == target.fields@[j as int]@);
        }
        let present = source.has_field(target.fields[j].name.as_str());
        match kind {
            ConversionKind::Total => {
                if present {
                    r.push(FillRule::FromSource);
                } else {
                    r.push(FillRule::TypeDefault);
                }
            },
            ConversionKind::Partial => {
                if present {
                    r.push(FillRule::FromSource);
                } else {
                    r.push(FillRule::Supplied(arg));
                    arg += 1;
                }
                proof {
                    assert(tv.fields.take(j + 1).filter(mpred).len() == tv.fields.take(
                        j as int).filter(mpred).len() + (if mpred(tv.fields[j as int]) {
                        1int
                    } else {
                        0int
                    }));
                }
            },
            ConversionKind::PartialWithDefaults => {
                if present {
                    r.push(FillRule::FromSource);
                } else if target.fields[j].default {
                    r.push(FillRule::TypeDefault);
                } else {
                    r.push(FillRule::Supplied(arg));
                    arg += 1;
                }
                proof {
                    assert(tv.fields.take(j + 1).filter(mndpred).len() == tv.fields.take(
                        j as int).filter(mndpred).len() + (if mndpred(tv.fields[j as int]) {
                        1int
                    } else {
                        0int
                    }));
                }
            },
        }
        j += 1;
    }
    proof {
        if kind is Total {
            assert(r@ =~= spec_total_fills(tv, sv));
        }
        if kind is Partial {
            assert(r@ =~= spec_partial_fills(tv, sv));
        }
        if kind is PartialWithDefaults {
            assert(r@ =~= spec_partial_defaults_fills(tv, sv));
        }
    }
    r
}

/// The conversion descriptor for the ordered pair source → target.
pub fn synthesize_pair(
    source_name: &String,
    source: &OutputStruct,
    target_name: &String,
    target: &OutputStruct,
) -> (r: ConversionDescriptor)
    ensures
        r@ == spec_descriptor((source_name@, source@), (target_name@, target@)),
{
    let common = target.same_fields_as(source);
    let missing = target.missing_fields_from(source);
    let missing_no_default = without_defaults(&missing);
    let mut forms: Vec<ConversionForm> = Vec::new();
    if missing_no_default.len() == 0 {
        let fills = fills_for(target, source, ConversionKind::Total);
        forms.push(
            ConversionForm {
                kind: ConversionKind::Total,
                fn_name: String::from_str("from"),
                params: Vec::new(),
                fills,
            },
        );
    }
    if missing.len() > 0 {
        let partial_fills = fills_for(target, source, ConversionKind::Partial);
        let partial_params = target.missing_fields_from(source);
        forms.push(
            ConversionForm {
                kind: ConversionKind::Partial,
                fn_name: conversion_fn_name(target_name, false),
                params: partial_params,
                fills: partial_fills,
            },
        );
        let dflt_fills = fills_for(target, source, ConversionKind::PartialWithDefaults);
        let dflt_params = without_defaults(&missing);
        forms.push(
            ConversionForm {
                kind: ConversionKind::PartialWithDefaults,
                fn_name: conversion_fn_name(target_name, true),
                params: dflt_params,
                fills: dflt_fills,
            },
        );
    }
    let r = ConversionDescriptor {
        source: source_name.clone(),
        target: target_name.clone(),
        common,
        missing,
        missing_no_default,
        forms,
    };
    proof {
        assert(r@.forms =~~= spec_descriptor((source_name@, source@), (target_name@, target@)).forms);
        assert(r@ =~~= spec_descriptor((source_name@, source@), (target_name@, target@)));
    }
    r
}

/// The descriptors whose target is `s[t]` and whose sources are the first
/// `k` registered variants, in order, the target itself skipped.
pub open spec fn spec_row_descriptors(
    s: Seq<(Seq<char>, SchemaModel)>,
    t: int,
    k: int,
) -> Seq<DescriptorModel>
    decreases k,
{
    if k <= 0 {
        Seq::<DescriptorModel>::empty()
    } else {
        spec_row_descriptors(s, t, k - 1) + (if s[k - 1].0 == s[t].0 {
            Seq::<DescriptorModel>::empty()
        } else {
            seq![spec_descriptor(s[k - 1], s[t])]
        })
    }
}

/// The descriptors of every ordered pair whose target is among the first
/// `t` registered variants: target-major, source-minor, in registration
/// order.
pub open spec fn spec_descriptors_upto(s: Seq<(Seq<char>, SchemaModel)>, t: int) -> Seq<
    DescriptorModel,
>
    decreases t,
{
    if t <= 0 {
        Seq::<DescriptorModel>::empty()
    } else {
        spec_descriptors_upto(s, t - 1) + spec_row_descriptors(s, t - 1, s.len() as int)
    }
}

/// The descriptors of every ordered pair of registered variants.
pub open spec fn spec_all_descriptors(s: Seq<(Seq<char>, SchemaModel)>) -> Seq<DescriptorModel> {
    spec_descriptors_upto(s, s.len() as int)
}

/// The conversion descriptors for every ordered pair of registered
/// variants: for each target in registration order, each other variant as
/// source, in registration order.
pub fn synthesize_all(structs: &OutputStructs) -> (r: Vec<ConversionDescriptor>)
    requires
        structs.wf(),
    ensures
        r@.map_values(|d: ConversionDescriptor| d@) == spec_all_descriptors(structs@),
{
    let ghost sv = structs@;
    let n = structs.len();
    let mut out: Vec<ConversionDescriptor> = Vec::new();
    proof {
        assert(out@.map_values(|d: ConversionDescriptor| d@) =~= spec_descriptors_upto(sv, 0));
    }
    let mut t: usize = 0;
    while t < n
        invariant
            0 <= t <= n,
            n == sv.len(),
            sv == structs@,
            structs.wf(),
            out@.map_values(|d: ConversionDescriptor| d@) == spec_descriptors_upto(sv, t as int),
        decreases n - t,
    {
        let mut k: usize = 0;
        while k < n
            invariant
                0 <= k <= n,
                0 <= t < n,
                n == sv.len(),
                sv == structs@,
                structs.wf(),
                out@.map_values(|d: ConversionDescriptor| d@) == spec_descriptors_upto(
                    sv,
                    t as int,
                ) + spec_row_descriptors(sv, t as int, k as int),
            decreases n - k,
        {
            let ghost pre_map = out@.map_values(|c: ConversionDescriptor| c@);
            let same = str_eq(structs.name_at(k).as_str(), structs.name_at(t).as_str());
            proof {
                assert(sv[k as int] =~~= (sv[k as int].0, sv[k as int].1));
                assert(sv[t as int] =~~= (sv[t as int].0, sv[t as int].1));
                assert(spec_row_descriptors(sv, t as int, k + 1) == spec_row_descriptors(
                    sv,
                    t as int,
                    k as int,
                ) + (if sv[k as int].0 == sv[t as int].0 {
                    Seq::<DescriptorModel>::empty()
                } else {
                    seq![spec_descriptor(sv[k as int], sv[t as int])]
                }));
            }
            if !same {
                let d = synthesize_pair(
                    structs.name_at(k),
                    structs.schema_at(k),
                    structs.name_at(t),
                    structs.schema_at(t),
                );
                let ghost dv = d@;
                out.push(d);
                proof {
                    assert(dv == spec_descriptor(sv[k as int], sv[t as int]));
                    assert(out@.map_values(|c: ConversionDescriptor| c@) =~= pre_map.push(dv));
                    assert(out@.map_values(|c: ConversionDescriptor| c@) =~= spec_descriptors_upto(
                        sv,
                        t as int,
                    ) + spec_row_descriptors(sv, t as int, k + 1));
                }
            } else {
                proof {
                    assert(out@.map_values(|c: ConversionDescriptor| c@) =~= spec_descriptors_upto(
                        sv,
                        t as int,
                    ) + spec_row_descriptors(sv, t as int, k + 1));
                }
            }
            k += 1;
        }
        proof {
            assert(out@.map_values(|d: ConversionDescriptor| d@) =~= spec_descriptors_upto(
                sv,
                t + 1,
            ));
        }
        t += 1;
    }
    out
}

} // verus!
