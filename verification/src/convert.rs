//! Applying conversions to record values. A record of a variant is the list
//! of its field values, in the variant's declaration order. A value is
//! either given explicitly or is the default value of a field's type, which
//! is all a generated conversion body can produce for an omitted field.

use vstd::prelude::*;
use crate::model::{
    OutputField,
    OutputStruct,
    FieldModel,
    SchemaModel,
    fields_contain,
    field_index,
    distinct_field_names,
    spec_missing_fields,
    str_eq,
};
use crate::synthesis::{spec_missing_nd_fields, spec_missing_before, spec_missing_nd_before};

verus! {

/// One field's value in a record.
#[derive(Clone, PartialEq, Eq, Debug)]
pub enum FieldValue {
    /// A value written by the caller, as an opaque token.
    Given(String),
    /// The default value of the named type.
    DefaultOf(String),
}

/// Mathematical model of a field value.
pub ghost enum ValueModel {
    Given(Seq<char>),
    DefaultOf(Seq<char>),
}

impl View for FieldValue {
    type V = ValueModel;

    open spec fn view(&self) -> ValueModel {
        match self {
            FieldValue::Given(s) => ValueModel::Given(s@),
            FieldValue::DefaultOf(t) => ValueModel::DefaultOf(t@),
        }
    }
}

impl FieldValue {
    /// A copy of this value.
    pub fn clone_value(&self) -> (r: Self)
        ensures
            r@ == self@,
    {
        match self {
            FieldValue::Given(s) => FieldValue::Given(s.clone()),
            FieldValue::DefaultOf(t) => FieldValue::DefaultOf(t.clone()),
        }
    }
}

/// The position of the field named `name`, scanning in declaration order.
pub fn find_field(fields: &Vec<OutputField>, name: &str) -> (r: Option<usize>)
    ensures
        match r {
            Some(i) => i < fields@.len() && fields@[i as int]@.name == name@,
            None => forall|k: int| 0 <= k < fields@.len() ==> fields@[k]@.name != name@,
        },
{
    let mut i: usize = 0;
    while i < fields.len()
        invariant
            0 <= i <= fields.len(),
            forall|k: int| 0 <= k < i ==> fields@[k]@.name != name@,
        decreases fields.len() - i,
    {
        if str_eq(fields[i].name.as_str(), name) {
            return Some(i);
        }
        i += 1;
    }
    None
}

/// The record that the total conversion produces: each common field moved
/// from the source record, every other field the default of its type.
pub open spec fn spec_apply_total(
    source: SchemaModel,
    target: SchemaModel,
    vals: Seq<ValueModel>,
) -> Seq<ValueModel> {
    Seq::new(
        target.fields.len(),
        |j: int|
            if fields_contain(source.fields, target.fields[j].name) {
                vals[field_index(source.fields, target.fields[j].name)]
            } else {
                ValueModel::DefaultOf(target.fields[j].ty)
            },
    )
}

/// The record that the partial conversion produces: each common field moved
/// from the source record, each missing field taken from the explicit
/// arguments, in target declaration order.
pub open spec fn spec_apply_partial(
    source: SchemaModel,
    target: SchemaModel,
    vals: Seq<ValueModel>,
    args: Seq<ValueModel>,
) -> Seq<ValueModel> {
    Seq::new(
        target.fields.len(),
        |j: int|
            if fields_contain(source.fields, target.fields[j].name) {
                vals[field_index(source.fields, target.fields[j].name)]
            } else {
                args[spec_missing_before(target, source, j)]
            },
    )
}

/// The record that the defaults-partial conversion produces: common fields
/// moved, missing defaulted fields auto-filled with their type's default,
/// the remaining missing fields taken from the explicit arguments.
pub open spec fn spec_apply_partial_defaults(
    source: SchemaModel,
    target: SchemaModel,
    vals: Seq<ValueModel>,
    args: Seq<ValueModel>,
) -> Seq<ValueModel> {
    Seq::new(
        target.fields.len(),
        |j: int|
            if fields_contain(source.fields, target.fields[j].name) {
                vals[field_index(source.fields, target.fields[j].name)]
            } else if target.fields[j].default {
                ValueModel::DefaultOf(target.fields[j].ty)
            } else {
                args[spec_missing_nd_before(target, source, j)]
            },
    )
}

/// Filtering twice is filtering once by the conjunction.
pub proof fn lemma_filter_fusion(
    s: Seq<FieldModel>,
    p: spec_fn(FieldModel) -> bool,
    q: spec_fn(FieldModel) -> bool,
    pq: spec_fn(FieldModel) -> bool,
)
    requires
        forall|f: FieldModel| #[trigger] pq(f) == (p(f) && q(f)),
    ensures
        s.filter(p).filter(q) == s.filter(pq),
    decreases s.len(),
{
    reveal(Seq::filter);
    if s.len() > 0 {
        lemma_filter_fusion(s.drop_last(), p, q, pq);
        if p(s.last()) {
            assert(s.filter(p) == s.drop_last().filter(p).push(s.last()));
            assert(s.filter(p).drop_last() =~= s.drop_last().filter(p));
            assert(s.filter(p).last() == s.last());
        } else {
            assert(s.filter(p) == s.drop_last().filter(p));
        }
    }
}

/// A missing field's position among the missing fields is in range, and the
/// missing-field list holds that field there.
pub proof fn lemma_filter_position(fs: Seq<FieldModel>, pred: spec_fn(FieldModel) -> bool, j: int)
    requires
        0 <= j < fs.len(),
        pred(fs[j]),
    ensures
        fs.take(j).filter(pred).len() < fs.filter(pred).len(),
        fs.filter(pred)[fs.take(j).filter(pred).len() as int] == fs[j],
{
    reveal(Seq::filter);
    assert(fs =~= fs.take(j + 1) + fs.skip(j + 1));
    Seq::<FieldModel>::filter_distributes_over_add(fs.take(j + 1), fs.skip(j + 1), pred);
    assert(fs.take(j + 1).drop_last() =~= fs.take(j));
    assert(fs.take(j + 1).last() == fs[j]);
    assert(fs.take(j + 1).filter(pred) == fs.take(j).filter(pred).push(fs[j]));
    assert(fs.filter(pred) == fs.take(j).filter(pred).push(fs[j]) + fs.skip(j + 1).filter(pred));
}

/// Apply the total conversion source → target to a source record.
pub fn apply_total(source: &OutputStruct, target: &OutputStruct, values: &Vec<FieldValue>) -> (r:
    Vec<FieldValue>)
    requires
        distinct_field_names(source@.fields),
        spec_missing_nd_fields(target@, source@).len() == 0,
        values@.len() == source@.fields.len(),
    ensures
        r@.map_values(|v: FieldValue| v@) == spec_apply_total(
            source@,
            target@,
            values@.map_values(|v: FieldValue| v@),
        ),
{
    let ghost sv = source@;
    let ghost tv = target@;
    let ghost vv = values@.map_values(|v: FieldValue| v@);
    let ghost expected = spec_apply_total(sv, tv, vv);
    let mut r: Vec<FieldValue> = Vec::new();
    let mut j: usize = 0;
    while j < target.fields.len()
        invariant
            0 <= j <= target.fields.len(),
            sv == source@,
            tv == target@,
            vv == values@.map_values(|v: FieldValue| v@),
            vv.len() == values@.len(),
            values@.len() == sv.fields.len(),
            distinct_field_names(sv.fields),
            tv.fields.len() == target.fields@.len(),
            expected == spec_apply_total(sv, tv, vv),
            r@.len() == j,
            forall|k: int| 0 <= k < j ==> r@[k]@ == expected[k],
        decreases target.fields.len() - j,
    {
        proof {
            assert(tv.fields[j as int] == target.fields@[j as int]@);
        }
        match find_field(&source.fields, target.fields[j].name.as_str()) {
            Some(i) => {
                proof {
                    assert(sv.fields[i as int].name == tv.fields[j as int].name);
                    assert(fields_contain(sv.fields, tv.fields[j as int].name));
                    let fi = field_index(sv.fields, tv.fields[j as int].name);
                    assert(sv.fields[fi].name == tv.fields[j as int].name);
                    assert(fi == i as int);
                    assert(vv[i as int] == values@[i as int]@);
                }
                r.push(values[i].clone_value());
            },
            None => {
                proof {
                    assert(!fields_contain(sv.fields, tv.fields[j as int].name));
                }
                r.push(FieldValue::DefaultOf(target.fields[j].ty.clone()));
            },
        }
        j += 1;
    }
    proof {
        assert(r@.map_values(|v: FieldValue| v@) =~= expected);
    }
    r
}

/// Apply the partial conversion source → target to a source record and one
/// explicit argument per missing field, in target declaration order.
pub fn apply_partial(
    source: &OutputStruct,
    target: &OutputStruct,
    values: &Vec<FieldValue>,
    args: &Vec<FieldValue>,
) -> (r: Vec<FieldValue>)
    requires
        distinct_field_names(source@.fields),
        values@.len() == source@.fields.len(),
        args@.len() == spec_missing_fields(target@, source@).len(),
    ensures
        r@.map_values(|v: FieldValue| v@) == spec_apply_partial(
            source@,
            target@,
            values@.map_values(|v: FieldValue| v@),
            args@.map_values(|v: FieldValue| v@),
        ),
{
    let ghost sv = source@;
    let ghost tv = target@;
    let ghost vv = values@.map_values(|v: FieldValue| v@);
    let ghost av = args@.map_values(|v: FieldValue| v@);
    let ghost expected = spec_apply_partial(sv, tv, vv, av);
    let ghost mpred = |f: FieldModel| !fields_contain(sv.fields, f.name);
    let mut r: Vec<FieldValue> = Vec::new();
    let mut arg: usize = 0;
    proof {
        reveal(Seq::filter);
        assert(tv.fields.take(0) =~= Seq::<FieldModel>::empty());
        assert(tv.fields.take(0).filter(mpred) =~= Seq::<FieldModel>::empty());
    }
    let mut j: usize = 0;
    while j < target.fields.len()
        invariant
            0 <= j <= target.fields.len(),
            sv == source@,
            tv == target@,
            vv == values@.map_values(|v: FieldValue| v@),
            av == args@.map_values(|v: FieldValue| v@),
            vv.len() == values@.len(),
            av.len() == args@.len(),
            values@.len() == sv.fields.len(),
            args@.len() == spec_missing_fields(tv, sv).len(),
            distinct_field_names(sv.fields),
            tv.fields.len() == target.fields@.len(),
            expected == spec_apply_partial(sv, tv, vv, av),
            mpred == (|f: FieldModel| !fields_contain(sv.fields, f.name)),
            arg as int == spec_missing_before(tv, sv, j as int),
            r@.len() == j,
            forall|k: int| 0 <= k < j ==> r@[k]@ == expected[k],
        decreases target.fields.len() - j,
    {
        proof {
            reveal(Seq::filter);
            assert(tv.fields[j as int] == target.fields@[j as int]@);
            assert(tv.fields.take(j + 1).drop_last() =~= tv.fields.take(j as int));
            assert(tv.fields.take(j + 1).last() == tv.fields[j as int]);
        }
        match find_field(&source.fields, target.fields[j].name.as_str()) {
            Some(i) => {
                proof {
                    assert(sv.fields[i as int].name == tv.fields[j as int].name);
                    assert(fields_contain(sv.fields, tv.fields[j as int].name));
                    let fi = field_index(sv.fields, tv.fields[j as int].name);
                    assert(sv.fields[fi].name == tv.fields[j as int].name);
                    assert(fi == i as int);
                    assert(vv[i as int] == values@[i as int]@);
                }
                r.push(values[i].clone_value());
            },
            None => {
                proof {
                    assert(!fields_contain(sv.fields, tv.fields[j as int].name));
                    assert(mpred(tv.fields[j as int]));
                    lemma_filter_position(tv.fields, mpred, j as int);
                    assert(spec_missing_fields(tv, sv) == tv.fields.filter(mpred));
                    assert(arg < args@.len());
                    assert(av[arg as int] == args@[arg as int]@);
                }
                r.push(args[arg].clone_value());
                arg += 1;
            },
        }
        proof {
            reveal(Seq::filter);
            assert(tv.fields.take(j + 1).filter(mpred).len() == tv.fields.take(j as int).filter(
                mpred,
            ).len() + (if mpred(tv.fields[j as int]) {
                1int
            } else {
                0int
            }));
        }
        j += 1;
    }
    proof {
        assert(r@.map_values(|v: FieldValue| v@) =~= expected);
    }
    r
}

/// Apply the defaults-partial conversion source → target to a source record
/// and one explicit argument per missing non-defaulted field; the missing
/// defaulted fields are auto-filled with their type's default.
pub fn apply_partial_defaults(
    source: &OutputStruct,
    target: &OutputStruct,
    values: &Vec<FieldValue>,
    args: &Vec<FieldValue>,
) -> (r: Vec<FieldValue>)
    requires
        distinct_field_names(source@.fields),
        values@.len() == source@.fields.len(),
        args@.len() == spec_missing_nd_fields(target@, source@).len(),
    ensures
        r@.map_values(|v: FieldValue| v@) == spec_apply_partial_defaults(
            source@,
            target@,
            values@.map_values(|v: FieldValue| v@),
            args@.map_values(|v: FieldValue| v@),
        ),
{
    let ghost sv = source@;
    let ghost tv = target@;
    let ghost vv = values@.map_values(|v: FieldValue| v@);
    let ghost av = args@.map_values(|v: FieldValue| v@);
    let ghost expected = spec_apply_partial_defaults(sv, tv, vv, av);
    let ghost ndpred = |f: FieldModel| !fields_contain(sv.fields, f.name) && !f.default;
    let mut r: Vec<FieldValue> = Vec::new();
    let mut arg: usize = 0;
    proof {
        reveal(Seq::filter);
        assert(tv.fields.take(0) =~= Seq::<FieldModel>::empty());
        assert(tv.fields.take(0).filter(ndpred) =~= Seq::<FieldModel>::empty());
        lemma_filter_fusion(
            tv.fields,
            |f: FieldModel| !fields_contain(sv.fields, f.name),
            |f: FieldModel| !f.default,
            ndpred,
        );
        assert(spec_missing_nd_fields(tv, sv) == tv.fields.filter(ndpred));
    }
    let mut j: usize = 0;
    while j < target.fields.len()
        invariant
            0 <= j <= target.fields.len(),
            sv == source@,
            tv == target@,
            vv == values@.map_values(|v: FieldValue| v@),
            av == args@.map_values(|v: FieldValue| v@),
            vv.len() == values@.len(),
            av.len() == args@.len(),
            values@.len() == sv.fields.len(),
            args@.len() == tv.fields.filter(
                |f: FieldModel| !fields_contain(sv.fields, f.name) && !f.default,
            ).len(),
            distinct_field_names(sv.fields),
            tv.fields.len() == target.fields@.len(),
            expected == spec_apply_partial_defaults(sv, tv, vv, av),
            ndpred == (|f: FieldModel| !fields_contain(sv.fields, f.name) && !f.default),
            arg as int == spec_missing_nd_before(tv, sv, j as int),
            r@.len() == j,
            forall|k: int| 0 <= k < j ==> r@[k]@ == expected[k],
        decreases target.fields.len() - j,
    {
        proof {
            reveal(Seq::filter);
            assert(tv.fields[j as int] == target.fields@[j as int]@);
            assert(tv.fields.take(j + 1).drop_last() =~= tv.fields.take(j as int));
            assert(tv.fields.take(j + 1).last() == tv.fields[j as int]);
        }
        match find_field(&source.fields, target.fields[j].name.as_str()) {
            Some(i) => {
                proof {
                    assert(sv.fields[i as int].name == tv.fields[j as int].name);
                    assert(fields_contain(sv.fields, tv.fields[j as int].name));
                    let fi = field_index(sv.fields, tv.fields[j as int].name);
                    assert(sv.fields[fi].name == tv.fields[j as int].name);
                    assert(fi == i as int);
                    assert(vv[i as int] == values@[i as int]@);
                }
                r.push(values[i].clone_value());
            },
            None => {
                if target.fields[j].default {
                    proof {
                        assert(!fields_contain(sv.fields, tv.fields[j as int].name));
                    }
                    r.push(FieldValue::DefaultOf(target.fields[j].ty.clone()));
                } else {
                    proof {
                        assert(!fields_contain(sv.fields, tv.fields[j as int].name));
                        assert(ndpred(tv.fields[j as int]));
                        lemma_filter_position(tv.fields, ndpred, j as int);
                        assert(arg < args@.len());
                        assert(av[arg as int] == args@[arg as int]@);
                    }
                    r.push(args[arg].clone_value());
                    arg += 1;
                }
            },
        }
        proof {
            reveal(Seq::filter);
            assert(tv.fields.take(j + 1).filter(ndpred).len() == tv.fields.take(j as int).filter(
                ndpred,
            ).len() + (if ndpred(tv.fields[j as int]) {
                1int
            } else {
                0int
            }));
        }
        j += 1;
    }
    proof {
        assert(r@.map_values(|v: FieldValue| v@) =~= expected);
    }
    r
}

} // verus!
