//! Laws of the derivation engine, stated over the same specifications that
//! the executable functions' contracts use, and proved once and for all.

use vstd::prelude::*;
use crate::model::{FieldModel, SchemaModel, fields_contain, field_index, spec_common_fields,
    spec_missing_fields};
use crate::directives::{DirectiveModel, FieldDefModel, AttrForModel, spec_has_default,
    spec_field_of};
use crate::registry::{spec_initialize, spec_apply_attrs, has_variant};
use crate::placement::{reg_names, spec_resolve_directives, spec_place, spec_place_field,
    spec_resolve_fields};
use crate::synthesis::{ConversionKind, FillRule, spec_missing_nd_fields, spec_total_fills,
    spec_partial_defaults_fills, spec_total_form, spec_partial_form,
    spec_partial_defaults_form, spec_descriptor};
use crate::convert::{ValueModel, spec_apply_total, spec_apply_partial_defaults};
use crate::engine::{BaseModel, FamilyModel, spec_boilermates};

verus! {

/// `s2` extends `s1`: same variants, in the same order, each member-field
/// list of `s1` a prefix of the corresponding list of `s2`.
pub open spec fn schema_extends(
    s2: Seq<(Seq<char>, SchemaModel)>,
    s1: Seq<(Seq<char>, SchemaModel)>,
) -> bool {
    &&& s2.len() == s1.len()
    &&& forall|v: int| 0 <= v < s1.len() ==> s2[v].0 == s1[v].0
    &&& forall|v: int|
        0 <= v < s1.len() ==> s1[v].1.fields.len() <= #[trigger] s2[v].1.fields.len()
    &&& forall|v: int, i: int|
        0 <= v < s1.len() && 0 <= i < s1[v].1.fields.len() ==> #[trigger] s2[v].1.fields[i]
            == s1[v].1.fields[i]
}

/// A field present in a schema stays present in any extension.
pub proof fn lemma_extends_keeps_fields(
    s2: Seq<(Seq<char>, SchemaModel)>,
    s1: Seq<(Seq<char>, SchemaModel)>,
    v: int,
    n: Seq<char>,
)
    requires
        schema_extends(s2, s1),
        0 <= v < s1.len(),
        fields_contain(s1[v].1.fields, n),
    ensures
        fields_contain(s2[v].1.fields, n),
{
    let i = choose|i: int| 0 <= i < s1[v].1.fields.len() && s1[v].1.fields[i].name == n;
    assert(s2[v].1.fields[i] == s1[v].1.fields[i]);
}

/// Placing one field only appends to member-field lists.
pub proof fn lemma_place_field_extends(
    s: Seq<(Seq<char>, SchemaModel)>,
    fd: FieldDefModel,
    base: Seq<char>,
)
    ensures
        spec_place_field(s, fd, base) matches Ok(s2) ==> schema_extends(s2, s),
{
    match spec_resolve_directives(reg_names(s), fd.directives, base) {
        Err(_) => {},
        Ok(cands) => {
            let s2 = spec_place(s, cands, spec_field_of(fd));
            assert forall|v: int, i: int|
                0 <= v < s.len() && 0 <= i < s[v].1.fields.len() implies #[trigger] s2[v].1.fields[i]
                == s[v].1.fields[i] by {
                if cands.contains(s[v].0) {
                    assert(s2[v].1.fields == s[v].1.fields.push(spec_field_of(fd)));
                }
            }
            assert forall|v: int| 0 <= v < s.len() implies s[v].1.fields.len()
                <= #[trigger] s2[v].1.fields.len() by {
                if cands.contains(s[v].0) {
                    assert(s2[v].1.fields == s[v].1.fields.push(spec_field_of(fd)));
                }
            }
        },
    }
}

/// Resolving a field list only appends to member-field lists.
pub proof fn lemma_resolve_fields_extends(
    s: Seq<(Seq<char>, SchemaModel)>,
    fds: Seq<FieldDefModel>,
    base: Seq<char>,
)
    ensures
        spec_resolve_fields(s, fds, base) matches Ok(s2) ==> schema_extends(s2, s),
    decreases fds.len(),
{
    if fds.len() == 0 {
    } else {
        lemma_resolve_fields_extends(s, fds.drop_last(), base);
        match spec_resolve_fields(s, fds.drop_last(), base) {
            Err(_) => {},
            Ok(mid) => {
                lemma_place_field_extends(mid, fds.last(), base);
            },
        }
    }
}

/// Directives that are all `Default` leave the candidate set at all
/// registered names.
pub proof fn lemma_resolve_all_default(
    reg: Seq<Seq<char>>,
    ds: Seq<DirectiveModel>,
    base: Seq<char>,
)
    requires
        forall|i: int| 0 <= i < ds.len() ==> ds[i] is Default,
    ensures
        spec_resolve_directives(reg, ds, base) == Ok::<_, (Seq<char>, crate::directives::DirectiveKind)>(reg),
    decreases ds.len(),
{
    if ds.len() > 0 {
        lemma_resolve_all_default(reg, ds.drop_last(), base);
    }
}

/// A declared field with no placement directive — every directive, if any,
/// is `Default` — is placed as a member of every registered variant.
pub proof fn lemma_no_placement_member_everywhere(
    s: Seq<(Seq<char>, SchemaModel)>,
    fds: Seq<FieldDefModel>,
    base: Seq<char>,
    k: int,
)
    requires
        spec_resolve_fields(s, fds, base) is Ok,
        0 <= k < fds.len(),
        forall|i: int| 0 <= i < fds[k].directives.len() ==> fds[k].directives[i] is Default,
    ensures
        spec_resolve_fields(s, fds, base) matches Ok(s2) ==> forall|v: int|
            0 <= v < s2.len() ==> fields_contain(#[trigger] s2[v].1.fields, fds[k].name),
    decreases fds.len(),
{
    let front = spec_resolve_fields(s, fds.drop_last(), base);
    let whole = spec_resolve_fields(s, fds, base);
    match whole {
        Err(_) => {},
        Ok(s2) => {
            let mid = front->Ok_0;
            if k == fds.len() - 1 {
                lemma_resolve_fields_extends(s, fds.drop_last(), base);
                let reg = reg_names(mid);
                lemma_resolve_all_default(reg, fds[k].directives, base);
                let f = spec_field_of(fds[k]);
                assert(s2 == spec_place(mid, reg, f));
                assert forall|v: int| 0 <= v < s2.len() implies fields_contain(
                    #[trigger] s2[v].1.fields,
                    fds[k].name,
                ) by {
                    assert(reg_names(mid)[v] == mid[v].0);
                    assert(reg.contains(mid[v].0));
                    assert(s2[v].1.fields == mid[v].1.fields.push(f));
                    assert(s2[v].1.fields[mid[v].1.fields.len() as int].name == fds[k].name);
                }
            } else {
                lemma_no_placement_member_everywhere(s, fds.drop_last(), base, k);
                lemma_place_field_extends(mid, fds.last(), base);
                assert forall|v: int| 0 <= v < s2.len() implies fields_contain(
                    #[trigger] s2[v].1.fields,
                    fds[k].name,
                ) by {
                    assert(fields_contain(mid[v].1.fields, fds[k].name));
                    lemma_extends_keeps_fields(s2, mid, v, fds[k].name);
                }
            }
        },
    }
}

/// A field declared with no directives at all is a member of every
/// registered variant of the generated family, the base variant included.
pub proof fn lemma_no_directive_member_everywhere(
    base: BaseModel,
    struct_attrs: Seq<AttrForModel>,
    mates: Seq<Seq<char>>,
    fam: FamilyModel,
    k: int,
)
    requires
        spec_boilermates(base, struct_attrs, mates) == Ok::<_, crate::directives::ErrorModel>(fam),
        0 <= k < base.fields.len(),
        base.fields[k].directives.len() == 0,
    ensures
        forall|v: int|
            0 <= v < fam.schemas.len() ==> fields_contain(
                #[trigger] fam.schemas[v].1.fields,
                base.fields[k].name,
            ),
{
    let s0 = spec_initialize(base.name, base.attrs, mates)->Ok_0;
    let s1 = spec_apply_attrs(s0, struct_attrs)->Ok_0;
    lemma_no_placement_member_everywhere(s1, base.fields, base.name, k);
}

/// A field carrying `Default` and no placement directive is a member of
/// every registered variant of the generated family, with its default flag
/// set.
pub proof fn lemma_default_field_member_everywhere(
    base: BaseModel,
    struct_attrs: Seq<AttrForModel>,
    mates: Seq<Seq<char>>,
    fam: FamilyModel,
    k: int,
)
    requires
        spec_boilermates(base, struct_attrs, mates) == Ok::<_, crate::directives::ErrorModel>(fam),
        0 <= k < base.fields.len(),
        forall|i: int| 0 <= i < base.fields[k].directives.len() ==> base.fields[k].directives[i]
            is Default,
        spec_has_default(base.fields[k].directives),
    ensures
        forall|v: int|
            0 <= v < fam.schemas.len() ==> fields_contain(
                #[trigger] fam.schemas[v].1.fields,
                base.fields[k].name,
            ),
        spec_field_of(base.fields[k]).default,
{
    let s0 = spec_initialize(base.name, base.attrs, mates)->Ok_0;
    let s1 = spec_apply_attrs(s0, struct_attrs)->Ok_0;
    lemma_no_placement_member_everywhere(s1, base.fields, base.name, k);
}

/// Name-membership in a filtered field list, for a predicate that depends
/// on the name alone.
proof fn lemma_common_membership(fs: Seq<FieldModel>, source: SchemaModel, n: Seq<char>)
    ensures
        fields_contain(
            fs.filter(|f: FieldModel| fields_contain(source.fields, f.name)),
            n,
        ) == (fields_contain(fs, n) && fields_contain(source.fields, n)),
    decreases fs.len(),
{
    reveal(Seq::filter);
    let pred = |f: FieldModel| fields_contain(source.fields, f.name);
    if fs.len() == 0 {
    } else {
        lemma_common_membership(fs.drop_last(), source, n);
        let front = fs.drop_last();
        let kept = fs.filter(pred);
        let kept_front = front.filter(pred);
        if fields_contain(kept, n) {
            let i = choose|i: int| 0 <= i < kept.len() && kept[i].name == n;
            if pred(fs.last()) {
                assert(kept == kept_front.push(fs.last()));
                if i < kept_front.len() {
                    assert(fields_contain(kept_front, n));
                } else {
                    assert(fs.last().name == n);
                    assert(fs[fs.len() - 1].name == n);
                    assert(fields_contain(fs, n));
                }
            } else {
                assert(kept == kept_front);
                assert(fields_contain(kept_front, n));
            }
            if fields_contain(front, n) {
                let j = choose|j: int| 0 <= j < front.len() && front[j].name == n;
                assert(fs[j].name == n);
                assert(fields_contain(fs, n));
            }
        }
        if fields_contain(fs, n) && fields_contain(source.fields, n) {
            let i = choose|i: int| 0 <= i < fs.len() && fs[i].name == n;
            if i < fs.len() - 1 {
                assert(front[i].name == n);
                assert(fields_contain(front, n));
                assert(fields_contain(kept_front, n));
                let j = choose|j: int| 0 <= j < kept_front.len() && kept_front[j].name == n;
                if pred(fs.last()) {
                    assert(kept == kept_front.push(fs.last()));
                }
                assert(kept[j].name == n);
                assert(fields_contain(kept, n));
            } else {
                assert(fs.last().name == n);
                assert(pred(fs.last()));
                assert(kept == kept_front.push(fs.last()));
                assert(kept[kept.len() - 1].name == n);
                assert(fields_contain(kept, n));
            }
        }
    }
}

/// The names of the fields of `fs`, as a set.
pub open spec fn field_name_set(fs: Seq<FieldModel>) -> Set<Seq<char>> {
    Set::new(|n: Seq<char>| fields_contain(fs, n))
}

/// The common fields used in synthesis carry exactly the names in the
/// intersection of the two member sets.
pub proof fn lemma_common_is_name_intersection(target: SchemaModel, source: SchemaModel)
    ensures
        field_name_set(spec_common_fields(target, source)) == field_name_set(
            target.fields,
        ).intersect(field_name_set(source.fields)),
{
    assert forall|n: Seq<char>|
        field_name_set(spec_common_fields(target, source)).contains(n) == field_name_set(
            target.fields,
        ).intersect(field_name_set(source.fields)).contains(n) by {
        lemma_common_membership(target.fields, source, n);
    }
    assert(field_name_set(spec_common_fields(target, source)) =~= field_name_set(
        target.fields,
    ).intersect(field_name_set(source.fields)));
}

/// When every field missing from the pair is defaulted, the descriptor
/// holds a total conversion — first among its forms, callable with exactly
/// the source value, no parameters — and the total conversion's result
/// moves each common field from the source record and fills every other
/// field with its type's default. No other form of the pair is total.
pub proof fn lemma_total_conversion(
    source: (Seq<char>, SchemaModel),
    target: (Seq<char>, SchemaModel),
    vals: Seq<ValueModel>,
)
    requires
        spec_missing_nd_fields(target.1, source.1).len() == 0,
    ensures
        spec_descriptor(source, target).forms.len() >= 1,
        spec_descriptor(source, target).forms[0] == spec_total_form(target.1, source.1),
        spec_descriptor(source, target).forms[0].kind == ConversionKind::Total,
        spec_descriptor(source, target).forms[0].params.len() == 0,
        forall|k: int|
            1 <= k < spec_descriptor(source, target).forms.len() ==> !(spec_descriptor(
                source,
                target,
            ).forms[k].kind is Total),
        forall|j: int|
            0 <= j < target.1.fields.len() && fields_contain(
                source.1.fields,
                target.1.fields[j].name,
            ) ==> spec_apply_total(source.1, target.1, vals)[j] == vals[field_index(
                source.1.fields,
                target.1.fields[j].name,
            )],
        forall|j: int|
            0 <= j < target.1.fields.len() && !fields_contain(
                source.1.fields,
                target.1.fields[j].name,
            ) ==> spec_apply_total(source.1, target.1, vals)[j] == ValueModel::DefaultOf(
                target.1.fields[j].ty,
            ),
{
    let d = spec_descriptor(source, target);
    assert(d.forms[0] == spec_total_form(target.1, source.1));
}

/// When some field of the pair is missing, both partial forms exist: the
/// full form's parameters are exactly the missing fields, the defaults
/// form's exactly the missing fields without defaults, both in target
/// declaration order.
pub proof fn lemma_partial_conversion_forms(
    source: (Seq<char>, SchemaModel),
    target: (Seq<char>, SchemaModel),
)
    requires
        spec_missing_fields(target.1, source.1).len() > 0,
    ensures
        ({
            let d = spec_descriptor(source, target);
            let b: int = if spec_missing_nd_fields(target.1, source.1).len() == 0 {
                1
            } else {
                0
            };
            &&& d.forms.len() == b + 2
            &&& d.forms[b] == spec_partial_form(target.0, target.1, source.1)
            &&& d.forms[b].kind == ConversionKind::Partial
            &&& d.forms[b].params == d.missing
            &&& d.forms[b].params.len() == d.missing.len()
            &&& d.forms[b + 1] == spec_partial_defaults_form(target.0, target.1, source.1)
            &&& d.forms[b + 1].kind == ConversionKind::PartialWithDefaults
            &&& d.forms[b + 1].params == d.missing_no_default
            &&& d.forms[b + 1].params.len() == d.missing_no_default.len()
        }),
{
}

/// A missing field that carries `Default` is filled with its type's default
/// automatically, both by the total form and by the defaults-partial form,
/// in the fill rules and in the produced record.
pub proof fn lemma_default_fields_autofilled(
    source: (Seq<char>, SchemaModel),
    target: (Seq<char>, SchemaModel),
    vals: Seq<ValueModel>,
    args: Seq<ValueModel>,
    j: int,
)
    requires
        0 <= j < target.1.fields.len(),
        target.1.fields[j].default,
        !fields_contain(source.1.fields, target.1.fields[j].name),
    ensures
        spec_total_fills(target.1, source.1)[j] == FillRule::TypeDefault,
        spec_partial_defaults_fills(target.1, source.1)[j] == FillRule::TypeDefault,
        spec_apply_total(source.1, target.1, vals)[j] == ValueModel::DefaultOf(
            target.1.fields[j].ty,
        ),
        spec_apply_partial_defaults(source.1, target.1, vals, args)[j] == ValueModel::DefaultOf(
            target.1.fields[j].ty,
        ),
{
}

/// A source earlier than `k` with a name other than the target's has its
/// descriptor in the target's row.
proof fn lemma_row_contains(s: Seq<(Seq<char>, SchemaModel)>, t: int, k: int, i: int)
    requires
        0 <= t < s.len(),
        0 <= i < k <= s.len(),
        s[i].0 != s[t].0,
    ensures
        crate::synthesis::spec_row_descriptors(s, t, k).contains(spec_descriptor(s[i], s[t])),
    decreases k,
{
    let row = crate::synthesis::spec_row_descriptors(s, t, k);
    let prev = crate::synthesis::spec_row_descriptors(s, t, k - 1);
    if i == k - 1 {
        assert(row[prev.len() as int] == spec_descriptor(s[i], s[t]));
    } else {
        lemma_row_contains(s, t, k - 1, i);
        let idx = choose|idx: int|
            0 <= idx < prev.len() && prev[idx] == spec_descriptor(s[i], s[t]);
        assert(row[idx] == spec_descriptor(s[i], s[t]));
    }
}

/// Every ordered pair of distinct registered variants has its conversion
/// descriptor in the synthesized list, so for every such pair the forms
/// that `spec_descriptor` promises — total, partial, defaults-partial —
/// exist in the family's output.
pub proof fn lemma_all_pairs_synthesized(s: Seq<(Seq<char>, SchemaModel)>, i: int, t: int)
    requires
        crate::registry::distinct_variant_names(s),
        0 <= i < s.len(),
        0 <= t < s.len(),
        i != t,
    ensures
        crate::synthesis::spec_all_descriptors(s).contains(spec_descriptor(s[i], s[t])),
{
    assert(s[i].0 != s[t].0);
    lemma_row_contains(s, t, s.len() as int, i);
    lemma_upto_contains(s, t, s.len() as int, spec_descriptor(s[i], s[t]));
}

/// A descriptor in some target's row is in the flattened list of every
/// later prefix.
proof fn lemma_upto_contains(
    s: Seq<(Seq<char>, SchemaModel)>,
    t: int,
    tmax: int,
    d: crate::synthesis::DescriptorModel,
)
    requires
        0 <= t < tmax <= s.len(),
        crate::synthesis::spec_row_descriptors(s, t, s.len() as int).contains(d),
    ensures
        crate::synthesis::spec_descriptors_upto(s, tmax).contains(d),
    decreases tmax,
{
    let upto = crate::synthesis::spec_descriptors_upto(s, tmax);
    let prev = crate::synthesis::spec_descriptors_upto(s, tmax - 1);
    let row = crate::synthesis::spec_row_descriptors(s, tmax - 1, s.len() as int);
    if t == tmax - 1 {
        let idx = choose|idx: int| 0 <= idx < row.len() && row[idx] == d;
        assert(upto[prev.len() + idx] == d);
    } else {
        lemma_upto_contains(s, t, tmax - 1, d);
        let idx = choose|idx: int| 0 <= idx < prev.len() && prev[idx] == d;
        assert(upto[idx] == d);
    }
}

/// One target's row holds one descriptor per considered source, the target
/// itself skipped.
proof fn lemma_row_len(s: Seq<(Seq<char>, SchemaModel)>, t: int, k: int)
    requires
        crate::registry::distinct_variant_names(s),
        0 <= t < s.len(),
        0 <= k <= s.len(),
    ensures
        crate::synthesis::spec_row_descriptors(s, t, k).len() == k - (if t < k {
            1int
        } else {
            0int
        }),
    decreases k,
{
    if k > 0 {
        lemma_row_len(s, t, k - 1);
        if k - 1 != t {
            assert(s[k - 1].0 != s[t].0);
        }
    }
}

/// The flattened list over the first `t` targets holds `t` rows of
/// `len - 1` descriptors each.
proof fn lemma_upto_len(s: Seq<(Seq<char>, SchemaModel)>, t: int)
    requires
        crate::registry::distinct_variant_names(s),
        0 <= t <= s.len(),
    ensures
        crate::synthesis::spec_descriptors_upto(s, t).len() == t * (s.len() as int - 1),
    decreases t,
{
    if t > 0 {
        lemma_upto_len(s, t - 1);
        lemma_row_len(s, t - 1, s.len() as int);
        let n = s.len() as int;
        assert(crate::synthesis::spec_descriptors_upto(s, t)
            == crate::synthesis::spec_descriptors_upto(s, t - 1)
            + crate::synthesis::spec_row_descriptors(s, t - 1, n));
        assert(crate::synthesis::spec_row_descriptors(s, t - 1, n).len() == n - 1);
        assert(crate::synthesis::spec_descriptors_upto(s, t - 1).len() == (t - 1) * (n - 1));
        assert(t * (n - 1) == (t - 1) * (n - 1) + (n - 1)) by (nonlinear_arith);
        assert(crate::synthesis::spec_descriptors_upto(s, t).len() == t * (n - 1));
    } else {
        assert(crate::synthesis::spec_descriptors_upto(s, 0).len() == 0);
    }
}

/// The synthesized list enumerates the whole pairwise conversion space:
/// one descriptor for each of the `V × (V − 1)` ordered pairs of distinct
/// registered variants.
pub proof fn lemma_all_descriptors_count(s: Seq<(Seq<char>, SchemaModel)>)
    requires
        crate::registry::distinct_variant_names(s),
    ensures
        crate::synthesis::spec_all_descriptors(s).len() == s.len() * (s.len() as int - 1),
{
    if s.len() > 0 {
        lemma_upto_len(s, s.len() as int);
    }
}

/// The seeded registry on success: the starting registry extended by one
/// empty schema per requested name, in request order.
proof fn lemma_register_names_shape(s: Seq<(Seq<char>, SchemaModel)>, names: Seq<Seq<char>>)
    ensures
        crate::registry::spec_register_names(s, names) matches Ok(s2) ==> s2 == s
            + names.map_values(|n: Seq<char>| (n, crate::registry::empty_schema())),
    decreases names.len(),
{
    let f = |n: Seq<char>| (n, crate::registry::empty_schema());
    if names.len() == 0 {
        assert(s + names.map_values(f) =~= s);
    } else {
        lemma_register_names_shape(s, names.drop_last());
        match crate::registry::spec_register_names(s, names.drop_last()) {
            Err(_) => {},
            Ok(mid) => {
                assert(s + names.map_values(f) =~= (s + names.drop_last().map_values(f)).push(
                    (names.last(), crate::registry::empty_schema()),
                ));
            },
        }
    }
}

/// A name is a variant of the extended registry exactly when it is one of
/// the start or one of the appended names.
proof fn lemma_has_variant_concat(
    s: Seq<(Seq<char>, SchemaModel)>,
    names: Seq<Seq<char>>,
    x: Seq<char>,
)
    ensures
        has_variant(
            s + names.map_values(|n: Seq<char>| (n, crate::registry::empty_schema())),
            x,
        ) == (has_variant(s, x) || names.contains(x)),
{
    let m = names.map_values(|n: Seq<char>| (n, crate::registry::empty_schema()));
    let c = s + m;
    if has_variant(c, x) {
        let k = choose|k: int| 0 <= k < c.len() && c[k].0 == x;
        if k < s.len() {
            assert(s[k].0 == x);
        } else {
            assert(names[k - s.len()] == x);
            assert(names.contains(x));
        }
    }
    if has_variant(s, x) {
        let k = choose|k: int| 0 <= k < s.len() && s[k].0 == x;
        assert(c[k].0 == x);
        assert(has_variant(c, x));
    }
    if names.contains(x) {
        let k = choose|k: int| 0 <= k < names.len() && names[k] == x;
        assert(c[s.len() + k].0 == x);
        assert(has_variant(c, x));
    }
}

/// Seeding succeeds exactly when the requested names are pairwise distinct
/// and none of them is already registered.
pub proof fn lemma_register_names_ok_iff(s: Seq<(Seq<char>, SchemaModel)>, names: Seq<Seq<char>>)
    ensures
        (crate::registry::spec_register_names(s, names) is Ok) == ((forall|i: int, j: int|
            0 <= i < j < names.len() ==> names[i] != names[j]) && (forall|i: int|
            0 <= i < names.len() ==> !has_variant(s, #[trigger] names[i]))),
    decreases names.len(),
{
    if names.len() > 0 {
        let front = names.drop_last();
        lemma_register_names_ok_iff(s, front);
        lemma_register_names_shape(s, front);
        assert(forall|i: int| 0 <= i < front.len() ==> front[i] == names[i]);
        match crate::registry::spec_register_names(s, front) {
            Err(_) => {
                assert(!((forall|i: int, j: int|
                    0 <= i < j < front.len() ==> front[i] != front[j]) && (forall|i: int|
                    0 <= i < front.len() ==> !has_variant(s, #[trigger] front[i]))));
            },
            Ok(mid) => {
                lemma_has_variant_concat(s, front, names.last());
                if has_variant(mid, names.last()) {
                    if front.contains(names.last()) {
                        let k = choose|k: int| 0 <= k < front.len() && front[k] == names.last();
                        assert(names[k] == names[names.len() - 1]);
                    }
                } else {
                    assert forall|i: int, j: int|
                        0 <= i < j < names.len() implies names[i] != names[j] by {
                        if j < names.len() - 1 {
                            assert(front[i] != front[j]);
                        } else {
                            if names[i] == names.last() {
                                assert(front[i] == names.last());
                                assert(front.contains(names.last()));
                            }
                        }
                    }
                }
            },
        }
    }
}

/// The requested variant-name list is rejected exactly when it repeats a
/// name, the base schema's own name included.
pub proof fn lemma_initialize_ok_iff(
    base: Seq<char>,
    base_attrs: Seq<Seq<char>>,
    mates: Seq<Seq<char>>,
)
    ensures
        (spec_initialize(base, base_attrs, mates) is Ok) == ((forall|i: int, j: int|
            0 <= i < j < mates.len() ==> mates[i] != mates[j]) && (forall|i: int|
            0 <= i < mates.len() ==> #[trigger] mates[i] != base)),
{
    let s = seq![(base, SchemaModel { attrs: base_attrs, fields: Seq::<FieldModel>::empty() })];
    lemma_register_names_ok_iff(s, mates);
    assert forall|i: int| 0 <= i < mates.len() implies has_variant(s, #[trigger] mates[i]) == (
    mates[i] == base) by {
        if has_variant(s, mates[i]) {
            let k = choose|k: int| 0 <= k < s.len() && s[k].0 == mates[i];
            assert(k == 0);
        }
        if mates[i] == base {
            assert(s[0].0 == mates[i]);
        }
    }
}

/// Registered variant names stay present through the whole derivation: the
/// base schema's own name is a variant of every generated family.
pub proof fn lemma_base_is_variant(
    base: BaseModel,
    struct_attrs: Seq<AttrForModel>,
    mates: Seq<Seq<char>>,
    fam: FamilyModel,
)
    requires
        spec_boilermates(base, struct_attrs, mates) == Ok::<_, crate::directives::ErrorModel>(fam),
    ensures
        fam.schemas.len() >= 1,
        fam.schemas[0].0 == base.name,
        has_variant(fam.schemas, base.name),
{
    let s0 = spec_initialize(base.name, base.attrs, mates)->Ok_0;
    let s1 = spec_apply_attrs(s0, struct_attrs)->Ok_0;
    lemma_register_keeps_prefix(base, mates);
    lemma_apply_attrs_keeps_names(s0, struct_attrs);
    lemma_resolve_fields_extends(s1, base.fields, base.name);
    assert(fam.schemas[0].0 == base.name);
}

/// Seeding the registry never removes or reorders what is already there.
proof fn lemma_register_keeps_prefix(base: BaseModel, mates: Seq<Seq<char>>)
    requires
        spec_initialize(base.name, base.attrs, mates) is Ok,
    ensures
        spec_initialize(base.name, base.attrs, mates) matches Ok(s0) ==> s0.len() >= 1 && s0[0].0
            == base.name,
{
    lemma_register_names_prefix(
        seq![
            (
                base.name,
                SchemaModel { attrs: base.attrs, fields: Seq::<FieldModel>::empty() },
            ),
        ],
        mates,
    );
}

/// Registering names only appends to the registry.
proof fn lemma_register_names_prefix(s: Seq<(Seq<char>, SchemaModel)>, names: Seq<Seq<char>>)
    ensures
        crate::registry::spec_register_names(s, names) matches Ok(s2) ==> s2.len() >= s.len()
            && forall|i: int| 0 <= i < s.len() ==> s2[i] == s[i],
    decreases names.len(),
{
    if names.len() > 0 {
        lemma_register_names_prefix(s, names.drop_last());
    }
}

/// Attaching struct attributes keeps every variant name in place.
proof fn lemma_apply_attrs_keeps_names(
    s: Seq<(Seq<char>, SchemaModel)>,
    attrs: Seq<AttrForModel>,
)
    ensures
        spec_apply_attrs(s, attrs) matches Ok(s2) ==> s2.len() == s.len() && forall|i: int|
            0 <= i < s.len() ==> s2[i].0 == s[i].0,
    decreases attrs.len(),
{
    if attrs.len() > 0 {
        lemma_apply_attrs_keeps_names(s, attrs.drop_last());
    }
}

} // verus!
