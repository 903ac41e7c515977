//! The field placement resolver: for each declared field, fold its
//! directives over the candidate variant set, then append the field to the
//! member list of every candidate variant, in registration order.

use vstd::prelude::*;
use crate::model::{OutputField, FieldModel, SchemaModel, str_eq};
use crate::directives::{
    FieldDirective,
    DirectiveModel,
    DirectiveKind,
    FieldDefinition,
    FieldDefModel,
    Error,
    ErrorModel,
    spec_has_default,
    spec_field_of,
};
use crate::registry::{OutputStructs, has_variant};

verus! {

/// The registered variant names of registry view `s`, in order.
pub open spec fn reg_names(s: Seq<(Seq<char>, SchemaModel)>) -> Seq<Seq<char>> {
    s.map_values(|p: (Seq<char>, SchemaModel)| p.0)
}

/// `has_variant` agrees with membership in the name projection.
pub proof fn lemma_has_variant_names(s: Seq<(Seq<char>, SchemaModel)>, n: Seq<char>)
    ensures
        reg_names(s).contains(n) == has_variant(s, n),
{
    if has_variant(s, n) {
        let i = choose|i: int| 0 <= i < s.len() && s[i].0 == n;
        assert(reg_names(s)[i] == n);
        assert(reg_names(s).contains(n));
    }
    if reg_names(s).contains(n) {
        let i = choose|i: int| 0 <= i < reg_names(s).len() && reg_names(s)[i] == n;
        assert(s[i].0 == n);
        assert(has_variant(s, n));
    }
}

/// One directive applied to the candidate variant set.
pub open spec fn spec_apply_directive(
    cands: Seq<Seq<char>>,
    d: DirectiveModel,
    base: Seq<char>,
) -> Seq<Seq<char>> {
    match d {
        DirectiveModel::OnlyIn(s) => s,
        DirectiveModel::NotIn(s) => cands.filter(|c: Seq<char>| !s.contains(c)),
        DirectiveModel::Default => cands,
        DirectiveModel::OnlyInSelf => seq![base],
    }
}

/// The first name in `list` that is not a registered variant name.
pub open spec fn spec_first_unknown(reg: Seq<Seq<char>>, list: Seq<Seq<char>>) -> Option<
    Seq<char>,
>
    decreases list.len(),
{
    if list.len() == 0 {
        None
    } else {
        match spec_first_unknown(reg, list.drop_last()) {
            Some(u) => Some(u),
            None => if !reg.contains(list.last()) {
                Some(list.last())
            } else {
                None
            },
        }
    }
}

/// Once an unknown name has been found, later names do not change it.
pub proof fn lemma_first_unknown_stable(reg: Seq<Seq<char>>, list: Seq<Seq<char>>, k: int)
    requires
        0 <= k <= list.len(),
        spec_first_unknown(reg, list.take(k)) is Some,
    ensures
        spec_first_unknown(reg, list) == spec_first_unknown(reg, list.take(k)),
    decreases list.len() - k,
{
    if k < list.len() {
        assert(list.take(k + 1).drop_last() =~= list.take(k));
        lemma_first_unknown_stable(reg, list, k + 1);
    } else {
        assert(list.take(k) =~= list);
    }
}

/// The diagnostic a single directive raises against the registered names.
pub open spec fn spec_directive_error(reg: Seq<Seq<char>>, d: DirectiveModel) -> Option<
    (Seq<char>, DirectiveKind),
> {
    match d {
        DirectiveModel::OnlyIn(s) => match spec_first_unknown(reg, s) {
            Some(u) => Some((u, DirectiveKind::OnlyIn)),
            None => None,
        },
        DirectiveModel::NotIn(s) => match spec_first_unknown(reg, s) {
            Some(u) => Some((u, DirectiveKind::NotIn)),
            None => None,
        },
        DirectiveModel::Default => None,
        DirectiveModel::OnlyInSelf => None,
    }
}

/// The candidate variant set after the field's directives run in encountered
/// order, starting from all registered names — or the first unknown variant
/// name referenced, with the kind of directive that referenced it.
pub open spec fn spec_resolve_directives(
    reg: Seq<Seq<char>>,
    ds: Seq<DirectiveModel>,
    base: Seq<char>,
) -> Result<Seq<Seq<char>>, (Seq<char>, DirectiveKind)>
    decreases ds.len(),
{
    if ds.len() == 0 {
        Ok(reg)
    } else {
        match spec_resolve_directives(reg, ds.drop_last(), base) {
            Err(e) => Err(e),
            Ok(cands) => match spec_directive_error(reg, ds.last()) {
                Some(e) => Err(e),
                None => Ok(spec_apply_directive(cands, ds.last(), base)),
            },
        }
    }
}

/// Once directive resolution has failed, later directives change nothing.
pub proof fn lemma_resolve_directives_err_stable(
    reg: Seq<Seq<char>>,
    ds: Seq<DirectiveModel>,
    base: Seq<char>,
    k: int,
)
    requires
        0 <= k <= ds.len(),
        spec_resolve_directives(reg, ds.take(k), base) is Err,
    ensures
        spec_resolve_directives(reg, ds, base) == spec_resolve_directives(reg, ds.take(k), base),
    decreases ds.len() - k,
{
    if k < ds.len() {
        assert(ds.take(k + 1).drop_last() =~= ds.take(k));
        lemma_resolve_directives_err_stable(reg, ds, base, k + 1);
    } else {
        assert(ds.take(k) =~= ds);
    }
}

/// `Default` membership grows one directive at a time.
pub proof fn lemma_has_default_step(ds: Seq<DirectiveModel>, k: int)
    requires
        0 <= k < ds.len(),
    ensures
        spec_has_default(ds.take(k + 1)) == (spec_has_default(ds.take(k)) || ds[k] is Default),
{
    let t0 = ds.take(k);
    let t1 = ds.take(k + 1);
    if spec_has_default(t0) {
        let i = choose|i: int| 0 <= i < t0.len() && t0[i] is Default;
        assert(t1[i] is Default);
        assert(spec_has_default(t1));
    }
    if ds[k] is Default {
        assert(t1[k] is Default);
        assert(spec_has_default(t1));
    }
    if spec_has_default(t1) {
        let i = choose|i: int| 0 <= i < t1.len() && t1[i] is Default;
        if i < k {
            assert(t0[i] is Default);
            assert(spec_has_default(t0));
        } else {
            assert(ds[k] is Default);
        }
    }
}

/// Whether `list` holds a string whose characters are `name`'s.
fn names_contain(list: &Vec<String>, name: &str) -> (r: bool)
    ensures
        r == list@.map_values(|s: String| s@).contains(name@),
{
    let ghost lv = list@.map_values(|s: String| s@);
    let mut i: usize = 0;
    while i < list.len()
        invariant
            0 <= i <= list.len(),
            lv == list@.map_values(|s: String| s@),
            lv.len() == list@.len(),
            forall|k: int| 0 <= k < i ==> lv[k] != name@,
        decreases list.len() - i,
    {
        if str_eq(list[i].as_str(), name) {
            proof {
                assert(lv[i as int] == name@);
            }
            return true;
        }
        i += 1;
    }
    false
}

/// A copy of a list of names.
fn clone_names(list: &Vec<String>) -> (r: Vec<String>)
    ensures
        r@.map_values(|s: String| s@) == list@.map_values(|s: String| s@),
{
    let mut r: Vec<String> = Vec::new();
    let mut i: usize = 0;
    while i < list.len()
        invariant
            0 <= i <= list.len(),
            r@.len() == i,
            forall|k: int| 0 <= k < i ==> r@[k]@ == list@[k]@,
        decreases list.len() - i,
    {
        r.push(list[i].clone());
        i += 1;
    }
    proof {
        assert(r@.map_values(|s: String| s@) =~= list@.map_values(|s: String| s@));
    }
    r
}

/// The first name in `list` that is not registered in `structs`, if any.
fn first_unknown(structs: &OutputStructs, list: &Vec<String>) -> (r: Option<String>)
    requires
        structs.wf(),
    ensures
        match r {
            Some(u) => spec_first_unknown(
                reg_names(structs@),
                list@.map_values(|s: String| s@),
            ) == Some(u@),
            None => spec_first_unknown(
                reg_names(structs@),
                list@.map_values(|s: String| s@),
            ) is None,
        },
{
    let ghost reg = reg_names(structs@);
    let ghost lv = list@.map_values(|s: String| s@);
    proof {
        assert(lv.take(0) =~= Seq::<Seq<char>>::empty());
    }
    let mut i: usize = 0;
    while i < list.len()
        invariant
            0 <= i <= list.len(),
            structs.wf(),
            reg == reg_names(structs@),
            lv == list@.map_values(|s: String| s@),
            lv.len() == list@.len(),
            spec_first_unknown(reg, lv.take(i as int)) is None,
        decreases list.len() - i,
    {
        let known = structs.contains(list[i].as_str());
        proof {
            lemma_has_variant_names(structs@, lv[i as int]);
            assert(lv.take(i + 1).drop_last() =~= lv.take(i as int));
            assert(lv.take(i + 1).last() == lv[i as int]);
        }
        if !known {
            proof {
                assert(spec_first_unknown(reg, lv.take(i + 1)) == Some(lv[i as int]));
                lemma_first_unknown_stable(reg, lv, i + 1);
            }
            return Some(list[i].clone());
        }
        i += 1;
    }
    proof {
        assert(lv.take(list@.len() as int) =~= lv);
    }
    None
}

/// The candidate variant names for one declared field, with its `Default`
/// flag: the registered names folded through the field's directives in
/// encountered order. Fails fast with `UnknownVariant` on the first
/// directive that references an unregistered name.
pub fn resolve_candidates(structs: &OutputStructs, field: &FieldDefinition, base_name: &str) -> (r:
    Result<(Vec<String>, bool), Error>)
    requires
        structs.wf(),
    ensures
        match r {
            Ok(p) => {
                &&& spec_resolve_directives(
                    reg_names(structs@),
                    field@.directives,
                    base_name@,
                ) == Ok::<_, (Seq<char>, DirectiveKind)>(p.0@.map_values(|s: String| s@))
                &&& p.1 == spec_has_default(field@.directives)
            },
            Err(e) => spec_resolve_directives(reg_names(structs@), field@.directives, base_name@)
                matches Err(u) && e@ == (ErrorModel::UnknownVariant {
                variant: u.0,
                directive: u.1,
                field: Some(field@.name),
            }),
        },
{
    let ghost reg = reg_names(structs@);
    let ghost dv = field@.directives;
    let mut cands: Vec<String> = structs.names();
    let mut dflt = false;
    proof {
        assert(dv.take(0) =~= Seq::<DirectiveModel>::empty());
        assert(cands@.map_values(|s: String| s@) =~= reg);
    }
    let mut i: usize = 0;
    while i < field.directives.len()
        invariant
            0 <= i <= field.directives.len(),
            structs.wf(),
            reg == reg_names(structs@),
            dv == field@.directives,
            dv.len() == field.directives@.len(),
            spec_resolve_directives(reg, dv.take(i as int), base_name@) == Ok::<
                _,
                (Seq<char>, DirectiveKind),
            >(cands@.map_values(|s: String| s@)),
            dflt == spec_has_default(dv.take(i as int)),
        decreases field.directives.len() - i,
    {
        proof {
            assert(dv.take(i + 1).drop_last() =~= dv.take(i as int));
            assert(dv.take(i + 1).last() == dv[i as int]);
            assert(dv[i as int] == field.directives@[i as int]@);
            lemma_has_default_step(dv, i as int);
        }
        match &field.directives[i] {
            FieldDirective::OnlyIn(list) => {
                match first_unknown(structs, list) {
                    Some(u) => {
                        proof {
                            assert(spec_directive_error(reg, dv[i as int]) == Some(
                                (u@, DirectiveKind::OnlyIn),
                            ));
                            assert(spec_resolve_directives(reg, dv.take(i + 1), base_name@)
                                == Err::<Seq<Seq<char>>, _>((u@, DirectiveKind::OnlyIn)));
                            lemma_resolve_directives_err_stable(reg, dv, base_name@, i + 1);
                        }
                        return Err(
                            Error::UnknownVariant {
                                variant: u,
                                directive: DirectiveKind::OnlyIn,
                                field: Some(field.name.clone()),
                            },
                        );
                    },
                    None => {
                        cands = clone_names(list);
                    },
                }
            },
            FieldDirective::NotIn(list) => {
                match first_unknown(structs, list) {
                    Some(u) => {
                        proof {
                            assert(spec_directive_error(reg, dv[i as int]) == Some(
                                (u@, DirectiveKind::NotIn),
                            ));
                            assert(spec_resolve_directives(reg, dv.take(i + 1), base_name@)
                                == Err::<Seq<Seq<char>>, _>((u@, DirectiveKind::NotIn)));
                            lemma_resolve_directives_err_stable(reg, dv, base_name@, i + 1);
                        }
                        return Err(
                            Error::UnknownVariant {
                                variant: u,
                                directive: DirectiveKind::NotIn,
                                field: Some(field.name.clone()),
                            },
                        );
                    },
                    None => {
                        let ghost lv = list@.map_values(|s: String| s@);
                        let ghost cv = cands@.map_values(|s: String| s@);
                        let mut kept: Vec<String> = Vec::new();
                        proof {
                            reveal(Seq::filter);
                            assert(cv.take(0) =~= Seq::<Seq<char>>::empty());
                            assert(kept@.map_values(|s: String| s@) =~= cv.take(0).filter(
                                |c: Seq<char>| !lv.contains(c)));
                        }
                        let mut j: usize = 0;
                        while j < cands.len()
                            invariant
                                0 <= j <= cands.len(),
                                lv == list@.map_values(|s: String| s@),
                                cv == cands@.map_values(|s: String| s@),
                                cv.len() == cands@.len(),
                                kept@.map_values(|s: String| s@) == cv.take(j as int).filter(
                                    |c: Seq<char>| !lv.contains(c),
                                ),
                            decreases cands.len() - j,
                        {
                            let ghost pred = |c: Seq<char>| !lv.contains(c);
                            let dropit = names_contain(list, cands[j].as_str());
                            if !dropit {
                                kept.push(cands[j].clone());
                            }
                            proof {
                                reveal(Seq::filter);
                                assert(cv.take(j + 1).drop_last() =~= cv.take(j as int));
                                assert(cv.take(j + 1).last() == cv[j as int]);
                                assert(cv[j as int] == cands@[j as int]@);
                                assert(kept@.map_values(|s: String| s@) =~= cv.take(
                                    j + 1).filter(pred));
                            }
                            j += 1;
                        }
                        proof {
                            assert(cv.take(cands@.len() as int) =~= cv);
                        }
                        cands = kept;
                    },
                }
            },
            FieldDirective::Default => {
                dflt = true;
            },
            FieldDirective::OnlyInSelf => {
                let mut only: Vec<String> = Vec::new();
                only.push(base_name.to_owned());
                proof {
                    assert(only@.map_values(|s: String| s@) =~= seq![base_name@]);
                }
                cands = only;
            },
        }
        i += 1;
    }
    proof {
        assert(dv.take(field.directives@.len() as int) =~= dv);
    }
    Ok((cands, dflt))
}

/// The registry after appending field `f` to every variant whose name is in
/// `cands`, in registration order.
pub open spec fn spec_place(
    s: Seq<(Seq<char>, SchemaModel)>,
    cands: Seq<Seq<char>>,
    f: FieldModel,
) -> Seq<(Seq<char>, SchemaModel)> {
    Seq::new(
        s.len(),
        |i: int|
            if cands.contains(s[i].0) {
                (s[i].0, SchemaModel { attrs: s[i].1.attrs, fields: s[i].1.fields.push(f) })
            } else {
                s[i]
            },
    )
}

/// The registry after one declared field has been resolved and placed — or
/// the diagnostic its directives raise.
pub open spec fn spec_place_field(
    s: Seq<(Seq<char>, SchemaModel)>,
    fd: FieldDefModel,
    base: Seq<char>,
) -> Result<Seq<(Seq<char>, SchemaModel)>, ErrorModel> {
    match spec_resolve_directives(reg_names(s), fd.directives, base) {
        Err(u) => Err(
            ErrorModel::UnknownVariant { variant: u.0, directive: u.1, field: Some(fd.name) },
        ),
        Ok(cands) => Ok(spec_place(s, cands, spec_field_of(fd))),
    }
}

/// Resolve one declared field and append it to the member list of every
/// candidate variant. On a diagnostic the registry is left unchanged.
pub fn place_field(structs: &mut OutputStructs, field: &FieldDefinition, base_name: &str) -> (r:
    Result<(), Error>)
    requires
        old(structs).wf(),
    ensures
        final(structs).wf(),
        match r {
            Ok(_) => spec_place_field(old(structs)@, field@, base_name@) == Ok::<_, ErrorModel>(
                final(structs)@,
            ),
            Err(e) => final(structs)@ == old(structs)@ && spec_place_field(
                old(structs)@,
                field@,
                base_name@,
            ) == Err::<Seq<(Seq<char>, SchemaModel)>, _>(e@),
        },
{
    let ghost pre = structs@;
    match resolve_candidates(structs, field, base_name) {
        Err(e) => Err(e),
        Ok((cands, dflt)) => {
            let ghost cv = cands@.map_values(|s: String| s@);
            let ghost fm = spec_field_of(field@);
            let vnames = structs.names();
            let n = structs.len();
            let mut i: usize = 0;
            while i < n
                invariant
                    0 <= i <= n,
                    n == pre.len(),
                    cv == cands@.map_values(|s: String| s@),
                    vnames@.len() == pre.len(),
                    forall|k: int| 0 <= k < pre.len() ==> vnames@[k]@ == pre[k].0,
                    fm == (FieldModel { name: field@.name, ty: field@.ty, default: dflt }),
                    structs.wf(),
                    structs@.len() == pre.len(),
                    forall|k: int| 0 <= k < i ==> structs@[k] == spec_place(pre, cv, fm)[k],
                    forall|k: int| i <= k < pre.len() ==> structs@[k] == pre[k],
                decreases n - i,
            {
                let member = names_contain(&cands, vnames[i].as_str());
                proof {
                    assert(vnames@[i as int]@ == pre[i as int].0);
                }
                if member {
                    structs.push_field_at(
                        i,
                        OutputField::new(field.name.clone(), field.ty.clone(), dflt),
                    );
                }
                i += 1;
            }
            proof {
                assert(structs@ =~= spec_place(pre, cv, fm));
            }
            Ok(())
        },
    }
}

/// The registry after every declared field has been resolved and placed, in
/// declaration order — or the first diagnostic raised.
pub open spec fn spec_resolve_fields(
    s: Seq<(Seq<char>, SchemaModel)>,
    fds: Seq<FieldDefModel>,
    base: Seq<char>,
) -> Result<Seq<(Seq<char>, SchemaModel)>, ErrorModel>
    decreases fds.len(),
{
    if fds.len() == 0 {
        Ok(s)
    } else {
        match spec_resolve_fields(s, fds.drop_last(), base) {
            Err(e) => Err(e),
            Ok(s2) => spec_place_field(s2, fds.last(), base),
        }
    }
}

/// Once field resolution has failed, later fields change nothing.
pub proof fn lemma_resolve_fields_err_stable(
    s: Seq<(Seq<char>, SchemaModel)>,
    fds: Seq<FieldDefModel>,
    base: Seq<char>,
    k: int,
)
    requires
        0 <= k <= fds.len(),
        spec_resolve_fields(s, fds.take(k), base) is Err,
    ensures
        spec_resolve_fields(s, fds, base) == spec_resolve_fields(s, fds.take(k), base),
    decreases fds.len() - k,
{
    if k < fds.len() {
        assert(fds.take(k + 1).drop_last() =~= fds.take(k));
        lemma_resolve_fields_err_stable(s, fds, base, k + 1);
    } else {
        assert(fds.take(k) =~= fds);
    }
}

/// Resolve and place every declared field, in declaration order, failing
/// fast on the first invalid directive.
pub fn resolve_fields(structs: OutputStructs, fields: &Vec<FieldDefinition>, base_name: &str) -> (r:
    Result<OutputStructs, Error>)
    requires
        structs.wf(),
    ensures
        match r {
            Ok(out) => out.wf() && spec_resolve_fields(
                structs@,
                fields@.map_values(|f: FieldDefinition| f@),
                base_name@,
            ) == Ok::<_, ErrorModel>(out@),
            Err(e) => spec_resolve_fields(
                structs@,
                fields@.map_values(|f: FieldDefinition| f@),
                base_name@,
            ) == Err::<Seq<(Seq<char>, SchemaModel)>, _>(e@),
        },
{
    let ghost s0 = structs@;
    let ghost fv = fields@.map_values(|f: FieldDefinition| f@);
    let mut out = structs;
    proof {
        assert(fv.take(0) =~= Seq::<FieldDefModel>::empty());
    }
    let mut i: usize = 0;
    while i < fields.len()
        invariant
            0 <= i <= fields.len(),
            s0 == structs@,
            fv == fields@.map_values(|f: FieldDefinition| f@),
            fv.len() == fields@.len(),
            out.wf(),
            spec_resolve_fields(s0, fv.take(i as int), base_name@) == Ok::<_, ErrorModel>(out@),
        decreases fields.len() - i,
    {
        proof {
            assert(fv.take(i + 1).drop_last() =~= fv.take(i as int));
            assert(fv.take(i + 1).last() == fv[i as int]);
            assert(fv[i as int] == fields@[i as int]@);
        }
        match place_field(&mut out, &fields[i], base_name) {
            Ok(_) => {},
            Err(e) => {
                proof {
                    assert(spec_resolve_fields(s0, fv.take(i + 1), base_name@) == Err::<
                        Seq<(Seq<char>, SchemaModel)>,
                        _,
                    >(e@));
                    lemma_resolve_fields_err_stable(s0, fv, base_name@, i + 1);
                }
                return Err(e);
            },
        }
        i += 1;
    }
    proof {
        assert(fv.take(fields@.len() as int) =~= fv);
    }
    Ok(out)
}

} // verus!
