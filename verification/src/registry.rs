//! The schema registry: an insertion-ordered collection of named variant
//! schemas. Names are kept unique; iteration order is first-registration
//! order, so output is deterministic. Lookup goes through an
//! insertion-ordered index (an `IndexMap` from variant name to position).

use vstd::prelude::*;
use indexmap::IndexMap;
use crate::model::{OutputStruct, OutputField, SchemaModel, FieldModel};
use crate::directives::{Error, ErrorModel, DirectiveKind, AttrFor, AttrForModel};

verus! {

#[verifier::external_type_specification]
#[verifier::external_body]
#[verifier::reject_recursive_types(K)]
#[verifier::reject_recursive_types(V)]
#[verifier::reject_recursive_types(S)]
pub struct ExIndexMap<K, V, S>(IndexMap<K, V, S>);

/// What the name index holds: its key-value entries, in insertion order.
pub uninterp spec fn index_entries(m: IndexMap<String, usize>) -> Seq<(Seq<char>, usize)>;

/// Whether some entry of `es` has key `k`.
pub open spec fn entries_contain(es: Seq<(Seq<char>, usize)>, k: Seq<char>) -> bool {
    exists|i: int| 0 <= i < es.len() && es[i].0 == k
}

/// Relies on indexmap's `IndexMap::new`: creates an empty map.
#[verifier::external_body]
fn imap_new() -> (m: IndexMap<String, usize>)
    ensures
        index_entries(m) == Seq::<(Seq<char>, usize)>::empty(),
{
    IndexMap::new()
}

/// Relies on indexmap's `IndexMap::insert`: a key equivalent to an existing
/// one keeps its place in the order and has its value updated, returning the
/// older value; a new key is appended last in order, returning `None`.
#[verifier::external_body]
fn imap_insert(m: &mut IndexMap<String, usize>, k: String, v: usize) -> (r: Option<usize>)
    ensures
        ({
            let es = index_entries(*old(m));
            let es2 = index_entries(*final(m));
            if entries_contain(es, k@) {
                exists|i: int|
                    0 <= i < es.len() && es[i].0 == k@ && es2 == es.update(i, (k@, v)) && r
                        == Some(es[i].1)
            } else {
                es2 == es.push((k@, v)) && r is None
            }
        }),
{
    m.insert(k, v)
}

/// Relies on indexmap's `IndexMap::get`: returns the value stored under an
/// equivalent key, or `None` when no such key is in the map.
#[verifier::external_body]
fn imap_get(m: &IndexMap<String, usize>, k: &str) -> (r: Option<usize>)
    ensures
        ({
            let es = index_entries(*m);
            match r {
                Some(v) => exists|i: int| 0 <= i < es.len() && es[i].0 == k@ && es[i].1 == v,
                None => !entries_contain(es, k@),
            }
        }),
{
    m.get(k).copied()
}

/// An empty variant schema.
pub open spec fn empty_schema() -> SchemaModel {
    SchemaModel { attrs: Seq::<Seq<char>>::empty(), fields: Seq::<FieldModel>::empty() }
}

/// Whether the registry view `s` holds a variant named `n`.
pub open spec fn has_variant(s: Seq<(Seq<char>, SchemaModel)>, n: Seq<char>) -> bool {
    exists|i: int| 0 <= i < s.len() && s[i].0 == n
}

/// The position of the variant named `n` in the registry view `s`.
pub open spec fn variant_index(s: Seq<(Seq<char>, SchemaModel)>, n: Seq<char>) -> int {
    choose|i: int| 0 <= i < s.len() && s[i].0 == n
}

/// Whether the variant names in `s` are pairwise distinct.
pub open spec fn distinct_variant_names(s: Seq<(Seq<char>, SchemaModel)>) -> bool {
    forall|i: int, j: int| 0 <= i < j < s.len() ==> s[i].0 != s[j].0
}

/// The registry view after pushing attribute text `a` onto the variant named
/// `n` (which must be present).
pub open spec fn spec_attach(
    s: Seq<(Seq<char>, SchemaModel)>,
    n: Seq<char>,
    a: Seq<char>,
) -> Seq<(Seq<char>, SchemaModel)> {
    let i = variant_index(s, n);
    s.update(i, (n, SchemaModel { attrs: s[i].1.attrs.push(a), fields: s[i].1.fields }))
}

/// The registry seeded for one invocation: the base schema first, with its
/// own attributes, then one empty schema per requested mate name, in order —
/// or the first duplicated name.
pub open spec fn spec_register_names(
    s: Seq<(Seq<char>, SchemaModel)>,
    names: Seq<Seq<char>>,
) -> Result<Seq<(Seq<char>, SchemaModel)>, ErrorModel>
    decreases names.len(),
{
    if names.len() == 0 {
        Ok(s)
    } else {
        match spec_register_names(s, names.drop_last()) {
            Err(e) => Err(e),
            Ok(s2) => if has_variant(s2, names.last()) {
                Err(ErrorModel::DuplicateVariant { variant: names.last() })
            } else {
                Ok(s2.push((names.last(), empty_schema())))
            },
        }
    }
}

/// The registry contents that `initialize` produces.
pub open spec fn spec_initialize(
    base: Seq<char>,
    base_attrs: Seq<Seq<char>>,
    mates: Seq<Seq<char>>,
) -> Result<Seq<(Seq<char>, SchemaModel)>, ErrorModel> {
    spec_register_names(
        seq![(base, SchemaModel { attrs: base_attrs, fields: Seq::<FieldModel>::empty() })],
        mates,
    )
}

/// Once seeding has failed, no further names change the outcome.
pub proof fn lemma_register_names_err_stable(
    s: Seq<(Seq<char>, SchemaModel)>,
    names: Seq<Seq<char>>,
    k: int,
)
    requires
        0 <= k <= names.len(),
        spec_register_names(s, names.take(k)) is Err,
    ensures
        spec_register_names(s, names) == spec_register_names(s, names.take(k)),
    decreases names.len() - k,
{
    if k < names.len() {
        assert(names.take(k + 1).drop_last() =~= names.take(k));
        lemma_register_names_err_stable(s, names, k + 1);
    } else {
        assert(names.take(k) =~= names);
    }
}

/// The registry after every struct-level directive has been applied, in
/// order — or the first `UnknownVariant` diagnostic among them.
pub open spec fn spec_apply_attrs(
    s: Seq<(Seq<char>, SchemaModel)>,
    attrs: Seq<AttrForModel>,
) -> Result<Seq<(Seq<char>, SchemaModel)>, ErrorModel>
    decreases attrs.len(),
{
    if attrs.len() == 0 {
        Ok(s)
    } else {
        match spec_apply_attrs(s, attrs.drop_last()) {
            Err(e) => Err(e),
            Ok(s2) => if has_variant(s2, attrs.last().target_struct) {
                Ok(spec_attach(s2, attrs.last().target_struct, attrs.last().attribute))
            } else {
                Err(
                    ErrorModel::UnknownVariant {
                        variant: attrs.last().target_struct,
                        directive: DirectiveKind::AttrFor,
                        field: None,
                    },
                )
            },
        }
    }
}

/// Once attribute application has failed, later directives change nothing.
pub proof fn lemma_apply_attrs_err_stable(
    s: Seq<(Seq<char>, SchemaModel)>,
    attrs: Seq<AttrForModel>,
    k: int,
)
    requires
        0 <= k <= attrs.len(),
        spec_apply_attrs(s, attrs.take(k)) is Err,
    ensures
        spec_apply_attrs(s, attrs) == spec_apply_attrs(s, attrs.take(k)),
    decreases attrs.len() - k,
{
    if k < attrs.len() {
        assert(attrs.take(k + 1).drop_last() =~= attrs.take(k));
        lemma_apply_attrs_err_stable(s, attrs, k + 1);
    } else {
        assert(attrs.take(k) =~= attrs);
    }
}

/// The ordered collection of named output schemas.
#[derive(Debug)]
pub struct OutputStructs {
    names: Vec<String>,
    schemas: Vec<OutputStruct>,
    index: IndexMap<String, usize>,
}

impl View for OutputStructs {
    type V = Seq<(Seq<char>, SchemaModel)>;

    closed spec fn view(&self) -> Seq<(Seq<char>, SchemaModel)> {
        Seq::new(self.names@.len(), |i: int| (self.names@[i]@, self.schemas@[i]@))
    }
}

/// A mutable reference to one element of a vector.
fn vec_index_mut<T>(v: &mut Vec<T>, i: usize) -> (element: &mut T)
    requires
        i < old(v).len(),
    ensures
        *element == old(v)@[i as int],
        final(v)@ == old(v)@.update(i as int, *final(element)),
{
    &mut v[i]
}

impl OutputStructs {
    /// Internal consistency: one schema per name, the index maps each name to
    /// its position, and names are unique.
    pub closed spec fn wf(&self) -> bool {
        &&& self.names@.len() == self.schemas@.len()
        &&& index_entries(self.index) == Seq::new(
            self.names@.len(),
            |i: int| (self.names@[i]@, i as usize),
        )
        &&& forall|i: int, j: int|
            0 <= i < j < self.names@.len() ==> self.names@[i]@ != self.names@[j]@
    }

    /// Registered variant names are pairwise distinct.
    pub proof fn lemma_wf_distinct(&self)
        requires
            self.wf(),
        ensures
            distinct_variant_names(self@),
    {
    }

    /// An empty registry.
    pub fn new() -> (r: Self)
        ensures
            r.wf(),
            r@ == Seq::<(Seq<char>, SchemaModel)>::empty(),
    {
        let r = OutputStructs { names: Vec::new(), schemas: Vec::new(), index: imap_new() };
        proof {
            assert(index_entries(r.index) =~= Seq::new(
                r.names@.len(),
                |i: int| (r.names@[i]@, i as usize),
            ));
            assert(r@ =~= Seq::<(Seq<char>, SchemaModel)>::empty());
        }
        r
    }

    /// The name of the variant at position `i`.
    pub fn name_at(&self, i: usize) -> (r: &String)
        requires
            self.wf(),
            i < self@.len(),
        ensures
            r@ == self@[i as int].0,
    {
        &self.names[i]
    }

    /// The schema of the variant at position `i`.
    pub fn schema_at(&self, i: usize) -> (r: &OutputStruct)
        requires
            self.wf(),
            i < self@.len(),
        ensures
            r@ == self@[i as int].1,
    {
        &self.schemas[i]
    }

    /// The number of registered variants.
    pub fn len(&self) -> (r: usize)
        ensures
            r == self@.len(),
    {
        self.names.len()
    }

    /// Whether a variant named `name` is registered.
    pub fn contains(&self, name: &str) -> (r: bool)
        requires
            self.wf(),
        ensures
            r == has_variant(self@, name@),
    {
        let ghost es = index_entries(self.index);
        match imap_get(&self.index, name) {
            Some(v) => {
                proof {
                    assert(forall|i: int|
                        0 <= i < self@.len() ==> #[trigger] self@[i].0 == es[i].0);
                    let j = choose|j: int| 0 <= j < es.len() && es[j].0 == name@ && es[j].1 == v;
                    assert(self@[j].0 == name@);
                }
                true
            },
            None => {
                proof {
                    if has_variant(self@, name@) {
                        let j = choose|j: int| 0 <= j < self@.len() && self@[j].0 == name@;
                        assert(es[j] == (self.names@[j]@, j as usize));
                        assert(es[j].0 == name@);
                        assert(entries_contain(es, name@));
                    }
                }
                false
            },
        }
    }

    /// Append a schema under a not-yet-registered name.
    fn insert_schema(&mut self, name: String, schema: OutputStruct)
        requires
            old(self).wf(),
            !has_variant(old(self)@, name@),
        ensures
            final(self).wf(),
            final(self)@ == old(self)@.push((name@, schema@)),
    {
        let ghost es = index_entries(self.index);
        let idx = self.schemas.len();
        proof {
            assert(forall|i: int|
                0 <= i < old(self)@.len() ==> #[trigger] old(self)@[i].0 == es[i].0);
            assert forall|i: int| 0 <= i < old(self).names@.len() implies old(
                self,
            ).names@[i]@ != name@ by {
                if old(self).names@[i]@ == name@ {
                    assert(old(self)@[i].0 == name@);
                    assert(has_variant(old(self)@, name@));
                }
            }
            assert(!entries_contain(es, name@));
        }
        imap_insert(&mut self.index, name.clone(), idx);
        self.names.push(name);
        self.schemas.push(schema);
        proof {
            assert(index_entries(self.index) =~= Seq::new(
                self.names@.len(),
                |i: int| (self.names@[i]@, i as usize),
            ));
            assert(final(self)@ =~= old(self)@.push((name@, final(self).schemas@.last()@)));
        }
    }

    /// Insert an empty schema under `name` if absent; idempotent.
    pub fn register(&mut self, name: String)
        requires
            old(self).wf(),
        ensures
            final(self).wf(),
            has_variant(old(self)@, name@) ==> final(self)@ == old(self)@,
            !has_variant(old(self)@, name@) ==> final(self)@ == old(self)@.push(
                (name@, empty_schema()),
            ),
    {
        if !self.contains(name.as_str()) {
            self.insert_schema(name, OutputStruct::empty());
        }
    }

    /// All registered names, in first-registration order.
    pub fn names(&self) -> (r: Vec<String>)
        ensures
            r@.len() == self@.len(),
            forall|i: int| 0 <= i < r@.len() ==> r@[i]@ == self@[i].0,
    {
        let mut r: Vec<String> = Vec::new();
        let mut i: usize = 0;
        while i < self.names.len()
            invariant
                0 <= i <= self.names@.len(),
                self.names@.len() == self@.len(),
                r@.len() == i,
                forall|k: int| 0 <= k < i ==> r@[k]@ == self@[k].0,
            decreases self.names@.len() - i,
        {
            r.push(self.names[i].clone());
            i += 1;
        }
        r
    }

    /// The schema registered under `name`, if any.
    pub fn get(&self, name: &str) -> (r: Option<&OutputStruct>)
        requires
            self.wf(),
        ensures
            match r {
                Some(s) => has_variant(self@, name@) && s@ == self@[variant_index(
                    self@,
                    name@,
                )].1,
                None => !has_variant(self@, name@),
            },
    {
        let n = self.names.len();
        let found = imap_get(&self.index, name);
        match found {
            Some(i) => {
                proof {
                    let es = index_entries(self.index);
                    let j = choose|j: int| 0 <= j < es.len() && es[j].0 == name@ && es[j].1 == i;
                    assert(0 <= j < n);
                    assert(es[j] == (self.names@[j]@, j as usize));
                    assert(self@[j].0 == name@);
                    assert(has_variant(self@, name@));
                    let k = variant_index(self@, name@);
                    assert(self@[k].0 == name@);
                    assert(k == j);
                    assert(i as int == j);
                }
                Some(&self.schemas[i])
            },
            None => {
                proof {
                    let es = index_entries(self.index);
                    assert(forall|i: int|
                        0 <= i < self@.len() ==> #[trigger] self@[i].0 == es[i].0);
                }
                None
            },
        }
    }

    /// A mutable borrow of the schema registered under `name`, if any.
    pub fn get_mut(&mut self, name: &str) -> (r: Option<&mut OutputStruct>)
        requires
            old(self).wf(),
        ensures
            match r {
                Some(s) => {
                    &&& has_variant(old(self)@, name@)
                    &&& (*s)@ == old(self)@[variant_index(old(self)@, name@)].1
                    &&& final(self)@ =~= old(self)@.update(
                        variant_index(old(self)@, name@),
                        (name@, (*final(s))@),
                    )
                    &&& final(self).wf()
                },
                None => {
                    &&& !has_variant(old(self)@, name@)
                    &&& final(self)@ == old(self)@
                    &&& final(self).wf()
                },
            },
    {
        let n = self.names.len();
        let found = imap_get(&self.index, name);
        match found {
            Some(i) => {
                proof {
                    let es = index_entries(self.index);
                    let j = choose|j: int| 0 <= j < es.len() && es[j].0 == name@ && es[j].1 == i;
                    assert(0 <= j < n);
                    assert(es[j] == (old(self).names@[j]@, j as usize));
                    assert(old(self)@[j].0 == name@);
                    assert(has_variant(old(self)@, name@));
                    let k = variant_index(old(self)@, name@);
                    assert(old(self)@[k].0 == name@);
                    assert(k == j);
                    assert(i as int == j);
                }
                let s = vec_index_mut(&mut self.schemas, i);
                Some(s)
            },
            None => {
                proof {
                    let es = index_entries(self.index);
                    assert(forall|i: int|
                        0 <= i < old(self)@.len() ==> #[trigger] old(self)@[i].0 == es[i].0);
                }
                None
            },
        }
    }

    /// Append field `f` to the member list of the schema at position `i`.
    pub fn push_field_at(&mut self, i: usize, f: OutputField)
        requires
            old(self).wf(),
            i < old(self)@.len(),
        ensures
            final(self).wf(),
            final(self)@ == old(self)@.update(
                i as int,
                (
                    old(self)@[i as int].0,
                    SchemaModel {
                        attrs: old(self)@[i as int].1.attrs,
                        fields: old(self)@[i as int].1.fields.push(f@),
                    },
                ),
            ),
    {
        let ghost pre = self@;
        let ghost fv = f@;
        let s = vec_index_mut(&mut self.schemas, i);
        let ghost sv = (*s)@;
        s.fields.push(f);
        proof {
            assert((*final(s))@ =~~= (SchemaModel { attrs: sv.attrs, fields: sv.fields.push(fv) }));
        }
        proof {
            assert(self@ =~= pre.update(
                i as int,
                (pre[i as int].0, SchemaModel {
                    attrs: pre[i as int].1.attrs,
                    fields: pre[i as int].1.fields.push(fv),
                }),
            ));
        }
    }

    /// Seed the registry for one invocation: the base schema, carrying the
    /// base declaration's own attributes, then one empty schema per requested
    /// mate name. A repeated name (including a repeat of the base name) is
    /// rejected with `DuplicateVariant`.
    pub fn initialize(base_name: String, base_attrs: Vec<String>, mates: &Vec<String>) -> (r:
        Result<OutputStructs, Error>)
        ensures
            match r {
                Ok(out) => out.wf() && spec_initialize(
                    base_name@,
                    base_attrs@.map_values(|a: String| a@),
                    mates@.map_values(|m: String| m@),
                ) == Ok::<_, ErrorModel>(out@),
                Err(e) => spec_initialize(
                    base_name@,
                    base_attrs@.map_values(|a: String| a@),
                    mates@.map_values(|m: String| m@),
                ) == Err::<Seq<(Seq<char>, SchemaModel)>, _>(e@),
            },
    {
        let ghost mv = mates@.map_values(|m: String| m@);
        let mut out = OutputStructs::new();
        out.insert_schema(base_name, OutputStruct { attributes: base_attrs, fields: Vec::new() });
        let ghost s0 = out@;
        proof {
            assert(s0 =~~= seq![
                (
                    base_name@,
                    SchemaModel {
                        attrs: base_attrs@.map_values(|a: String| a@),
                        fields: Seq::<FieldModel>::empty(),
                    },
                ),
            ]);
            assert(mv.take(0) =~= Seq::<Seq<char>>::empty());
        }
        let mut i: usize = 0;
        while i < mates.len()
            invariant
                0 <= i <= mates.len(),
                mv.len() == mates@.len(),
                mv == mates@.map_values(|m: String| m@),
                s0 == seq![
                    (
                        base_name@,
                        SchemaModel {
                            attrs: base_attrs@.map_values(|a: String| a@),
                            fields: Seq::<FieldModel>::empty(),
                        },
                    ),
                ],
                out.wf(),
                spec_register_names(s0, mv.take(i as int)) == Ok::<_, ErrorModel>(out@),
            decreases mates.len() - i,
        {
            let ghost pre = out@;
            let name = mates[i].clone();
            proof {
                assert(mv.take(i + 1).drop_last() =~= mv.take(i as int));
                assert(mv.take(i + 1).last() == mv[i as int]);
                assert(name@ == mv[i as int]);
            }
            if out.contains(name.as_str()) {
                proof {
                    assert(spec_register_names(s0, mv.take(i + 1)) == Err::<
                        Seq<(Seq<char>, SchemaModel)>,
                        _,
                    >(ErrorModel::DuplicateVariant { variant: name@ }));
                    lemma_register_names_err_stable(s0, mv, i + 1);
                }
                return Err(Error::DuplicateVariant { variant: name });
            }
            out.insert_schema(name, OutputStruct::empty());
            i += 1;
        }
        proof {
            assert(mv.take(mates@.len() as int) =~= mv);
        }
        Ok(out)
    }

    /// Apply every struct-level `AttrFor` directive, in order, failing fast
    /// on the first directive whose target was never registered.
    pub fn apply_struct_attributes(self, attrs: &Vec<AttrFor>) -> (r: Result<
        OutputStructs,
        Error,
    >)
        requires
            self.wf(),
        ensures
            match r {
                Ok(out) => out.wf() && spec_apply_attrs(
                    self@,
                    attrs@.map_values(|a: AttrFor| a@),
                ) == Ok::<_, ErrorModel>(out@),
                Err(e) => spec_apply_attrs(self@, attrs@.map_values(|a: AttrFor| a@)) == Err::<
                    Seq<(Seq<char>, SchemaModel)>,
                    _,
                >(e@),
            },
    {
        let ghost s0 = self@;
        let ghost av = attrs@.map_values(|a: AttrFor| a@);
        let mut out = self;
        proof {
            assert(av.take(0) =~= Seq::<AttrForModel>::empty());
        }
        let mut i: usize = 0;
        while i < attrs.len()
            invariant
                0 <= i <= attrs.len(),
                av.len() == attrs@.len(),
                av == attrs@.map_values(|a: AttrFor| a@),
                s0 == self@,
                out.wf(),
                spec_apply_attrs(s0, av.take(i as int)) == Ok::<_, ErrorModel>(out@),
            decreases attrs.len() - i,
        {
            proof {
                assert(av.take(i + 1).drop_last() =~= av.take(i as int));
                assert(av.take(i + 1).last() == av[i as int]);
                assert(av[i as int] == attrs@[i as int]@);
            }
            let target = attrs[i].target_struct.clone();
            let attr_text = attrs[i].attribute.clone();
            match out.attach_attribute(target.as_str(), attr_text) {
                Ok(_) => {},
                Err(e) => {
                    proof {
                        assert(spec_apply_attrs(s0, av.take(i + 1)) == Err::<
                            Seq<(Seq<char>, SchemaModel)>,
                            _,
                        >(e@));
                        lemma_apply_attrs_err_stable(s0, av, i + 1);
                    }
                    return Err(e);
                },
            }
            i += 1;
        }
        proof {
            assert(av.take(attrs@.len() as int) =~= av);
        }
        Ok(out)
    }

    /// Attach struct-level attribute text to the variant named `name`.
    /// Fails with `UnknownVariant` when `name` was never registered.
    pub fn attach_attribute(&mut self, name: &str, attr: String) -> (r: Result<(), Error>)
        requires
            old(self).wf(),
        ensures
            final(self).wf(),
            match r {
                Ok(_) => has_variant(old(self)@, name@) && final(self)@ == spec_attach(
                    old(self)@,
                    name@,
                    attr@,
                ),
                Err(e) => {
                    &&& !has_variant(old(self)@, name@)
                    &&& final(self)@ == old(self)@
                    &&& e@ == (ErrorModel::UnknownVariant {
                        variant: name@,
                        directive: DirectiveKind::AttrFor,
                        field: None,
                    })
                },
            },
    {
        let ghost pre = self@;
        let ghost av = attr@;
        let found = self.get_mut(name);
        let r = match found {
            Some(s) => {
                let ghost sv = (*s)@;
                s.attributes.push(attr);
                proof {
                    assert((*final(s))@ =~~= (SchemaModel {
                        attrs: sv.attrs.push(av),
                        fields: sv.fields,
                    }));
                }
                Ok(())
            },
            None => Err(
                Error::UnknownVariant {
                    variant: name.to_owned(),
                    directive: DirectiveKind::AttrFor,
                    field: None,
                },
            ),
        };
        proof {
            if r is Ok {
                assert(self@ =~= spec_attach(pre, name@, av));
            }
        }
        r
    }
}

} // verus!
