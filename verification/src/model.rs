//! Core data model: fields and variant schemas, with their mathematical
//! models used throughout the contracts.

use vstd::prelude::*;
use crate::casing::pascal_of;
use crate::casing::pascal_case;

verus! {

/// Mathematical model of one field: its name, its type token, and whether it
/// carries the `Default` directive.
pub ghost struct FieldModel {
    pub name: Seq<char>,
    pub ty: Seq<char>,
    pub default: bool,
}

/// Mathematical model of one variant schema: its struct-level attributes and
/// its ordered member-field list.
#[verifier::ext_equal]
pub ghost struct SchemaModel {
    pub attrs: Seq<Seq<char>>,
    pub fields: Seq<FieldModel>,
}

/// A field as it appears in an output variant.
#[derive(Debug)]
pub struct OutputField {
    pub name: String,
    pub ty: String,
    pub default: bool,
}

impl View for OutputField {
    type V = FieldModel;

    open spec fn view(&self) -> FieldModel {
        FieldModel { name: self.name@, ty: self.ty@, default: self.default }
    }
}

/// One output variant: struct-level attributes (raw attribute text) and the
/// ordered member-field list. The variant's name is held by the registry.
#[derive(Debug)]
pub struct OutputStruct {
    pub attributes: Vec<String>,
    pub fields: Vec<OutputField>,
}

impl View for OutputStruct {
    type V = SchemaModel;

    open spec fn view(&self) -> SchemaModel {
        SchemaModel {
            attrs: self.attributes@.map_values(|a: String| a@),
            fields: self.fields@.map_values(|f: OutputField| f@),
        }
    }
}

/// Whether some field in `fs` is named `n`.
pub open spec fn fields_contain(fs: Seq<FieldModel>, n: Seq<char>) -> bool {
    exists|i: int| 0 <= i < fs.len() && fs[i].name == n
}

/// The index of the field named `n` in `fs`.
pub open spec fn field_index(fs: Seq<FieldModel>, n: Seq<char>) -> int {
    choose|i: int| 0 <= i < fs.len() && fs[i].name == n
}

/// Whether the field names in `fs` are pairwise distinct.
pub open spec fn distinct_field_names(fs: Seq<FieldModel>) -> bool {
    forall|i: int, j: int| 0 <= i < j < fs.len() ==> fs[i].name != fs[j].name
}

/// The fields of `a` that are also members of `b`, by name, in `a`'s order.
pub open spec fn spec_common_fields(a: SchemaModel, b: SchemaModel) -> Seq<FieldModel> {
    a.fields.filter(|f: FieldModel| fields_contain(b.fields, f.name))
}

/// The fields of `a` that are not members of `b`, by name, in `a`'s order.
pub open spec fn spec_missing_fields(a: SchemaModel, b: SchemaModel) -> Seq<FieldModel> {
    a.fields.filter(|f: FieldModel| !fields_contain(b.fields, f.name))
}

/// Relies on str's `PartialEq`: two string slices are equal exactly when
/// their character sequences are equal.
#[verifier::external_body]
pub(crate) fn str_eq(a: &str, b: &str) -> (r: bool)
    ensures
        r == (a@ == b@),
{
    a == b
}

impl OutputField {
    pub fn new(name: String, ty: String, default: bool) -> (r: Self)
        ensures
            r@ == (FieldModel { name: name@, ty: ty@, default }),
    {
        OutputField { name, ty, default }
    }

    /// The field's name.
    pub fn name(&self) -> (r: String)
        ensures
            r@ == self@.name,
    {
        self.name.clone()
    }

    /// The positive capability marker for this field: asserts that a variant
    /// has the field. Derived from the field name under a fixed case
    /// transform.
    pub fn trait_name(&self) -> (r: String)
        ensures
            r@ == "Has"@ + pascal_of(self.name@),
    {
        let p = pascal_case(self.name.as_str());
        String::from_str("Has").concat(p.as_str())
    }

    /// The negated capability marker for this field: asserts that a variant
    /// lacks the field.
    pub fn neg_trait_name(&self) -> (r: String)
        ensures
            r@ == "HasNo"@ + pascal_of(self.name@),
    {
        let p = pascal_case(self.name.as_str());
        String::from_str("HasNo").concat(p.as_str())
    }

}

/// Two fields denote the same member exactly when their names match: type
/// identity is assumed, not checked.
impl PartialEq for OutputField {
    fn eq(&self, other: &Self) -> (r: bool) {
        str_eq(self.name.as_str(), other.name.as_str())
    }
}

impl vstd::std_specs::cmp::PartialEqSpecImpl for OutputField {
    open spec fn obeys_eq_spec() -> bool {
        true
    }

    open spec fn eq_spec(&self, other: &OutputField) -> bool {
        self.name@ == other.name@
    }
}

impl OutputStruct {
    /// An empty schema: no attributes, no member fields.
    pub fn empty() -> (r: Self)
        ensures
            r@ == (SchemaModel { attrs: Seq::<Seq<char>>::empty(), fields: Seq::<FieldModel>::empty() }),
    {
        let r = OutputStruct { attributes: Vec::new(), fields: Vec::new() };
        proof {
            assert(r@ =~~= (SchemaModel {
                attrs: Seq::<Seq<char>>::empty(),
                fields: Seq::<FieldModel>::empty(),
            }));
        }
        r
    }

    /// Whether this schema has a member field named `name`.
    pub fn has_field(&self, name: &str) -> (r: bool)
        ensures
            r == fields_contain(self@.fields, name@),
    {
        let mut i: usize = 0;
        while i < self.fields.len()
            invariant
                0 <= i <= self.fields.len(),
                forall|k: int| 0 <= k < i ==> self@.fields[k].name != name@,
            decreases self.fields.len() - i,
        {
            if str_eq(self.fields[i].name.as_str(), name) {
                assert(self@.fields[i as int].name == name@);
                return true;
            }
            i += 1;
        }
        false
    }

    /// The fields of `self` that are absent from `other`, matched by name, in
    /// `self`'s declaration order.
    pub fn missing_fields_from(&self, other: &Self) -> (r: Vec<OutputField>)
        ensures
            r@.map_values(|f: OutputField| f@) == spec_missing_fields(self@, other@),
    {
        let mut acc: Vec<OutputField> = Vec::new();
        let mut i: usize = 0;
        proof {
            reveal(Seq::filter);
            assert(self@.fields.take(0) =~= Seq::<FieldModel>::empty());
            assert(acc@.map_values(|f: OutputField| f@) =~= self@.fields.take(0).filter(
                |f: FieldModel| !fields_contain(other@.fields, f.name)));
        }
        while i < self.fields.len()
            invariant
                0 <= i <= self.fields.len(),
                acc@.map_values(|f: OutputField| f@) == self@.fields.take(i as int).filter(
                    |f: FieldModel| !fields_contain(other@.fields, f.name)),
            decreases self.fields.len() - i,
        {
            let ghost pred = |f: FieldModel| !fields_contain(other@.fields, f.name);
            let ghost prefix = self@.fields.take(i as int);
            let present = other.has_field(self.fields[i].name.as_str());
            if !present {
                acc.push(self.fields[i].clone_field());
            }
            proof {
                reveal(Seq::filter);
                assert(self@.fields.take(i + 1).drop_last() =~= prefix);
                assert(self@.fields.take(i + 1).last() == self@.fields[i as int]);
                if !pred(self@.fields[i as int]) {
                    assert(acc@.map_values(|f: OutputField| f@) =~= self@.fields.take(
                        i + 1).filter(pred));
                } else {
                    assert(acc@.map_values(|f: OutputField| f@) =~= self@.fields.take(
                        i + 1).filter(pred));
                }
            }
            i += 1;
        }
        proof {
            assert(self@.fields.take(self.fields@.len() as int) =~= self@.fields);
        }
        acc
    }

    /// The fields of `self` that are also present in `other`, matched by
    /// name, in `self`'s declaration order.
    pub fn same_fields_as(&self, other: &Self) -> (r: Vec<OutputField>)
        ensures
            r@.map_values(|f: OutputField| f@) == spec_common_fields(self@, other@),
    {
        let mut acc: Vec<OutputField> = Vec::new();
        let mut i: usize = 0;
        proof {
            reveal(Seq::filter);
            assert(self@.fields.take(0) =~= Seq::<FieldModel>::empty());
            assert(acc@.map_values(|f: OutputField| f@) =~= self@.fields.take(0).filter(
                |f: FieldModel| fields_contain(other@.fields, f.name)));
        }
        while i < self.fields.len()
            invariant
                0 <= i <= self.fields.len(),
                acc@.map_values(|f: OutputField| f@) == self@.fields.take(i as int).filter(
                    |f: FieldModel| fields_contain(other@.fields, f.name)),
            decreases self.fields.len() - i,
        {
            let ghost pred = |f: FieldModel| fields_contain(other@.fields, f.name);
            let ghost prefix = self@.fields.take(i as int);
            let present = other.has_field(self.fields[i].name.as_str());
            if present {
                acc.push(self.fields[i].clone_field());
            }
            proof {
                reveal(Seq::filter);
                assert(self@.fields.take(i + 1).drop_last() =~= prefix);
                assert(self@.fields.take(i + 1).last() == self@.fields[i as int]);
                assert(acc@.map_values(|f: OutputField| f@) =~= self@.fields.take(i + 1).filter(
                    pred));
            }
            i += 1;
        }
        proof {
            assert(self@.fields.take(self.fields@.len() as int) =~= self@.fields);
        }
        acc
    }
}

impl OutputField {
    /// A copy of this field.
    pub fn clone_field(&self) -> (r: Self)
        ensures
            r@ == self@,
    {
        OutputField { name: self.name.clone(), ty: self.ty.clone(), default: self.default }
    }
}

} // verus!
