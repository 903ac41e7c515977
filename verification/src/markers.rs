//! Capability markers: for each declared field and each registered variant,
//! a positive marker when the variant has the field and a negated marker
//! when it lacks it. Marker identity derives from the field name under a
//! fixed case transform.

use vstd::prelude::*;
use crate::model::{SchemaModel, fields_contain};
use crate::casing::{pascal_of, pascal_case};
use crate::directives::{FieldDefinition, FieldDefModel};
use crate::registry::OutputStructs;

verus! {

/// A presence or absence assertion for one field on one variant.
#[derive(Clone, PartialEq, Eq, Debug)]
pub struct CapabilityMarker {
    pub field: String,
    pub variant: String,
    pub present: bool,
    pub marker: String,
}

/// Mathematical model of a capability marker.
pub ghost struct MarkerModel {
    pub field: Seq<char>,
    pub variant: Seq<char>,
    pub present: bool,
    pub marker: Seq<char>,
}

impl View for CapabilityMarker {
    type V = MarkerModel;

    open spec fn view(&self) -> MarkerModel {
        MarkerModel {
            field: self.field@,
            variant: self.variant@,
            present: self.present,
            marker: self.marker@,
        }
    }
}

/// The marker of one field on one variant: positive membership yields the
/// `Has` marker, absence the `HasNo` marker.
pub open spec fn spec_marker(fname: Seq<char>, variant: (Seq<char>, SchemaModel)) -> MarkerModel {
    if fields_contain(variant.1.fields, fname) {
        MarkerModel {
            field: fname,
            variant: variant.0,
            present: true,
            marker: "Has"@ + pascal_of(fname),
        }
    } else {
        MarkerModel {
            field: fname,
            variant: variant.0,
            present: false,
            marker: "HasNo"@ + pascal_of(fname),
        }
    }
}

/// The markers of one field across every registered variant, in
/// registration order.
pub open spec fn spec_marker_row(s: Seq<(Seq<char>, SchemaModel)>, fname: Seq<char>) -> Seq<
    MarkerModel,
> {
    Seq::new(s.len(), |v: int| spec_marker(fname, s[v]))
}

/// The markers of every declared field across every registered variant:
/// field-major, in declaration order, then variant order.
pub open spec fn spec_markers(fds: Seq<FieldDefModel>, s: Seq<(Seq<char>, SchemaModel)>) -> Seq<
    MarkerModel,
>
    decreases fds.len(),
{
    if fds.len() == 0 {
        Seq::<MarkerModel>::empty()
    } else {
        spec_markers(fds.drop_last(), s) + spec_marker_row(s, fds.last().name)
    }
}

/// The capability markers of every declared field on every registered
/// variant.
pub fn capability_markers(structs: &OutputStructs, fields: &Vec<FieldDefinition>) -> (r: Vec<
    CapabilityMarker,
>)
    requires
        structs.wf(),
    ensures
        r@.map_values(|m: CapabilityMarker| m@) == spec_markers(
            fields@.map_values(|f: FieldDefinition| f@),
            structs@,
        ),
{
    let ghost sv = structs@;
    let ghost fv = fields@.map_values(|f: FieldDefinition| f@);
    let n = structs.len();
    let mut r: Vec<CapabilityMarker> = Vec::new();
    proof {
        assert(fv.take(0) =~= Seq::<FieldDefModel>::empty());
        assert(r@.map_values(|m: CapabilityMarker| m@) =~= spec_markers(fv.take(0), sv));
    }
    let mut i: usize = 0;
    while i < fields.len()
        invariant
            0 <= i <= fields.len(),
            n == sv.len(),
            sv == structs@,
            structs.wf(),
            fv == fields@.map_values(|f: FieldDefinition| f@),
            fv.len() == fields@.len(),
            r@.map_values(|m: CapabilityMarker| m@) == spec_markers(fv.take(i as int), sv),
        decreases fields.len() - i,
    {
        let p = pascal_case(fields[i].name.as_str());
        let has = String::from_str("Has").concat(p.as_str());
        let has_no = String::from_str("HasNo").concat(p.as_str());
        let ghost fname = fv[i as int].name;
        proof {
            assert(fv[i as int] == fields@[i as int]@);
        }
        let mut v: usize = 0;
        while v < n
            invariant
                0 <= v <= n,
                0 <= i < fv.len(),
                fv == fields@.map_values(|f: FieldDefinition| f@),
                fv.len() == fields@.len(),
                n == sv.len(),
                sv == structs@,
                structs.wf(),
                fname == fv[i as int].name,
                fname == fields@[i as int]@.name,
                has@ == "Has"@ + pascal_of(fname),
                has_no@ == "HasNo"@ + pascal_of(fname),
                r@.map_values(|m: CapabilityMarker| m@) == spec_markers(fv.take(i as int), sv)
                    + spec_marker_row(sv, fname).take(v as int),
            decreases n - v,
        {
            let ghost pre_map = r@.map_values(|m: CapabilityMarker| m@);
            let present = structs.schema_at(v).has_field(fields[i].name.as_str());
            let marker = if present {
                has.clone()
            } else {
                has_no.clone()
            };
            r.push(
                CapabilityMarker {
                    field: fields[i].name.clone(),
                    variant: structs.name_at(v).clone(),
                    present,
                    marker,
                },
            );
            proof {
                assert(r@.last()@ == spec_marker(fname, sv[v as int]));
                assert(r@.map_values(|m: CapabilityMarker| m@) =~= pre_map.push(
                    spec_marker(fname, sv[v as int]),
                ));
                assert(r@.map_values(|m: CapabilityMarker| m@) =~= spec_markers(
                    fv.take(i as int),
                    sv,
                ) + spec_marker_row(sv, fname).take(v + 1));
            }
            v += 1;
        }
        proof {
            assert(fv.take(i + 1).drop_last() =~= fv.take(i as int));
            assert(fv.take(i + 1).last() == fv[i as int]);
            assert(spec_marker_row(sv, fname).take(n as int) =~= spec_marker_row(sv, fname));
            assert(r@.map_values(|m: CapabilityMarker| m@) =~= spec_markers(fv.take(i + 1), sv));
        }
        i += 1;
    }
    proof {
        assert(fv.take(fields@.len() as int) =~= fv);
    }
    r
}

} // verus!
