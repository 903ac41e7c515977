//! The variant derivation engine: one invocation takes the annotated base
//! schema, the struct-level directives and the requested variant names, and
//! produces the registry of variant schemas, the capability markers and the
//! conversion descriptors — or the first diagnostic, failing fast.

use vstd::prelude::*;
use crate::model::SchemaModel;
use crate::directives::{FieldDefinition, FieldDefModel, AttrFor, AttrForModel, Error, ErrorModel};
use crate::registry::{OutputStructs, spec_initialize, spec_apply_attrs};
use crate::placement::{resolve_fields, spec_resolve_fields};
use crate::markers::{CapabilityMarker, MarkerModel, capability_markers, spec_markers};
use crate::synthesis::{ConversionDescriptor, DescriptorModel, synthesize_all, spec_all_descriptors};

verus! {

/// The annotated base schema of one invocation: its name, its own
/// struct-level attributes, and its declared fields with their directives.
pub struct BaseSchema {
    pub name: String,
    pub attrs: Vec<String>,
    pub fields: Vec<FieldDefinition>,
}

/// Mathematical model of the base schema.
pub ghost struct BaseModel {
    pub name: Seq<char>,
    pub attrs: Seq<Seq<char>>,
    pub fields: Seq<FieldDefModel>,
}

impl View for BaseSchema {
    type V = BaseModel;

    open spec fn view(&self) -> BaseModel {
        BaseModel {
            name: self.name@,
            attrs: self.attrs@.map_values(|a: String| a@),
            fields: self.fields@.map_values(|f: FieldDefinition| f@),
        }
    }
}

/// Everything one invocation generates: the registry of variant schemas,
/// the capability markers, and the conversion descriptors.
#[derive(Debug)]
pub struct GeneratedFamily {
    pub structs: OutputStructs,
    pub markers: Vec<CapabilityMarker>,
    pub conversions: Vec<ConversionDescriptor>,
}

/// Mathematical model of a generated family.
#[verifier::ext_equal]
pub ghost struct FamilyModel {
    pub schemas: Seq<(Seq<char>, SchemaModel)>,
    pub markers: Seq<MarkerModel>,
    pub conversions: Seq<DescriptorModel>,
}

impl View for GeneratedFamily {
    type V = FamilyModel;

    open spec fn view(&self) -> FamilyModel {
        FamilyModel {
            schemas: self.structs@,
            markers: self.markers@.map_values(|m: CapabilityMarker| m@),
            conversions: self.conversions@.map_values(|d: ConversionDescriptor| d@),
        }
    }
}

/// The whole derivation: seed the registry with the base schema and the
/// requested mates, attach the struct-level attributes, resolve and place
/// every declared field, then read off the capability markers and the
/// conversion descriptors of the finished registry.
pub open spec fn spec_boilermates(
    base: BaseModel,
    struct_attrs: Seq<AttrForModel>,
    mates: Seq<Seq<char>>,
) -> Result<FamilyModel, ErrorModel> {
    match spec_initialize(base.name, base.attrs, mates) {
        Err(e) => Err(e),
        Ok(s0) => match spec_apply_attrs(s0, struct_attrs) {
            Err(e) => Err(e),
            Ok(s1) => match spec_resolve_fields(s1, base.fields, base.name) {
                Err(e) => Err(e),
                Ok(s2) => Ok(
                    FamilyModel {
                        schemas: s2,
                        markers: spec_markers(base.fields, s2),
                        conversions: spec_all_descriptors(s2),
                    },
                ),
            },
        },
    }
}

/// Derive the variant family of one annotated base schema. Pure and
/// deterministic: identical input gives an identical family, in identical
/// order. Fails fast on the first invalid directive.
pub fn boilermates(base: BaseSchema, struct_attrs: &Vec<AttrFor>, mates: &Vec<String>) -> (r:
    Result<GeneratedFamily, Error>)
    ensures
        match r {
            Ok(fam) => fam.structs.wf() && spec_boilermates(
                base@,
                struct_attrs@.map_values(|a: AttrFor| a@),
                mates@.map_values(|m: String| m@),
            ) == Ok::<_, ErrorModel>(fam@),
            Err(e) => spec_boilermates(
                base@,
                struct_attrs@.map_values(|a: AttrFor| a@),
                mates@.map_values(|m: String| m@),
            ) == Err::<FamilyModel, _>(e@),
        },
{
    let ghost bm = base@;
    let BaseSchema { name, attrs, fields } = base;
    let base_name = name.clone();
    let seeded = match OutputStructs::initialize(name, attrs, mates) {
        Ok(s) => s,
        Err(e) => {
            return Err(e);
        },
    };
    let attributed = match seeded.apply_struct_attributes(struct_attrs) {
        Ok(s) => s,
        Err(e) => {
            return Err(e);
        },
    };
    let resolved = match resolve_fields(attributed, &fields, base_name.as_str()) {
        Ok(s) => s,
        Err(e) => {
            return Err(e);
        },
    };
    let markers = capability_markers(&resolved, &fields);
    let conversions = synthesize_all(&resolved);
    let fam = GeneratedFamily { structs: resolved, markers, conversions };
    proof {
        assert(fam@ =~~= (FamilyModel {
            schemas: fam.structs@,
            markers: spec_markers(bm.fields, fam.structs@),
            conversions: spec_all_descriptors(fam.structs@),
        }));
    }
    Ok(fam)
}

} // verus!
