//! The directive model: structured per-field and per-struct directives, the
//! declared base schema they annotate, and the generation-time error
//! taxonomy.

use vstd::prelude::*;
use crate::model::FieldModel;

verus! {

/// A per-field inclusion directive, applied in encountered order.
#[derive(Clone, Debug)]
pub enum FieldDirective {
    /// Replace the candidate variant set with exactly these variants.
    OnlyIn(Vec<String>),
    /// Remove these variants from the candidate set.
    NotIn(Vec<String>),
    /// Mark the field as defaultable; the candidate set is unaffected.
    Default,
    /// Restrict the candidate set to the base schema's own variant.
    OnlyInSelf,
}

/// Mathematical model of a per-field directive.
pub ghost enum DirectiveModel {
    OnlyIn(Seq<Seq<char>>),
    NotIn(Seq<Seq<char>>),
    Default,
    OnlyInSelf,
}

impl View for FieldDirective {
    type V = DirectiveModel;

    open spec fn view(&self) -> DirectiveModel {
        match self {
            FieldDirective::OnlyIn(v) => DirectiveModel::OnlyIn(v@.map_values(|s: String| s@)),
            FieldDirective::NotIn(v) => DirectiveModel::NotIn(v@.map_values(|s: String| s@)),
            FieldDirective::Default => DirectiveModel::Default,
            FieldDirective::OnlyInSelf => DirectiveModel::OnlyInSelf,
        }
    }
}

/// The kind of directive that produced a diagnostic.
#[derive(Clone, Copy, PartialEq, Eq, Structural, Debug)]
pub enum DirectiveKind {
    OnlyIn,
    NotIn,
    OnlyInSelf,
    AttrFor,
}

/// A struct-level directive: attach `attribute` (raw attribute text) to the
/// declaration of the variant named `target_struct`.
pub struct AttrFor {
    pub target_struct: String,
    pub attribute: String,
}

/// Mathematical model of a struct-level attribute directive.
pub ghost struct AttrForModel {
    pub target_struct: Seq<char>,
    pub attribute: Seq<char>,
}

impl View for AttrFor {
    type V = AttrForModel;

    open spec fn view(&self) -> AttrForModel {
        AttrForModel { target_struct: self.target_struct@, attribute: self.attribute@ }
    }
}

/// One declared field of the base schema: name, type token, and its
/// directives in encountered order.
pub struct FieldDefinition {
    pub name: String,
    pub ty: String,
    pub directives: Vec<FieldDirective>,
}

/// Mathematical model of a declared field.
pub ghost struct FieldDefModel {
    pub name: Seq<char>,
    pub ty: Seq<char>,
    pub directives: Seq<DirectiveModel>,
}

impl View for FieldDefinition {
    type V = FieldDefModel;

    open spec fn view(&self) -> FieldDefModel {
        FieldDefModel {
            name: self.name@,
            ty: self.ty@,
            directives: self.directives@.map_values(|d: FieldDirective| d@),
        }
    }
}

/// Whether the declared field carries the `Default` directive.
pub open spec fn spec_has_default(ds: Seq<DirectiveModel>) -> bool {
    exists|i: int| 0 <= i < ds.len() && ds[i] is Default
}

/// The output-field model that a declared field resolves to.
pub open spec fn spec_field_of(fd: FieldDefModel) -> FieldModel {
    FieldModel { name: fd.name, ty: fd.ty, default: spec_has_default(fd.directives) }
}

/// A generation-time diagnostic. All failures are fatal for the invocation.
#[derive(Clone, PartialEq, Eq, Debug)]
pub enum Error {
    /// A directive referenced a variant name that was never registered.
    UnknownVariant { variant: String, directive: DirectiveKind, field: Option<String> },
    /// The requested variant-name list repeated a name (or repeated the base
    /// schema's own name).
    DuplicateVariant { variant: String },
}

/// Mathematical model of a diagnostic.
pub ghost enum ErrorModel {
    UnknownVariant { variant: Seq<char>, directive: DirectiveKind, field: Option<Seq<char>> },
    DuplicateVariant { variant: Seq<char> },
}

impl View for Error {
    type V = ErrorModel;

    open spec fn view(&self) -> ErrorModel {
        match self {
            Error::UnknownVariant { variant, directive, field } => ErrorModel::UnknownVariant {
                variant: variant@,
                directive: *directive,
                field: match field {
                    Some(f) => Some(f@),
                    None => None,
                },
            },
            Error::DuplicateVariant { variant } => ErrorModel::DuplicateVariant {
                variant: variant@,
            },
        }
    }
}

impl Error {
    /// A readable rendering of the diagnostic, with the offending names.
    pub fn describe(&self) -> (r: String)
        ensures
            match self@ {
                ErrorModel::UnknownVariant { variant, .. } => r@ == "unknown variant `"@
                    + variant + "`"@,
                ErrorModel::DuplicateVariant { variant } => r@ == "duplicate variant `"@
                    + variant + "`"@,
            },
    {
        match self {
            Error::UnknownVariant { variant, .. } => String::from_str("unknown variant `")
                .concat(variant.as_str()).concat("`"),
            Error::DuplicateVariant { variant } => String::from_str("duplicate variant `")
                .concat(variant.as_str()).concat("`"),
        }
    }
}

} // verus!
