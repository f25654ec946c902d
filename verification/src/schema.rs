use vstd::prelude::*;
use crate::errors::ShapeError;
use crate::value::DeclaredType;

verus! {

// ---------------------------------------------------------------------------
// Domain type definitions.
// ---------------------------------------------------------------------------

/// One field of a record or of a union variant. A field is either named or
/// positional (`name` is `None`).
pub struct FieldDef {
    pub name: Option<String>,
    pub ty: DeclaredType,
}

/// Mathematical model of a `FieldDef`.
pub struct FieldModel {
    pub name: Option<Seq<char>>,
    pub ty: DeclaredType,
}

impl View for FieldDef {
    type V = FieldModel;

    open spec fn view(&self) -> FieldModel {
        FieldModel {
            name: match self.name {
                Option::Some(s) => Option::Some(s@),
                Option::None => Option::None,
            },
            ty: self.ty,
        }
    }
}

/// The models of a sequence of fields.
pub open spec fn fields_view(s: Seq<FieldDef>) -> Seq<FieldModel> {
    Seq::new(s.len(), |i: int| s[i]@)
}

/// One variant of a tagged union.
pub struct VariantDef {
    pub name: String,
    pub fields: Vec<FieldDef>,
}

/// Mathematical model of a `VariantDef`.
pub struct VariantModel {
    pub name: Seq<char>,
    pub fields: Seq<FieldModel>,
}

impl View for VariantDef {
    type V = VariantModel;

    open spec fn view(&self) -> VariantModel {
        VariantModel { name: self.name@, fields: fields_view(self.fields@) }
    }
}

/// The models of a sequence of variants.
pub open spec fn variants_view(s: Seq<VariantDef>) -> Seq<VariantModel> {
    Seq::new(s.len(), |i: int| s[i]@)
}

/// A domain type definition: an ordered record, a tagged union, or an
/// unsupported shape (such as a raw memory union).
pub enum TypeDef {
    Record(Vec<FieldDef>),
    Union(Vec<VariantDef>),
    Opaque,
}

/// Mathematical model of a `TypeDef`.
pub enum TypeModel {
    Record(Seq<FieldModel>),
    Union(Seq<VariantModel>),
    Opaque,
}

impl View for TypeDef {
    type V = TypeModel;

    open spec fn view(&self) -> TypeModel {
        match self {
            TypeDef::Record(fields) => TypeModel::Record(fields_view(fields@)),
            TypeDef::Union(variants) => TypeModel::Union(variants_view(variants@)),
            TypeDef::Opaque => TypeModel::Opaque,
        }
    }
}

// ---------------------------------------------------------------------------
// Codec target selector.
// ---------------------------------------------------------------------------

/// Which codec target a derivation produces: a row codec for top-level
/// persisted types, or a single-value (cell) codec for nested types.
#[derive(PartialEq, Eq, Structural, Clone, Copy, Debug)]
pub enum Kind {
    Row,
    Value,
}

// ---------------------------------------------------------------------------
// Per-field mapping policies.
// ---------------------------------------------------------------------------

/// How one domain field maps to its shadow slot.
#[derive(PartialEq, Eq, Structural, Clone, Copy, Debug)]
pub enum MappingPolicy {
    /// The declared type is already optional: pass through unchanged.
    Direct,
    /// Wrap the value as present on encode; require it present on decode.
    Wrap,
    /// Like Wrap on encode; an absent slot decodes to an empty list.
    ListDefault,
}

/// The policy a field's declared type induces.
pub open spec fn policy_of(t: DeclaredType) -> MappingPolicy {
    match t {
        DeclaredType::Optional(_) => MappingPolicy::Direct,
        DeclaredType::List(_) => MappingPolicy::ListDefault,
        _ => MappingPolicy::Wrap,
    }
}

/// Runtime policy derivation.
pub fn policy_of_exec(t: &DeclaredType) -> (p: MappingPolicy)
    ensures
        p == policy_of(*t),
{
    if t.is_option() {
        MappingPolicy::Direct
    } else if t.is_vec() {
        MappingPolicy::ListDefault
    } else {
        MappingPolicy::Wrap
    }
}

// ---------------------------------------------------------------------------
// Schema analysis.
// ---------------------------------------------------------------------------

/// The shape class of a domain type, bypass cases included.
#[derive(PartialEq, Eq, Structural, Clone, Copy, Debug)]
pub enum Classification {
    /// A record with exactly one positional field: delegate to the inner
    /// type's own codec; no shadow schema exists.
    NewtypeBypass,
    /// A union whose every variant is fieldless: encode/decode as plain
    /// discriminator text; no shadow schema exists.
    StringEnumBypass,
    /// A record on the generic shadow-mapped path.
    MappedRecord,
    /// A union on the generic shadow-mapped path.
    MappedUnion,
}

/// Whether every variant of a union is fieldless.
pub open spec fn all_fieldless(vs: Seq<VariantModel>) -> bool {
    forall|i: int| 0 <= i < vs.len() ==> (#[trigger] vs[i]).fields.len() == 0
}

/// The classification of a domain type definition.
pub open spec fn classify_spec(d: TypeModel) -> Result<Classification, ShapeError> {
    match d {
        TypeModel::Record(fields) => if fields.len() == 1 && fields[0].name is None {
            Result::Ok(Classification::NewtypeBypass)
        } else {
            Result::Ok(Classification::MappedRecord)
        },
        TypeModel::Union(vs) => if all_fieldless(vs) {
            Result::Ok(Classification::StringEnumBypass)
        } else {
            Result::Ok(Classification::MappedUnion)
        },
        TypeModel::Opaque => Result::Err(ShapeError::UnsupportedShape),
    }
}

/// Classifies a domain type and detects the two bypass special cases.
/// Shapes outside records and tagged unions are rejected at build time.
pub fn classify(d: &TypeDef) -> (r: Result<Classification, ShapeError>)
    ensures
        r == classify_spec(d@),
{
    match d {
        TypeDef::Record(fields) => {
            if fields.len() == 1 && fields[0].name.is_none() {
                proof {
                    assert(fields_view(fields@)[0] == fields@[0]@);
                }
                Result::Ok(Classification::NewtypeBypass)
            } else {
                proof {
                    if fields@.len() == 1 {
                        assert(fields_view(fields@)[0] == fields@[0]@);
                    }
                }
                Result::Ok(Classification::MappedRecord)
            }
        },
        TypeDef::Union(vs) => {
            let mut i: usize = 0;
            let mut fieldless = true;
            while i < vs.len()
                invariant
                    i <= vs.len(),
                    fieldless == forall|j: int|
                        0 <= j < i ==> (#[trigger] variants_view(vs@)[j]).fields.len() == 0,
                decreases vs.len() - i,
            {
                if vs[i].fields.len() != 0 {
                    proof {
                        assert(variants_view(vs@)[i as int] == vs@[i as int]@);
                        assert(variants_view(vs@)[i as int].fields.len() != 0);
                    }
                    fieldless = false;
                }
                proof {
                    assert(variants_view(vs@)[i as int] == vs@[i as int]@);
                }
                i += 1;
            }
            if fieldless {
                Result::Ok(Classification::StringEnumBypass)
            } else {
                Result::Ok(Classification::MappedUnion)
            }
        },
        TypeDef::Opaque => Result::Err(ShapeError::UnsupportedShape),
    }
}

} // verus!
