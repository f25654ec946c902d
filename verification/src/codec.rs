use vstd::prelude::*;
use crate::errors::{DecodeErrModel, DecodeError, ShapeError, TypeCheckError};
use crate::schema::{Classification, Kind, TypeDef, TypeModel, classify, classify_spec};
use crate::shadow::{
    ShadowSchema, ShadowModel, record_schema_ok, synthesize_record, synthesize_union,
    union_schema_ok,
};
use crate::text::{push_char, push_str, snake_case, snake_of, str_eq};
use crate::value::{DeclaredType, Value, ValModel, val_model, value_fits, value_fits_exec, ty_clone, ty_eq};

verus! {

// ---------------------------------------------------------------------------
// Wire-declared types.
// ---------------------------------------------------------------------------

/// One named, typed wire column.
#[derive(Debug)]
pub struct ColumnSpec {
    pub name: String,
    pub ty: DeclaredType,
}

/// Mathematical model of a `ColumnSpec`.
pub struct ColumnModel {
    pub name: Seq<char>,
    pub ty: DeclaredType,
}

impl View for ColumnSpec {
    type V = ColumnModel;

    open spec fn view(&self) -> ColumnModel {
        ColumnModel { name: self.name@, ty: self.ty }
    }
}

/// The models of a sequence of columns.
pub open spec fn cols_view(s: Seq<ColumnSpec>) -> Seq<ColumnModel> {
    Seq::new(s.len(), |i: int| s[i]@)
}

/// The wire-declared type of one cell: a plain column type, or a
/// user-defined type with one field per shadow slot.
pub enum CellType {
    Plain(DeclaredType),
    Udt(Vec<ColumnSpec>),
}

/// Mathematical model of a `CellType`.
pub enum CellTypeModel {
    Plain(DeclaredType),
    Udt(Seq<ColumnModel>),
}

impl View for CellType {
    type V = CellTypeModel;

    open spec fn view(&self) -> CellTypeModel {
        match self {
            CellType::Plain(t) => CellTypeModel::Plain(*t),
            CellType::Udt(cols) => CellTypeModel::Udt(cols_view(cols@)),
        }
    }
}

// ---------------------------------------------------------------------------
// Encoded cells and domain values.
// ---------------------------------------------------------------------------

/// An encoded cell: a plain wire value, or a shadow instance standing for a
/// mapped domain value.
#[derive(Debug)]
pub enum EncodedCell {
    Plain(Value),
    Mapped(crate::mapper::ShadowInstance),
}

/// Mathematical model of an `EncodedCell`.
pub enum EncodedCellModel {
    Plain(ValModel),
    Mapped(crate::mapper::InstanceModel),
}

impl View for EncodedCell {
    type V = EncodedCellModel;

    open spec fn view(&self) -> EncodedCellModel {
        match self {
            EncodedCell::Plain(v) => EncodedCellModel::Plain(val_model(*v)),
            EncodedCell::Mapped(inst) => EncodedCellModel::Mapped(inst@),
        }
    }
}

/// The model of an optional encoded cell.
pub open spec fn enc_cell_model(c: Option<EncodedCell>) -> Option<EncodedCellModel> {
    match c {
        Option::Some(x) => Option::Some(x@),
        Option::None => Option::None,
    }
}

/// A domain instance handed to a codec: a record's field values, or a union
/// variant with its field values.
#[derive(Debug)]
pub enum DomainValue {
    Record(Vec<Value>),
    Variant(usize, Vec<Value>),
}

/// Mathematical model of a `DomainValue`.
pub enum DomainModel {
    Record(Seq<ValModel>),
    Variant(int, Seq<ValModel>),
}

impl View for DomainValue {
    type V = DomainModel;

    open spec fn view(&self) -> DomainModel {
        match self {
            DomainValue::Record(vals) => DomainModel::Record(crate::value::vals_view(vals@)),
            DomainValue::Variant(i, vals) => DomainModel::Variant(
                *i as int,
                crate::value::vals_view(vals@),
            ),
        }
    }
}

// ---------------------------------------------------------------------------
// The base cell codec of plain declared types (what a nested inner type's
// own codec does on the wire).
// ---------------------------------------------------------------------------

/// The wire cell a plain value encodes to: an optional value encodes to its
/// content or to the absent cell; anything else is written as-is.
pub open spec fn encode_value_spec(v: ValModel) -> Option<ValModel> {
    match v {
        ValModel::Opt(o) => match o {
            Option::Some(b) => Option::Some(*b),
            Option::None => Option::None,
        },
        _ => Option::Some(v),
    }
}

/// Encodes one plain value as a wire cell.
pub fn encode_value(v: &Value) -> (c: Option<Value>)
    ensures
        crate::mapper::cell_model(c) == encode_value_spec(val_model(*v)),
{
    match v {
        Value::Opt(o) => match o {
            Option::Some(b) => Option::Some(crate::mapper::clone_value(b)),
            Option::None => Option::None,
        },
        other => Option::Some(crate::mapper::clone_value(other)),
    }
}

/// The plain value a wire cell decodes to under a declared type: an absent
/// cell is allowed only for optional types; a present value must conform to
/// the declared type.
pub open spec fn decode_value_spec(t: DeclaredType, c: Option<ValModel>) -> Result<
    ValModel,
    DecodeErrModel,
> {
    match t {
        DeclaredType::Optional(inner) => match c {
            Option::None => Result::Ok(ValModel::Opt(Option::None)),
            Option::Some(v) => if value_fits(v, *inner) {
                Result::Ok(ValModel::Opt(Option::Some(Box::new(v))))
            } else {
                Result::Err(DecodeErrModel::WireShape)
            },
        },
        _ => match c {
            Option::None => Result::Err(DecodeErrModel::UnexpectedNull),
            Option::Some(v) => if value_fits(v, t) {
                Result::Ok(v)
            } else {
                Result::Err(DecodeErrModel::WireShape)
            },
        },
    }
}

/// The model of a plain-value decode result.
pub open spec fn val_result_model(r: Result<Value, DecodeError>) -> Result<
    ValModel,
    DecodeErrModel,
> {
    match r {
        Result::Ok(v) => Result::Ok(val_model(v)),
        Result::Err(e) => Result::Err(e@),
    }
}

/// Decodes one wire cell as a plain value of the declared type.
pub fn decode_value(t: &DeclaredType, c: Option<Value>) -> (r: Result<Value, DecodeError>)
    ensures
        val_result_model(r) == decode_value_spec(*t, crate::mapper::cell_model(c)),
{
    match t {
        DeclaredType::Optional(inner) => match c {
            Option::None => Result::Ok(Value::Opt(Option::None)),
            Option::Some(v) => {
                if value_fits_exec(&v, inner) {
                    Result::Ok(Value::Opt(Option::Some(Box::new(v))))
                } else {
                    Result::Err(DecodeError::WireShape)
                }
            },
        },
        _ => match c {
            Option::None => Result::Err(DecodeError::UnexpectedNull),
            Option::Some(v) => {
                if value_fits_exec(&v, t) {
                    Result::Ok(v)
                } else {
                    Result::Err(DecodeError::WireShape)
                }
            },
        },
    }
}

// ---------------------------------------------------------------------------
// Cell codec bindings.
// ---------------------------------------------------------------------------

/// The cell codec bound to one domain type.
#[derive(Debug)]
pub enum CellBinding {
    /// A one-positional-field record: delegate to the inner type's codec;
    /// no shadow record is ever constructed.
    Newtype(DeclaredType),
    /// A fieldless-variants-only union: plain discriminator text; the tags
    /// stand in variant order.
    StringEnum(Vec<String>),
    /// A generic record, mapped through its shadow schema.
    MappedRecord(ShadowSchema),
    /// A generic union, mapped through its shadow schema.
    MappedUnion(ShadowSchema),
}

/// Mathematical model of a `CellBinding`.
pub enum CellBindingModel {
    Newtype(DeclaredType),
    StringEnum(Seq<Seq<char>>),
    MappedRecord(ShadowModel),
    MappedUnion(ShadowModel),
}

/// The views of a sequence of strings.
pub open spec fn strs_view(s: Seq<String>) -> Seq<Seq<char>> {
    Seq::new(s.len(), |i: int| s[i]@)
}

impl View for CellBinding {
    type V = CellBindingModel;

    open spec fn view(&self) -> CellBindingModel {
        match self {
            CellBinding::Newtype(t) => CellBindingModel::Newtype(*t),
            CellBinding::StringEnum(tags) => CellBindingModel::StringEnum(strs_view(tags@)),
            CellBinding::MappedRecord(s) => CellBindingModel::MappedRecord(s@),
            CellBinding::MappedUnion(s) => CellBindingModel::MappedUnion(s@),
        }
    }
}

/// Whether a cell binding is the one derived for a domain type definition.
pub open spec fn cell_binding_ok(b: CellBindingModel, d: TypeModel) -> bool {
    match classify_spec(d) {
        Result::Err(_) => false,
        Result::Ok(c) => match c {
            Classification::NewtypeBypass => b matches CellBindingModel::Newtype(t) && d matches
                TypeModel::Record(fields) && t == fields[0].ty,
            Classification::StringEnumBypass => b matches CellBindingModel::StringEnum(tags)
                && d matches TypeModel::Union(vs) && tags.len() == vs.len() && forall|i: int|
                0 <= i < vs.len() ==> tags[i] == snake_of(#[trigger] vs[i].name),
            Classification::MappedRecord => b matches CellBindingModel::MappedRecord(s) && d matches
                TypeModel::Record(fields) && record_schema_ok(s, fields),
            Classification::MappedUnion => b matches CellBindingModel::MappedUnion(s) && d matches
                TypeModel::Union(vs) && union_schema_ok(s, vs),
        },
    }
}

/// Derives the cell (single-value) codec binding of a domain type, bypass
/// cases included. Shapes outside records and tagged unions are rejected.
pub fn map_to_type(def: &TypeDef) -> (r: Result<CellBinding, ShapeError>)
    ensures
        r is Ok <==> !(def@ is Opaque),
        r matches Result::Ok(b) ==> cell_binding_ok(b@, def@),
        r matches Result::Err(e) ==> e == ShapeError::UnsupportedShape,
{
    let c = match classify(def) {
        Result::Ok(c) => c,
        Result::Err(e) => {
            return Result::Err(e);
        },
    };
    match c {
        Classification::NewtypeBypass => {
            match def {
                TypeDef::Record(fields) => {
                    proof {
                        assert(crate::schema::fields_view(fields@)[0] == fields@[0]@);
                    }
                    Result::Ok(CellBinding::Newtype(ty_clone(&fields[0].ty)))
                },
                _ => {
                    proof {
                        assert(false);
                    }
                    Result::Err(ShapeError::UnsupportedShape)
                },
            }
        },
        Classification::StringEnumBypass => {
            match def {
                TypeDef::Union(vs) => {
                    let mut tags: Vec<String> = Vec::new();
                    let mut i: usize = 0;
                    while i < vs.len()
                        invariant
                            i <= vs.len(),
                            tags@.len() == i,
                            forall|j: int|
                                0 <= j < i ==> strs_view(tags@)[j] == snake_of(
                                    #[trigger] crate::schema::variants_view(vs@)[j].name,
                                ),
                        decreases vs.len() - i,
                    {
                        let ghost pre = tags@;
                        tags.push(snake_case(vs[i].name.as_str()));
                        proof {
                            assert forall|j: int| 0 <= j < i + 1 implies strs_view(tags@)[j]
                                == snake_of(
                                #[trigger] crate::schema::variants_view(vs@)[j].name,
                            ) by {
                                if j < i {
                                    assert(strs_view(pre)[j] == snake_of(
                                        crate::schema::variants_view(vs@)[j].name,
                                    ));
                                    assert(tags@[j] == pre[j]);
                                } else {
                                    assert(tags@[j] == tags@.last());
                                    assert(crate::schema::variants_view(vs@)[j] == vs@[j]@);
                                }
                            }
                        }
                        i += 1;
                    }
                    Result::Ok(CellBinding::StringEnum(tags))
                },
                _ => {
                    proof {
                        assert(false);
                    }
                    Result::Err(ShapeError::UnsupportedShape)
                },
            }
        },
        Classification::MappedRecord => {
            match def {
                TypeDef::Record(fields) => Result::Ok(
                    CellBinding::MappedRecord(synthesize_record(fields)),
                ),
                _ => {
                    proof {
                        assert(false);
                    }
                    Result::Err(ShapeError::UnsupportedShape)
                },
            }
        },
        Classification::MappedUnion => {
            match def {
                TypeDef::Union(vs) => Result::Ok(CellBinding::MappedUnion(synthesize_union(vs))),
                _ => {
                    proof {
                        assert(false);
                    }
                    Result::Err(ShapeError::UnsupportedShape)
                },
            }
        },
    }
}

// ---------------------------------------------------------------------------
// Row codec bindings.
// ---------------------------------------------------------------------------

/// The row codec bound to one top-level domain type. Only shadow-mapped
/// shapes have a row form; the bypass shapes do not describe a row.
pub struct RowBinding {
    pub schema: ShadowSchema,
    pub is_union: bool,
}

/// Mathematical model of a `RowBinding`.
pub struct RowBindingModel {
    pub schema: ShadowModel,
    pub is_union: bool,
}

impl View for RowBinding {
    type V = RowBindingModel;

    open spec fn view(&self) -> RowBindingModel {
        RowBindingModel { schema: self.schema@, is_union: self.is_union }
    }
}

/// A usable row binding: the discriminator exists exactly for unions, and a
/// union's variant ranges lie inside its slot table.
pub open spec fn row_binding_wf(b: RowBindingModel) -> bool {
    &&& b.is_union == b.schema.has_discriminator
    &&& (b.is_union ==> crate::shadow::ranges_wf(b.schema))
}

/// Whether a row binding is the one derived for a domain type definition.
pub open spec fn row_binding_ok(b: RowBindingModel, d: TypeModel) -> bool {
    match classify_spec(d) {
        Result::Err(_) => false,
        Result::Ok(c) => match c {
            Classification::MappedRecord => !b.is_union && (d matches TypeModel::Record(fields)
                && record_schema_ok(b.schema, fields)),
            Classification::MappedUnion => b.is_union && (d matches TypeModel::Union(vs)
                && union_schema_ok(b.schema, vs)),
            _ => false,
        },
    }
}

/// Derives the row codec binding of a top-level domain type. Only the
/// generic shadow-mapped shapes describe a row; bypass shapes and shapes
/// outside records and tagged unions are rejected.
pub fn map_to_row(def: &TypeDef) -> (r: Result<RowBinding, ShapeError>)
    ensures
        r is Ok <==> (classify_spec(def@) matches Result::Ok(c) && (c is MappedRecord
            || c is MappedUnion)),
        r matches Result::Ok(b) ==> row_binding_ok(b@, def@),
        r matches Result::Ok(b) ==> row_binding_wf(b@),
        r matches Result::Err(e) ==> e == ShapeError::UnsupportedShape,
{
    let c = match classify(def) {
        Result::Ok(c) => c,
        Result::Err(e) => {
            return Result::Err(e);
        },
    };
    match c {
        Classification::MappedRecord => {
            match def {
                TypeDef::Record(fields) => Result::Ok(
                    RowBinding { schema: synthesize_record(fields), is_union: false },
                ),
                _ => {
                    proof {
                        assert(false);
                    }
                    Result::Err(ShapeError::UnsupportedShape)
                },
            }
        },
        Classification::MappedUnion => {
            match def {
                TypeDef::Union(vs) => Result::Ok(
                    RowBinding { schema: synthesize_union(vs), is_union: true },
                ),
                _ => {
                    proof {
                        assert(false);
                    }
                    Result::Err(ShapeError::UnsupportedShape)
                },
            }
        },
        _ => Result::Err(ShapeError::UnsupportedShape),
    }
}

/// A derived mapping: a cell codec binding or a row codec binding.
pub enum Mapping {
    Cell(CellBinding),
    Row(RowBinding),
}

/// Derives the mapping of a domain type for the requested codec target.
pub fn derive_mapping(def: &TypeDef, kind: Kind) -> (r: Result<Mapping, ShapeError>)
    ensures
        kind == Kind::Value ==> (r matches Result::Ok(m) ==> (m matches Mapping::Cell(b)
            && cell_binding_ok(b@, def@))),
        kind == Kind::Value ==> (r is Ok <==> !(def@ is Opaque)),
        kind == Kind::Row ==> (r matches Result::Ok(m) ==> (m matches Mapping::Row(b)
            && row_binding_ok(b@, def@))),
        kind == Kind::Row ==> (r is Ok <==> (classify_spec(def@) matches Result::Ok(c) && (
        c is MappedRecord || c is MappedUnion))),
        r matches Result::Err(e) ==> e == ShapeError::UnsupportedShape,
{
    match kind {
        Kind::Value => match map_to_type(def) {
            Result::Ok(b) => Result::Ok(Mapping::Cell(b)),
            Result::Err(e) => Result::Err(e),
        },
        Kind::Row => match map_to_row(def) {
            Result::Ok(b) => Result::Ok(Mapping::Row(b)),
            Result::Err(e) => Result::Err(e),
        },
    }
}


// ---------------------------------------------------------------------------
// Cell type checking.
// ---------------------------------------------------------------------------

/// The wire columns of a shadow schema: the discriminator first (for
/// unions), then one column per slot, in slot order.
pub open spec fn shadow_columns(s: ShadowModel) -> Seq<ColumnModel> {
    (if s.has_discriminator {
        seq![ColumnModel { name: "kind"@, ty: DeclaredType::Text }]
    } else {
        Seq::empty()
    }) + Seq::new(s.slots.len(), |i: int| ColumnModel { name: s.slots[i].ident, ty: s.slots[i].ty })
}

/// Builds the wire column list of a shadow schema.
pub fn shadow_columns_exec(schema: &ShadowSchema) -> (r: Vec<ColumnSpec>)
    ensures
        cols_view(r@) == shadow_columns(schema@),
{
    let ghost target = shadow_columns(schema@);
    let mut out: Vec<ColumnSpec> = Vec::new();
    let mut base: usize = 0;
    if schema.has_discriminator {
        let mut kind_name = String::new();
        push_str(&mut kind_name, "kind");
        out.push(ColumnSpec { name: kind_name, ty: DeclaredType::Text });
        base = 1;
    }
    proof {
        assert(target.len() == base + schema@.slots.len());
        assert forall|k: int| 0 <= k < out@.len() implies cols_view(out@)[k] == target[k] by {}
    }
    let n = schema.slots.len();
    let mut i: usize = 0;
    while i < n
        invariant
            i <= n,
            n == schema@.slots.len(),
            base <= 1,
            target == shadow_columns(schema@),
            target.len() == base + n,
            out@.len() == base + i,
            forall|k: int| 0 <= k < base + i ==> cols_view(out@)[k] == target[k],
        decreases n - i,
    {
        let ghost pre = out@;
        out.push(
            ColumnSpec { name: schema.slots[i].ident.clone(), ty: ty_clone(&schema.slots[i].ty) },
        );
        proof {
            assert forall|k: int| 0 <= k < base + i + 1 implies cols_view(out@)[k] == target[k] by {
                if k < base + i {
                    assert(cols_view(pre)[k] == target[k]);
                    assert(out@[k] == pre[k]);
                } else {
                    assert(out@[k] == out@.last());
                    assert(schema@.slots[i as int] == schema.slots@[i as int]@);
                }
            }
        }
        i += 1;
    }
    proof {
        assert(cols_view(out@) =~= target);
    }
    out
}

/// Column-for-column equality of two wire column lists.
pub fn cols_eq(a: &Vec<ColumnSpec>, b: &Vec<ColumnSpec>) -> (r: bool)
    ensures
        r == (cols_view(a@) == cols_view(b@)),
{
    if a.len() != b.len() {
        proof {
            assert(cols_view(a@).len() == a@.len());
            assert(cols_view(b@).len() == b@.len());
        }
        return false;
    }
    let n = a.len();
    let mut i: usize = 0;
    while i < n
        invariant
            i <= n,
            n == a@.len(),
            n == b@.len(),
            forall|k: int| 0 <= k < i ==> cols_view(a@)[k] == cols_view(b@)[k],
        decreases n - i,
    {
        if !str_eq(a[i].name.as_str(), b[i].name.as_str()) {
            proof {
                assert(cols_view(a@)[i as int] == a@[i as int]@);
                assert(cols_view(b@)[i as int] == b@[i as int]@);
            }
            return false;
        }
        if !ty_eq(&a[i].ty, &b[i].ty) {
            proof {
                assert(cols_view(a@)[i as int] == a@[i as int]@);
                assert(cols_view(b@)[i as int] == b@[i as int]@);
            }
            return false;
        }
        i += 1;
    }
    proof {
        assert(cols_view(a@) =~= cols_view(b@));
    }
    true
}

/// Whether a wire-declared cell type matches the shape a binding expects:
/// the inner type itself for the newtype bypass, text for the enumeration
/// bypass, and the shadow's column set for the mapped shapes.
pub open spec fn cell_check_spec(b: CellBindingModel, wire: CellTypeModel) -> bool {
    match b {
        CellBindingModel::Newtype(t) => wire == CellTypeModel::Plain(t),
        CellBindingModel::StringEnum(_) => wire == CellTypeModel::Plain(DeclaredType::Text),
        CellBindingModel::MappedRecord(s) => wire == CellTypeModel::Udt(shadow_columns(s)),
        CellBindingModel::MappedUnion(s) => wire == CellTypeModel::Udt(shadow_columns(s)),
    }
}

/// Validates the wire-declared type against the expected shape. A failure
/// here is terminal for the call; decode is never attempted after it.
pub fn cell_type_check(b: &CellBinding, wire: &CellType) -> (r: Result<(), TypeCheckError>)
    ensures
        r is Ok <==> cell_check_spec(b@, wire@),
{
    let ok = match b {
        CellBinding::Newtype(t) => match wire {
            CellType::Plain(w) => ty_eq(w, t),
            _ => false,
        },
        CellBinding::StringEnum(_) => match wire {
            CellType::Plain(w) => matches!(w, DeclaredType::Text),
            _ => false,
        },
        CellBinding::MappedRecord(s) => match wire {
            CellType::Udt(cols) => {
                let expected = shadow_columns_exec(s);
                cols_eq(cols, &expected)
            },
            _ => false,
        },
        CellBinding::MappedUnion(s) => match wire {
            CellType::Udt(cols) => {
                let expected = shadow_columns_exec(s);
                cols_eq(cols, &expected)
            },
            _ => false,
        },
    };
    if ok {
        Result::Ok(())
    } else {
        Result::Err(TypeCheckError)
    }
}

// ---------------------------------------------------------------------------
// Cell encoding.
// ---------------------------------------------------------------------------

/// Whether a domain instance is well-typed for a binding: the right shape,
/// with one value per slot of the shape.
pub open spec fn binding_accepts(b: CellBindingModel, v: DomainModel) -> bool {
    match b {
        CellBindingModel::Newtype(_) => v matches DomainModel::Record(vals) && vals.len() == 1,
        CellBindingModel::StringEnum(tags) => v matches DomainModel::Variant(i, vals) && 0 <= i
            < tags.len() && vals.len() == 0,
        CellBindingModel::MappedRecord(s) => v matches DomainModel::Record(vals) && vals.len()
            == s.slots.len(),
        CellBindingModel::MappedUnion(s) => v matches DomainModel::Variant(i, vals) && 0 <= i
            < s.variants.len() && vals.len() == s.variants[i].count && crate::shadow::ranges_wf(s),
    }
}

/// The cell a well-typed domain instance encodes to. Encoding never fails:
/// every well-typed domain value has a representable cell.
pub open spec fn encode_cell_spec(b: CellBindingModel, v: DomainModel) -> Option<EncodedCellModel> {
    match b {
        CellBindingModel::Newtype(_) => match encode_value_spec(v->Record_0[0]) {
            Option::Some(w) => Option::Some(EncodedCellModel::Plain(w)),
            Option::None => Option::None,
        },
        CellBindingModel::StringEnum(tags) => Option::Some(
            EncodedCellModel::Plain(ValModel::Text(tags[v->Variant_0])),
        ),
        CellBindingModel::MappedRecord(s) => Option::Some(
            EncodedCellModel::Mapped(crate::mapper::forward_record_spec(s, v->Record_0)),
        ),
        CellBindingModel::MappedUnion(s) => Option::Some(
            EncodedCellModel::Mapped(
                crate::mapper::forward_union_spec(s, v->Variant_0, v->Variant_1),
            ),
        ),
    }
}

/// Encodes a domain instance as one cell: the newtype bypass delegates to
/// the inner type's codec, the enumeration bypass writes the tag as text,
/// and the mapped shapes forward-map through the shadow schema.
pub fn encode_cell(b: &CellBinding, v: &DomainValue) -> (c: Option<EncodedCell>)
    requires
        binding_accepts(b@, v@),
    ensures
        enc_cell_model(c) == encode_cell_spec(b@, v@),
{
    match b {
        CellBinding::Newtype(_) => match v {
            DomainValue::Record(vals) => {
                proof {
                    crate::value::lemma_vals_view(vals@);
                }
                match encode_value(&vals[0]) {
                    Option::Some(w) => Option::Some(EncodedCell::Plain(w)),
                    Option::None => Option::None,
                }
            },
            _ => {
                proof {
                    assert(false);
                }
                Option::None
            },
        },
        CellBinding::StringEnum(tags) => match v {
            DomainValue::Variant(i, _) => {
                proof {
                    assert(strs_view(tags@)[*i as int] == tags@[*i as int]@);
                }
                Option::Some(EncodedCell::Plain(Value::Text(tags[*i].clone())))
            },
            _ => {
                proof {
                    assert(false);
                }
                Option::None
            },
        },
        CellBinding::MappedRecord(schema) => match v {
            DomainValue::Record(vals) => {
                proof {
                    crate::value::lemma_vals_view(vals@);
                }
                Option::Some(EncodedCell::Mapped(crate::mapper::forward_record(schema, vals)))
            },
            _ => {
                proof {
                    assert(false);
                }
                Option::None
            },
        },
        CellBinding::MappedUnion(schema) => match v {
            DomainValue::Variant(i, vals) => {
                proof {
                    crate::value::lemma_vals_view(vals@);
                }
                Option::Some(EncodedCell::Mapped(crate::mapper::forward_union(schema, *i, vals)))
            },
            _ => {
                proof {
                    assert(false);
                }
                Option::None
            },
        },
    }
}

// ---------------------------------------------------------------------------
// Cell decoding.
// ---------------------------------------------------------------------------

/// The first tag equal to the given text, searching from index `i`.
pub open spec fn tag_index(tags: Seq<Seq<char>>, s: Seq<char>, i: int) -> Option<int>
    decreases tags.len() - i,
{
    if i < 0 || i >= tags.len() {
        Option::None
    } else if tags[i] == s {
        Option::Some(i)
    } else {
        tag_index(tags, s, i + 1)
    }
}

/// The model of a cell decode result.
pub open spec fn domain_result_model(r: Result<DomainValue, DecodeError>) -> Result<
    DomainModel,
    DecodeErrModel,
> {
    match r {
        Result::Ok(v) => Result::Ok(v@),
        Result::Err(e) => Result::Err(e@),
    }
}

/// The domain instance a wire cell decodes to: after the type check, the
/// newtype bypass delegates to the inner type's codec, the enumeration
/// bypass exact-matches the text against the tags (an unknown text fails as
/// text parsing does), and the mapped shapes reverse-map the shadow.
pub open spec fn decode_cell_spec(
    b: CellBindingModel,
    wire: CellTypeModel,
    c: Option<EncodedCellModel>,
) -> Result<DomainModel, DecodeErrModel> {
    if !cell_check_spec(b, wire) {
        Result::Err(DecodeErrModel::TypeCheck)
    } else {
        match b {
            CellBindingModel::Newtype(t) => match c {
                Option::Some(EncodedCellModel::Mapped(_)) => Result::Err(DecodeErrModel::WireShape),
                Option::Some(EncodedCellModel::Plain(v)) => match decode_value_spec(
                    t,
                    Option::Some(v),
                ) {
                    Result::Ok(w) => Result::Ok(DomainModel::Record(seq![w])),
                    Result::Err(e) => Result::Err(e),
                },
                Option::None => match decode_value_spec(t, Option::None) {
                    Result::Ok(w) => Result::Ok(DomainModel::Record(seq![w])),
                    Result::Err(e) => Result::Err(e),
                },
            },
            CellBindingModel::StringEnum(tags) => match c {
                Option::Some(EncodedCellModel::Plain(v)) => match v {
                    ValModel::Text(s) => match tag_index(tags, s, 0) {
                        Option::Some(i) => Result::Ok(DomainModel::Variant(i, Seq::empty())),
                        Option::None => Result::Err(DecodeErrModel::Parse(s)),
                    },
                    _ => Result::Err(DecodeErrModel::WireShape),
                },
                Option::Some(EncodedCellModel::Mapped(_)) => Result::Err(DecodeErrModel::WireShape),
                Option::None => Result::Err(DecodeErrModel::UnexpectedNull),
            },
            CellBindingModel::MappedRecord(s) => match c {
                Option::Some(EncodedCellModel::Mapped(inst)) => if inst.slots.len()
                    == s.slots.len() {
                    match crate::mapper::reverse_slots(s.slots, inst.slots) {
                        Result::Ok(vals) => Result::Ok(DomainModel::Record(vals)),
                        Result::Err(e) => Result::Err(DecodeErrModel::Mapping(e)),
                    }
                } else {
                    Result::Err(DecodeErrModel::WireShape)
                },
                Option::Some(EncodedCellModel::Plain(_)) => Result::Err(DecodeErrModel::WireShape),
                Option::None => Result::Err(DecodeErrModel::UnexpectedNull),
            },
            CellBindingModel::MappedUnion(s) => match c {
                Option::Some(EncodedCellModel::Mapped(inst)) => if inst.slots.len()
                    == s.slots.len() {
                    match crate::mapper::reverse_union_spec(s, inst) {
                        Result::Ok(pair) => Result::Ok(DomainModel::Variant(pair.0, pair.1)),
                        Result::Err(e) => Result::Err(DecodeErrModel::Mapping(e)),
                    }
                } else {
                    Result::Err(DecodeErrModel::WireShape)
                },
                Option::Some(EncodedCellModel::Plain(_)) => Result::Err(DecodeErrModel::WireShape),
                Option::None => Result::Err(DecodeErrModel::UnexpectedNull),
            },
        }
    }
}

/// Decodes one wire cell into a domain instance. The type check runs first
/// and short-circuits the decode on failure.
pub fn decode_cell(b: &CellBinding, wire: &CellType, c: Option<EncodedCell>) -> (r: Result<
    DomainValue,
    DecodeError,
>)
    requires
        b@ matches CellBindingModel::MappedUnion(s) ==> crate::shadow::ranges_wf(s),
    ensures
        domain_result_model(r) == decode_cell_spec(b@, wire@, enc_cell_model(c)),
{
    match cell_type_check(b, wire) {
        Result::Err(_) => {
            return Result::Err(DecodeError::TypeCheck);
        },
        Result::Ok(_) => {},
    }
    match b {
        CellBinding::Newtype(t) => {
            let plain = match c {
                Option::Some(EncodedCell::Mapped(_)) => {
                    return Result::Err(DecodeError::WireShape);
                },
                Option::Some(EncodedCell::Plain(v)) => Option::Some(v),
                Option::None => Option::None,
            };
            match decode_value(t, plain) {
                Result::Ok(w) => {
                    let mut vals: Vec<Value> = Vec::new();
                    vals.push(w);
                    proof {
                        crate::value::lemma_vals_view(vals@);
                        assert(crate::value::vals_view(vals@) =~= seq![val_model(vals@[0])]);
                    }
                    Result::Ok(DomainValue::Record(vals))
                },
                Result::Err(e) => Result::Err(e),
            }
        },
        CellBinding::StringEnum(tags) => match c {
            Option::Some(EncodedCell::Plain(v)) => match v {
                Value::Text(s) => {
                    let n = tags.len();
                    let mut i: usize = 0;
                    while i < n
                        invariant
                            i <= n,
                            n == tags@.len(),
                            cell_check_spec(b@, wire@),
                            b@ == CellBindingModel::StringEnum(strs_view(tags@)),
                            enc_cell_model(c) == Option::Some(
                                EncodedCellModel::Plain(ValModel::Text(s@)),
                            ),
                            tag_index(strs_view(tags@), s@, 0) == tag_index(
                                strs_view(tags@),
                                s@,
                                i as int,
                            ),
                        decreases n - i,
                    {
                        if str_eq(s.as_str(), tags[i].as_str()) {
                            let mut vals: Vec<Value> = Vec::new();
                            proof {
                                assert(strs_view(tags@)[i as int] == tags@[i as int]@);
                                assert(crate::value::vals_view(vals@) =~= Seq::<ValModel>::empty());
                            }
                            return Result::Ok(DomainValue::Variant(i, vals));
                        }
                        proof {
                            assert(strs_view(tags@)[i as int] == tags@[i as int]@);
                        }
                        i += 1;
                    }
                    Result::Err(DecodeError::Parse(s))
                },
                _ => Result::Err(DecodeError::WireShape),
            },
            Option::Some(EncodedCell::Mapped(_)) => Result::Err(DecodeError::WireShape),
            Option::None => Result::Err(DecodeError::UnexpectedNull),
        },
        CellBinding::MappedRecord(schema) => match c {
            Option::Some(EncodedCell::Mapped(inst)) => {
                if inst.slots.len() == schema.slots.len() {
                    match crate::mapper::reverse_record(schema, &inst) {
                        Result::Ok(vals) => Result::Ok(DomainValue::Record(vals)),
                        Result::Err(e) => Result::Err(DecodeError::Mapping(e)),
                    }
                } else {
                    Result::Err(DecodeError::WireShape)
                }
            },
            Option::Some(EncodedCell::Plain(_)) => Result::Err(DecodeError::WireShape),
            Option::None => Result::Err(DecodeError::UnexpectedNull),
        },
        CellBinding::MappedUnion(schema) => match c {
            Option::Some(EncodedCell::Mapped(inst)) => {
                if inst.slots.len() == schema.slots.len() {
                    match crate::mapper::reverse_union(schema, &inst) {
                        Result::Ok(vv) => Result::Ok(DomainValue::Variant(vv.variant, vv.values)),
                        Result::Err(e) => Result::Err(DecodeError::Mapping(e)),
                    }
                } else {
                    Result::Err(DecodeError::WireShape)
                }
            },
            Option::Some(EncodedCell::Plain(_)) => Result::Err(DecodeError::WireShape),
            Option::None => Result::Err(DecodeError::UnexpectedNull),
        },
    }
}


// ---------------------------------------------------------------------------
// Row codec.
// ---------------------------------------------------------------------------

/// A copy of one optional cell.
pub fn clone_cell(c: &Option<Value>) -> (r: Option<Value>)
    ensures
        crate::mapper::cell_model(r) == crate::mapper::cell_model(*c),
{
    match c {
        Option::Some(v) => Option::Some(crate::mapper::clone_value(v)),
        Option::None => Option::None,
    }
}

/// The models of an encoded row's named cells.
pub open spec fn row_view(s: Seq<(String, Option<Value>)>) -> Seq<(Seq<char>, Option<ValModel>)> {
    Seq::new(s.len(), |i: int| (s[i].0@, crate::mapper::cell_model(s[i].1)))
}

/// The ordered named cells a shadow instance writes as a row: the
/// discriminator cell first (for unions), then one named cell per slot.
pub open spec fn row_of_instance(
    s: ShadowModel,
    inst: crate::mapper::InstanceModel,
) -> Seq<(Seq<char>, Option<ValModel>)> {
    (if s.has_discriminator {
        seq![("kind"@, Option::Some(ValModel::Text(inst.kind)))]
    } else {
        Seq::empty()
    }) + Seq::new(s.slots.len(), |i: int| (s.slots[i].ident, inst.slots[i]))
}

/// Whether a domain instance is well-typed for a row binding.
pub open spec fn row_accepts(b: RowBindingModel, v: DomainModel) -> bool {
    if b.is_union {
        v matches DomainModel::Variant(i, vals) && 0 <= i < b.schema.variants.len() && vals.len()
            == b.schema.variants[i].count && crate::shadow::ranges_wf(b.schema)
    } else {
        v matches DomainModel::Record(vals) && vals.len() == b.schema.slots.len()
    }
}

/// The row a well-typed domain instance encodes to: forward-map, then write
/// the shadow as ordered named cells.
pub open spec fn encode_row_spec(b: RowBindingModel, v: DomainModel) -> Seq<
    (Seq<char>, Option<ValModel>),
> {
    row_of_instance(
        b.schema,
        if b.is_union {
            crate::mapper::forward_union_spec(b.schema, v->Variant_0, v->Variant_1)
        } else {
            crate::mapper::forward_record_spec(b.schema, v->Record_0)
        },
    )
}

/// Encodes a domain instance as an ordered named row.
pub fn encode_row(b: &RowBinding, v: &DomainValue) -> (r: Vec<(String, Option<Value>)>)
    requires
        row_binding_wf(b@),
        row_accepts(b@, v@),
    ensures
        row_view(r@) == encode_row_spec(b@, v@),
{
    let inst = if b.is_union {
        match v {
            DomainValue::Variant(i, vals) => {
                proof {
                    crate::value::lemma_vals_view(vals@);
                }
                crate::mapper::forward_union(&b.schema, *i, vals)
            },
            _ => {
                proof {
                    assert(false);
                }
                crate::mapper::ShadowInstance { kind: String::new(), slots: Vec::new() }
            },
        }
    } else {
        match v {
            DomainValue::Record(vals) => {
                proof {
                    crate::value::lemma_vals_view(vals@);
                }
                crate::mapper::forward_record(&b.schema, vals)
            },
            _ => {
                proof {
                    assert(false);
                }
                crate::mapper::ShadowInstance { kind: String::new(), slots: Vec::new() }
            },
        }
    };
    let ghost target = encode_row_spec(b@, v@);
    proof {
        assert(target == row_of_instance(b@.schema, inst@));
    }
    let mut out: Vec<(String, Option<Value>)> = Vec::new();
    let mut base: usize = 0;
    if b.is_union {
        let mut kind_name = String::new();
        push_str(&mut kind_name, "kind");
        out.push((kind_name, Option::Some(Value::Text(inst.kind.clone()))));
        base = 1;
        proof {
            assert(b@.schema.has_discriminator);
        }
    } else {
        proof {
            assert(!b@.schema.has_discriminator);
        }
    }
    proof {
        assert(target.len() == base + b@.schema.slots.len());
        assert forall|k: int| 0 <= k < out@.len() implies row_view(out@)[k] == target[k] by {}
    }
    let n = b.schema.slots.len();
    let mut i: usize = 0;
    while i < n
        invariant
            i <= n,
            n == b@.schema.slots.len(),
            n == inst@.slots.len(),
            base <= 1,
            target == encode_row_spec(b@, v@),
            target == row_of_instance(b@.schema, inst@),
            b@.schema.has_discriminator == (base == 1),
            target.len() == base + n,
            out@.len() == base + i,
            forall|k: int| 0 <= k < base + i ==> row_view(out@)[k] == target[k],
        decreases n - i,
    {
        let ghost pre = out@;
        out.push((b.schema.slots[i].ident.clone(), clone_cell(&inst.slots[i])));
        proof {
            assert forall|k: int| 0 <= k < base + i + 1 implies row_view(out@)[k] == target[k] by {
                if k < base + i {
                    assert(row_view(pre)[k] == target[k]);
                    assert(out@[k] == pre[k]);
                } else {
                    assert(out@[k] == out@.last());
                    assert(b@.schema.slots[i as int] == b.schema.slots@[i as int]@);
                    assert(inst@.slots[i as int] == crate::mapper::cell_model(
                        inst.slots@[i as int],
                    ));
                }
            }
        }
        i += 1;
    }
    proof {
        assert(row_view(out@) =~= target);
    }
    out
}

/// The models of a decoded row's columns and cells.
pub open spec fn rowin_view(s: Seq<(ColumnSpec, Option<Value>)>) -> Seq<
    (ColumnModel, Option<ValModel>),
> {
    Seq::new(s.len(), |i: int| (s[i].0@, crate::mapper::cell_model(s[i].1)))
}

/// The domain instance an ordered named row decodes to: the column specs
/// must match the shadow's columns exactly, the discriminator cell (for
/// unions) must hold text, and the shadow is then reverse-mapped.
pub open spec fn decode_row_spec(
    b: RowBindingModel,
    row: Seq<(ColumnModel, Option<ValModel>)>,
) -> Result<DomainModel, DecodeErrModel> {
    if Seq::new(row.len(), |i: int| row[i].0) != shadow_columns(b.schema) {
        Result::Err(DecodeErrModel::TypeCheck)
    } else if b.is_union {
        match row[0].1 {
            Option::Some(ValModel::Text(k)) => {
                let inst = crate::mapper::InstanceModel {
                    kind: k,
                    slots: Seq::new(b.schema.slots.len(), |i: int| row[i + 1].1),
                };
                match crate::mapper::reverse_union_spec(b.schema, inst) {
                    Result::Ok(pair) => Result::Ok(DomainModel::Variant(pair.0, pair.1)),
                    Result::Err(e) => Result::Err(DecodeErrModel::Mapping(e)),
                }
            },
            Option::Some(_) => Result::Err(DecodeErrModel::WireShape),
            Option::None => Result::Err(DecodeErrModel::UnexpectedNull),
        }
    } else {
        match crate::mapper::reverse_slots(
            b.schema.slots,
            Seq::new(b.schema.slots.len(), |i: int| row[i].1),
        ) {
            Result::Ok(vals) => Result::Ok(DomainModel::Record(vals)),
            Result::Err(e) => Result::Err(DecodeErrModel::Mapping(e)),
        }
    }
}

/// Decodes an ordered named row into a domain instance. The column check
/// runs first and short-circuits the decode on failure.
pub fn decode_row(b: &RowBinding, row: &Vec<(ColumnSpec, Option<Value>)>) -> (r: Result<
    DomainValue,
    DecodeError,
>)
    requires
        row_binding_wf(b@),
    ensures
        domain_result_model(r) == decode_row_spec(b@, rowin_view(row@)),
{
    let ghost rv = rowin_view(row@);
    let expected = shadow_columns_exec(&b.schema);
    let mut specs: Vec<ColumnSpec> = Vec::new();
    let mut i: usize = 0;
    let n = row.len();
    while i < n
        invariant
            i <= n,
            n == row@.len(),
            rv == rowin_view(row@),
            specs@.len() == i,
            forall|k: int| 0 <= k < i ==> cols_view(specs@)[k] == rv[k].0,
        decreases n - i,
    {
        let ghost pre = specs@;
        specs.push(
            ColumnSpec { name: row[i].0.name.clone(), ty: ty_clone(&row[i].0.ty) },
        );
        proof {
            assert forall|k: int| 0 <= k < i + 1 implies cols_view(specs@)[k] == rv[k].0 by {
                if k < i {
                    assert(cols_view(pre)[k] == rv[k].0);
                    assert(specs@[k] == pre[k]);
                } else {
                    assert(specs@[k] == specs@.last());
                    assert(rv[k] == (row@[k].0@, crate::mapper::cell_model(row@[k].1)));
                }
            }
        }
        i += 1;
    }
    proof {
        assert(cols_view(specs@) =~= Seq::new(rv.len(), |k: int| rv[k].0));
    }
    if !cols_eq(&specs, &expected) {
        return Result::Err(DecodeError::TypeCheck);
    }
    proof {
        assert(cols_view(specs@).len() == specs@.len());
        assert(rv.len() == row@.len());
        assert(shadow_columns(b@.schema).len() == (if b@.schema.has_discriminator {
            1int
        } else {
            0int
        }) + b@.schema.slots.len());
        assert(row@.len() == shadow_columns(b@.schema).len());
    }
    let ghost target = decode_row_spec(b@, rv);
    if b.is_union {
        let kind = match &row[0].1 {
            Option::Some(Value::Text(k)) => k.clone(),
            Option::Some(_) => {
                proof {
                    assert(rv[0] == (row@[0].0@, crate::mapper::cell_model(row@[0].1)));
                }
                return Result::Err(DecodeError::WireShape);
            },
            Option::None => {
                proof {
                    assert(rv[0] == (row@[0].0@, crate::mapper::cell_model(row@[0].1)));
                }
                return Result::Err(DecodeError::UnexpectedNull);
            },
        };
        proof {
            assert(rv[0] == (row@[0].0@, crate::mapper::cell_model(row@[0].1)));
        }
        let m = b.schema.slots.len();
        let mut cells: Vec<Option<Value>> = Vec::new();
        let mut j: usize = 0;
        while j < m
            invariant
                j <= m,
                m == b@.schema.slots.len(),
                rv == rowin_view(row@),
                rv.len() == m + 1,
                cells@.len() == j,
                forall|k: int|
                    0 <= k < j ==> crate::mapper::cells_view(cells@)[k] == rv[k + 1].1,
            decreases m - j,
        {
            let ghost pre = cells@;
            cells.push(clone_cell(&row[j + 1].1));
            proof {
                assert forall|k: int|
                    0 <= k < j + 1 implies crate::mapper::cells_view(cells@)[k] == rv[k + 1].1 by {
                    if k < j {
                        assert(crate::mapper::cells_view(pre)[k] == rv[k + 1].1);
                        assert(cells@[k] == pre[k]);
                    } else {
                        assert(cells@[k] == cells@.last());
                        assert(rv[k + 1] == (
                            row@[k + 1].0@,
                            crate::mapper::cell_model(row@[k + 1].1),
                        ));
                    }
                }
            }
            j += 1;
        }
        let inst = crate::mapper::ShadowInstance { kind, slots: cells };
        proof {
            let m0 = crate::mapper::InstanceModel {
                kind: rv[0].1->0->Text_0,
                slots: Seq::new(b@.schema.slots.len(), |k: int| rv[k + 1].1),
            };
            assert(inst@.slots =~= m0.slots);
            assert(inst@ == m0);
        }
        match crate::mapper::reverse_union(&b.schema, &inst) {
            Result::Ok(vv) => Result::Ok(DomainValue::Variant(vv.variant, vv.values)),
            Result::Err(e) => Result::Err(DecodeError::Mapping(e)),
        }
    } else {
        let m = b.schema.slots.len();
        let mut cells: Vec<Option<Value>> = Vec::new();
        let mut j: usize = 0;
        while j < m
            invariant
                j <= m,
                m == b@.schema.slots.len(),
                rv == rowin_view(row@),
                rv.len() == m,
                cells@.len() == j,
                forall|k: int| 0 <= k < j ==> crate::mapper::cells_view(cells@)[k] == rv[k].1,
            decreases m - j,
        {
            let ghost pre = cells@;
            cells.push(clone_cell(&row[j].1));
            proof {
                assert forall|k: int|
                    0 <= k < j + 1 implies crate::mapper::cells_view(cells@)[k] == rv[k].1 by {
                    if k < j {
                        assert(crate::mapper::cells_view(pre)[k] == rv[k].1);
                        assert(cells@[k] == pre[k]);
                    } else {
                        assert(cells@[k] == cells@.last());
                        assert(rv[k] == (row@[k].0@, crate::mapper::cell_model(row@[k].1)));
                    }
                }
            }
            j += 1;
        }
        let inst = crate::mapper::ShadowInstance { kind: String::new(), slots: cells };
        proof {
            assert(inst@.slots =~= Seq::new(b@.schema.slots.len(), |k: int| rv[k].1));
        }
        match crate::mapper::reverse_record(&b.schema, &inst) {
            Result::Ok(vals) => Result::Ok(DomainValue::Record(vals)),
            Result::Err(e) => Result::Err(DecodeError::Mapping(e)),
        }
    }
}


/// Validates wire column specs against the shadow's columns, by order, name
/// and type. A failure here is terminal for the call; decode is never
/// attempted after it.
pub fn row_type_check(b: &RowBinding, specs: &Vec<ColumnSpec>) -> (r: Result<(), TypeCheckError>)
    ensures
        r is Ok <==> cols_view(specs@) == shadow_columns(b@.schema),
{
    let expected = shadow_columns_exec(&b.schema);
    if cols_eq(specs, &expected) {
        Result::Ok(())
    } else {
        Result::Err(TypeCheckError)
    }
}

/// A generated row codec never reports an empty row, so storage-layer
/// empty-row elision never drops a persisted record.
pub fn row_is_empty(b: &RowBinding, v: &DomainValue) -> (r: bool)
    ensures
        r == false,
{
    false
}


// ---------------------------------------------------------------------------
// Static query descriptors.
// ---------------------------------------------------------------------------

/// The ordered persisted column names of a shadow schema.
pub open spec fn column_names(s: ShadowModel) -> Seq<Seq<char>> {
    Seq::new(shadow_columns(s).len(), |i: int| shadow_columns(s)[i].name)
}

/// The quoted, comma-separated column-name list.
pub open spec fn quoted_join(names: Seq<Seq<char>>) -> Seq<char>
    decreases names.len(),
{
    if names.len() == 0 {
        Seq::empty()
    } else if names.len() == 1 {
        seq!['"'] + names[0] + seq!['"']
    } else {
        quoted_join(names.drop_last()) + seq![','] + (seq!['"'] + names.last() + seq!['"'])
    }
}

/// The comma-separated positional bind-placeholder list.
pub open spec fn bindings_join(names: Seq<Seq<char>>) -> Seq<char>
    decreases names.len(),
{
    if names.len() == 0 {
        Seq::empty()
    } else if names.len() == 1 {
        seq![':'] + names[0]
    } else {
        bindings_join(names.drop_last()) + seq![','] + (seq![':'] + names.last())
    }
}

/// The ordered persisted column-name list of a row-shaped domain type,
/// quoted and comma-separated, derived with the same identifier rules as
/// the shadow schema.
pub fn scylla_fields(b: &RowBinding) -> (r: String)
    ensures
        r@ == quoted_join(column_names(b@.schema)),
{
    let cols = shadow_columns_exec(&b.schema);
    let ghost names = column_names(b@.schema);
    proof {
        assert(names.len() == cols@.len());
    }
    let mut r = String::new();
    let n = cols.len();
    let mut i: usize = 0;
    while i < n
        invariant
            i <= n,
            n == cols@.len(),
            cols_view(cols@) == shadow_columns(b@.schema),
            names == column_names(b@.schema),
            names.len() == n,
            r@ == quoted_join(names.subrange(0, i as int)),
        decreases n - i,
    {
        let ghost r0 = r@;
        if i > 0 {
            push_char(&mut r, ',');
        }
        push_char(&mut r, '"');
        push_str(&mut r, cols[i].name.as_str());
        push_char(&mut r, '"');
        proof {
            assert(cols_view(cols@)[i as int] == cols@[i as int]@);
            assert(names[i as int] == shadow_columns(b@.schema)[i as int].name);
            let sub1 = names.subrange(0, i + 1);
            assert(sub1.drop_last() =~= names.subrange(0, i as int));
            assert(sub1.last() == names[i as int]);
            if i == 0 {
                assert(r@ =~= seq!['"'] + names[0] + seq!['"']);
            } else {
                assert(r@ =~= quoted_join(names.subrange(0, i as int)) + seq![','] + (seq!['"']
                    + names[i as int] + seq!['"']));
            }
        }
        i += 1;
    }
    proof {
        assert(names.subrange(0, n as int) =~= names);
    }
    r
}

/// The matching positional bind-placeholder list of a row-shaped domain
/// type, comma-separated.
pub fn scylla_field_bindings(b: &RowBinding) -> (r: String)
    ensures
        r@ == bindings_join(column_names(b@.schema)),
{
    let cols = shadow_columns_exec(&b.schema);
    let ghost names = column_names(b@.schema);
    proof {
        assert(names.len() == cols@.len());
    }
    let mut r = String::new();
    let n = cols.len();
    let mut i: usize = 0;
    while i < n
        invariant
            i <= n,
            n == cols@.len(),
            cols_view(cols@) == shadow_columns(b@.schema),
            names == column_names(b@.schema),
            names.len() == n,
            r@ == bindings_join(names.subrange(0, i as int)),
        decreases n - i,
    {
        if i > 0 {
            push_char(&mut r, ',');
        }
        push_char(&mut r, ':');
        push_str(&mut r, cols[i].name.as_str());
        proof {
            assert(cols_view(cols@)[i as int] == cols@[i as int]@);
            assert(names[i as int] == shadow_columns(b@.schema)[i as int].name);
            let sub1 = names.subrange(0, i + 1);
            assert(sub1.drop_last() =~= names.subrange(0, i as int));
            assert(sub1.last() == names[i as int]);
            if i == 0 {
                assert(r@ =~= seq![':'] + names[0]);
            } else {
                assert(r@ =~= bindings_join(names.subrange(0, i as int)) + seq![','] + (seq![':']
                    + names[i as int]));
            }
        }
        i += 1;
    }
    proof {
        assert(names.subrange(0, n as int) =~= names);
    }
    r
}

} // verus!
