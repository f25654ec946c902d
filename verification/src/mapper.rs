use vstd::prelude::*;
use crate::errors::{MappingErrModel, MappingError};
use crate::schema::MappingPolicy;
use crate::shadow::{ShadowSchema, SlotModel, VariantSlotsModel};
use crate::text::str_eq;
use crate::value::{Value, ValModel, val_model, vals_view, lemma_vals_view};

verus! {

// ---------------------------------------------------------------------------
// Shadow instances.
// ---------------------------------------------------------------------------

/// One shadow record instance: the discriminator text (empty for records,
/// and until a value sets it) and one optional cell per slot.
#[derive(Debug)]
pub struct ShadowInstance {
    pub kind: String,
    pub slots: Vec<Option<Value>>,
}

/// Mathematical model of a `ShadowInstance`.
pub struct InstanceModel {
    pub kind: Seq<char>,
    pub slots: Seq<Option<ValModel>>,
}

/// The model of one optional cell.
pub open spec fn cell_model(c: Option<Value>) -> Option<ValModel> {
    match c {
        Option::Some(v) => Option::Some(val_model(v)),
        Option::None => Option::None,
    }
}

/// The models of a sequence of cells.
pub open spec fn cells_view(s: Seq<Option<Value>>) -> Seq<Option<ValModel>> {
    Seq::new(s.len(), |i: int| cell_model(s[i]))
}

impl View for ShadowInstance {
    type V = InstanceModel;

    open spec fn view(&self) -> InstanceModel {
        InstanceModel { kind: self.kind@, slots: cells_view(self.slots@) }
    }
}

// ---------------------------------------------------------------------------
// Value cloning (the mappers read their inputs without consuming them).
// ---------------------------------------------------------------------------

/// A copy of a value, equal to the original in the model.
pub fn clone_value(v: &Value) -> (r: Value)
    ensures
        val_model(r) == val_model(*v),
    decreases v,
{
    match v {
        Value::Int(i) => Value::Int(*i),
        Value::Text(s) => Value::Text(s.clone()),
        Value::List(elems) => {
            let mut out: Vec<Value> = Vec::new();
            let mut i: usize = 0;
            while i < elems.len()
                invariant
                    i <= elems.len(),
                    out@.len() == i,
                    *v == Value::List(*elems),
                    forall|j: int|
                        0 <= j < i ==> val_model(out@[j]) == val_model(#[trigger] elems@[j]),
                decreases elems.len() - i,
            {
                proof {
                    assert(decreases_to!(*v => v->List_0));
                    assert(decreases_to!(*v => elems@[i as int]));
                }
                out.push(clone_value(&elems[i]));
                i += 1;
            }
            proof {
                lemma_vals_view(out@);
                lemma_vals_view(elems@);
                assert forall|k: int| 0 <= k < elems@.len() implies vals_view(out@)[k] == vals_view(
                    elems@,
                )[k] by {
                    assert(vals_view(out@)[k] == val_model(out@[k]));
                    assert(vals_view(elems@)[k] == val_model(elems@[k]));
                }
                assert(vals_view(out@) =~= vals_view(elems@));
            }
            Value::List(out)
        },
        Value::Opt(o) => match o {
            Option::Some(b) => Value::Opt(Option::Some(Box::new(clone_value(b)))),
            Option::None => Value::Opt(Option::None),
        },
    }
}

// ---------------------------------------------------------------------------
// Forward mapping (domain -> shadow). Total: it never fails.
// ---------------------------------------------------------------------------

/// What one slot holds after forward-mapping a field value.
pub open spec fn forward_slot(p: MappingPolicy, v: ValModel) -> Option<ValModel> {
    match p {
        MappingPolicy::Direct => match v {
            ValModel::Opt(o) => match o {
                Option::Some(b) => Option::Some(*b),
                Option::None => Option::None,
            },
            _ => Option::Some(v),
        },
        MappingPolicy::Wrap => Option::Some(v),
        MappingPolicy::ListDefault => Option::Some(v),
    }
}

fn forward_slot_exec(p: MappingPolicy, v: Value) -> (c: Option<Value>)
    ensures
        cell_model(c) == forward_slot(p, val_model(v)),
{
    match p {
        MappingPolicy::Direct => match v {
            Value::Opt(o) => match o {
                Option::Some(b) => Option::Some(*b),
                Option::None => Option::None,
            },
            other => Option::Some(other),
        },
        _ => Option::Some(v),
    }
}

/// The shadow instance that forward-mapping a record value produces.
pub open spec fn forward_record_spec(s: crate::shadow::ShadowModel, vals: Seq<ValModel>) -> InstanceModel {
    InstanceModel {
        kind: Seq::empty(),
        slots: Seq::new(s.slots.len(), |i: int| forward_slot(s.slots[i].policy, vals[i])),
    }
}

/// Forward-maps a record value: one cell per slot, by the slot's policy.
pub fn forward_record(schema: &ShadowSchema, values: &Vec<Value>) -> (r: ShadowInstance)
    requires
        values@.len() == schema@.slots.len(),
    ensures
        r@ == forward_record_spec(schema@, vals_view(values@)),
        r@.kind == Seq::<char>::empty(),
        r@.slots.len() == schema@.slots.len(),
        forall|i: int|
            0 <= i < schema@.slots.len() ==> r@.slots[i] == forward_slot(
                schema@.slots[i].policy,
                val_model(#[trigger] values@[i]),
            ),
{
    let mut slots: Vec<Option<Value>> = Vec::new();
    let mut i: usize = 0;
    while i < values.len()
        invariant
            i <= values.len(),
            values@.len() == schema@.slots.len(),
            slots@.len() == i,
            forall|j: int|
                0 <= j < i ==> cells_view(slots@)[j] == forward_slot(
                    schema@.slots[j].policy,
                    val_model(#[trigger] values@[j]),
                ),
        decreases values.len() - i,
    {
        let ghost pre = slots@;
        slots.push(forward_slot_exec(schema.slots[i].policy, clone_value(&values[i])));
        proof {
            assert forall|j: int| 0 <= j < i + 1 implies cells_view(slots@)[j] == forward_slot(
                schema@.slots[j].policy,
                val_model(#[trigger] values@[j]),
            ) by {
                if j < i {
                    assert(cells_view(pre)[j] == forward_slot(
                        schema@.slots[j].policy,
                        val_model(values@[j]),
                    ));
                    assert(slots@[j] == pre[j]);
                } else {
                    assert(slots@[j] == slots@.last());
                }
            }
        }
        i += 1;
    }
    let r = ShadowInstance { kind: String::new(), slots };
    proof {
        lemma_vals_view(values@);
        let m = forward_record_spec(schema@, vals_view(values@));
        assert forall|k: int| 0 <= k < schema@.slots.len() implies r@.slots[k] == m.slots[k] by {
            assert(vals_view(values@)[k] == val_model(values@[k]));
        }
        assert(r@.slots =~= m.slots);
    }
    r
}

/// The shadow instance that forward-mapping a union value produces: the
/// held variant's tag in the discriminator, its own slots populated, every
/// other slot absent.
pub open spec fn forward_union_spec(
    s: crate::shadow::ShadowModel,
    vi: int,
    vals: Seq<ValModel>,
) -> InstanceModel {
    InstanceModel {
        kind: s.variants[vi].tag,
        slots: Seq::new(
            s.slots.len(),
            |j: int|
                if s.variants[vi].start <= j < s.variants[vi].start + s.variants[vi].count {
                    forward_slot(s.slots[j].policy, vals[j - s.variants[vi].start])
                } else {
                    Option::None
                },
        ),
    }
}

/// Forward-maps a union value: the discriminator is set to the held
/// variant's tag, only that variant's slots are populated, and every other
/// variant's slot stays absent.
pub fn forward_union(schema: &ShadowSchema, variant: usize, values: &Vec<Value>) -> (r:
    ShadowInstance)
    requires
        variant < schema@.variants.len(),
        schema@.variants[variant as int].start >= 0,
        schema@.variants[variant as int].start + schema@.variants[variant as int].count
            <= schema@.slots.len(),
        values@.len() == schema@.variants[variant as int].count,
    ensures
        r@ == forward_union_spec(schema@, variant as int, vals_view(values@)),
        r@.kind == schema@.variants[variant as int].tag,
        r@.slots.len() == schema@.slots.len(),
        forall|j: int|
            schema@.variants[variant as int].start <= j < schema@.variants[variant as int].start
                + schema@.variants[variant as int].count ==> #[trigger] r@.slots[j]
                == forward_slot(
                schema@.slots[j].policy,
                val_model(values@[j - schema@.variants[variant as int].start]),
            ),
        forall|j: int|
            0 <= j < schema@.slots.len() && !(schema@.variants[variant as int].start <= j
                < schema@.variants[variant as int].start + schema@.variants[variant as int].count)
                ==> #[trigger] r@.slots[j] is None,
{
    let start = schema.variants[variant].start;
    let count = schema.variants[variant].count;
    let mut slots: Vec<Option<Value>> = Vec::new();
    let n = schema.slots.len();
    let mut j: usize = 0;
    while j < n
        invariant
            j <= n,
            n == schema@.slots.len(),
            variant < schema@.variants.len(),
            start == schema@.variants[variant as int].start,
            count == schema@.variants[variant as int].count,
            start + count <= n,
            values@.len() == count,
            slots@.len() == j,
            forall|k: int|
                0 <= k < j && start <= k < start + count ==> #[trigger] cells_view(slots@)[k]
                    == forward_slot(
                    schema@.slots[k].policy,
                    val_model(values@[k - start]),
                ),
            forall|k: int|
                0 <= k < j && !(start <= k < start + count) ==> #[trigger] cells_view(
                    slots@,
                )[k] is None,
        decreases n - j,
    {
        let ghost pre = slots@;
        if j >= start && j < start + count {
            slots.push(forward_slot_exec(schema.slots[j].policy, clone_value(&values[j - start])));
        } else {
            slots.push(Option::None);
        }
        proof {
            assert forall|k: int|
                0 <= k < j + 1 && start <= k < start + count implies #[trigger] cells_view(
                slots@,
            )[k] == forward_slot(schema@.slots[k].policy, val_model(values@[k - start])) by {
                if k < j {
                    assert(cells_view(pre)[k] == forward_slot(
                        schema@.slots[k].policy,
                        val_model(values@[k - start]),
                    ));
                    assert(slots@[k] == pre[k]);
                } else {
                    assert(slots@[k] == slots@.last());
                }
            }
            assert forall|k: int|
                0 <= k < j + 1 && !(start <= k < start + count) implies #[trigger] cells_view(
                slots@,
            )[k] is None by {
                if k < j {
                    assert(cells_view(pre)[k] is None);
                    assert(slots@[k] == pre[k]);
                } else {
                    assert(slots@[k] == slots@.last());
                }
            }
        }
        j += 1;
    }
    let tag = schema.variants[variant].tag.clone();
    let r = ShadowInstance { kind: tag, slots };
    proof {
        lemma_vals_view(values@);
        let m = forward_union_spec(schema@, variant as int, vals_view(values@));
        assert forall|k: int| 0 <= k < schema@.slots.len() implies r@.slots[k] == m.slots[k] by {
            if start <= k < start + count {
                assert(vals_view(values@)[k - start] == val_model(values@[k - start]));
            }
        }
        assert(r@.slots =~= m.slots);
    }
    r
}

// ---------------------------------------------------------------------------
// Reverse mapping (shadow -> domain). Partial: it reports the first failure.
// ---------------------------------------------------------------------------

/// What one field's reconstruction yields from its slot cell; `None` stands
/// for a missing required value.
pub open spec fn reverse_slot(p: MappingPolicy, c: Option<ValModel>) -> Option<ValModel> {
    match p {
        MappingPolicy::Direct => Option::Some(
            ValModel::Opt(
                match c {
                    Option::Some(v) => Option::Some(Box::new(v)),
                    Option::None => Option::None,
                },
            ),
        ),
        MappingPolicy::Wrap => c,
        MappingPolicy::ListDefault => match c {
            Option::Some(v) => Option::Some(v),
            Option::None => Option::Some(ValModel::List(Seq::empty())),
        },
    }
}

/// The reconstruction of the fields behind `slots[i..]`, first failure
/// first: a missing Wrap-policy slot fails with `MissingValue` naming that
/// slot.
pub open spec fn reverse_slots_from(
    slots: Seq<SlotModel>,
    cells: Seq<Option<ValModel>>,
    i: int,
) -> Result<Seq<ValModel>, MappingErrModel>
    decreases slots.len() - i,
{
    if i < 0 || i >= slots.len() {
        Result::Ok(Seq::empty())
    } else {
        match reverse_slot(slots[i].policy, cells[i]) {
            Option::None => Result::Err(MappingErrModel::MissingValue(slots[i].ident)),
            Option::Some(v) => match reverse_slots_from(slots, cells, i + 1) {
                Result::Ok(rest) => Result::Ok(seq![v] + rest),
                Result::Err(e) => Result::Err(e),
            },
        }
    }
}

/// The reconstruction of all fields of a shadow record.
pub open spec fn reverse_slots(slots: Seq<SlotModel>, cells: Seq<Option<ValModel>>) -> Result<
    Seq<ValModel>,
    MappingErrModel,
> {
    reverse_slots_from(slots, cells, 0)
}

/// The model of a reverse-mapping result.
pub open spec fn result_model(r: Result<Vec<Value>, MappingError>) -> Result<
    Seq<ValModel>,
    MappingErrModel,
> {
    match r {
        Result::Ok(v) => Result::Ok(vals_view(v@)),
        Result::Err(e) => Result::Err(e@),
    }
}

/// Splitting the reconstruction at `i`: if every slot before `i` succeeds,
/// the whole result is the prefix values followed by the suffix result, or
/// the suffix's error.
proof fn lemma_reverse_split(slots: Seq<SlotModel>, cells: Seq<Option<ValModel>>, i: int)
    requires
        0 <= i <= slots.len(),
        forall|k: int| 0 <= k < i ==> reverse_slot(slots[k].policy, #[trigger] cells[k]) is Some,
    ensures
        reverse_slots_from(slots, cells, i) is Err ==> reverse_slots(slots, cells)
            == reverse_slots_from(slots, cells, i),
        reverse_slots_from(slots, cells, i) is Ok ==> (reverse_slots(slots, cells) matches
            Result::Ok(all) && all == Seq::new(
            i as nat,
            |k: int| reverse_slot(slots[k].policy, cells[k])->0,
        ) + reverse_slots_from(slots, cells, i)->Ok_0),
    decreases i,
{
    if i == 0 {
        match reverse_slots_from(slots, cells, 0) {
            Result::Ok(all) => {
                assert(Seq::new(0, |k: int| reverse_slot(slots[k].policy, cells[k])->0) + all
                    =~= all);
            },
            Result::Err(_) => {},
        }
    } else {
        lemma_reverse_split(slots, cells, i - 1);
        let v = reverse_slot(slots[i - 1].policy, cells[i - 1])->0;
        match reverse_slots_from(slots, cells, i) {
            Result::Ok(rest) => {
                assert(reverse_slots_from(slots, cells, i - 1) == Result::Ok::<
                    Seq<ValModel>,
                    MappingErrModel,
                >(seq![v] + rest));
                let prefix_old = Seq::new(
                    (i - 1) as nat,
                    |k: int| reverse_slot(slots[k].policy, cells[k])->0,
                );
                let prefix_new = Seq::new(i as nat, |k: int| reverse_slot(slots[k].policy, cells[k])->0);
                assert(prefix_old + (seq![v] + rest) =~= prefix_new + rest);
            },
            Result::Err(_) => {
                assert(reverse_slots_from(slots, cells, i - 1) == reverse_slots_from(
                    slots,
                    cells,
                    i,
                ));
            },
        }
    }
}

/// Reconstructs a record value from a shadow instance: Direct slots pass
/// through, Wrap slots must be present (else `MissingValue` naming the first
/// absent one), ListDefault slots default to the empty list.
pub fn reverse_record(schema: &ShadowSchema, inst: &ShadowInstance) -> (r: Result<
    Vec<Value>,
    MappingError,
>)
    requires
        inst@.slots.len() == schema@.slots.len(),
    ensures
        result_model(r) == reverse_slots(schema@.slots, inst@.slots),
{
    let r = reverse_range(schema, inst, 0, schema.slots.len());
    proof {
        assert(schema@.slots.subrange(0, schema@.slots.len() as int) =~= schema@.slots);
        assert(inst@.slots.subrange(0, schema@.slots.len() as int) =~= inst@.slots);
    }
    r
}

/// Reconstructs the fields behind the slot range `[start, start + count)`.
pub fn reverse_range(schema: &ShadowSchema, inst: &ShadowInstance, start: usize, count: usize) -> (r:
    Result<Vec<Value>, MappingError>)
    requires
        inst@.slots.len() == schema@.slots.len(),
        start + count <= schema@.slots.len(),
    ensures
        result_model(r) == reverse_slots(
            schema@.slots.subrange(start as int, start + count),
            inst@.slots.subrange(start as int, start + count),
        ),
{
    let ghost sub_slots = schema@.slots.subrange(start as int, start + count);
    let ghost sub_cells = inst@.slots.subrange(start as int, start + count);
    let total = schema.slots.len();
    proof {
        assert(start + count <= total as int);
    }
    let mut out: Vec<Value> = Vec::new();
    let mut j: usize = 0;
    while j < count
        invariant
            j <= count,
            inst@.slots.len() == schema@.slots.len(),
            start + count <= schema@.slots.len(),
            start + count <= usize::MAX,
            sub_slots == schema@.slots.subrange(start as int, start + count),
            sub_cells == inst@.slots.subrange(start as int, start + count),
            out@.len() == j,
            forall|k: int|
                0 <= k < j ==> reverse_slot(sub_slots[k].policy, #[trigger] sub_cells[k]) is Some,
            forall|k: int|
                0 <= k < j ==> val_model(#[trigger] out@[k]) == reverse_slot(
                    sub_slots[k].policy,
                    sub_cells[k],
                )->0,
        decreases count - j,
    {
        let ghost pre = out@;
        proof {
            assert(schema@.slots.len() == schema.slots@.len());
        }
        let idx = start + j;
        proof {
            assert(sub_slots[j as int] == schema@.slots[idx as int]);
            assert(sub_cells[j as int] == inst@.slots[idx as int]);
            assert(cells_view(inst.slots@)[idx as int] == cell_model(inst.slots@[idx as int]));
        }
        let p = schema.slots[idx].policy;
        match &inst.slots[idx] {
            Option::Some(v) => {
                match p {
                    MappingPolicy::Direct => {
                        out.push(Value::Opt(Option::Some(Box::new(clone_value(v)))));
                    },
                    _ => {
                        out.push(clone_value(v));
                    },
                }
            },
            Option::None => {
                match p {
                    MappingPolicy::Direct => {
                        out.push(Value::Opt(Option::None));
                    },
                    MappingPolicy::ListDefault => {
                        out.push(Value::List(Vec::new()));
                    },
                    MappingPolicy::Wrap => {
                        let ident = schema.slots[idx].ident.clone();
                        proof {
                            lemma_reverse_split(sub_slots, sub_cells, j as int);
                            assert(reverse_slot(sub_slots[j as int].policy, sub_cells[j as int])
                                is None);
                            assert(reverse_slots_from(sub_slots, sub_cells, j as int)
                                == Result::Err::<Seq<ValModel>, MappingErrModel>(
                                MappingErrModel::MissingValue(sub_slots[j as int].ident),
                            ));
                        }
                        return Result::Err(MappingError::MissingValue(ident));
                    },
                }
            },
        }
        proof {
            assert(out@[j as int] == out@.last());
            assert forall|k: int| 0 <= k < j implies #[trigger] out@[k] == pre[k] by {}
            if inst.slots@[idx as int] is Some {
                assert(val_model(out@[j as int]) == reverse_slot(
                    sub_slots[j as int].policy,
                    sub_cells[j as int],
                )->0);
            } else {
                if p is ListDefault {
                    assert(val_model(out@[j as int]) == ValModel::List(vals_view(Seq::empty())));
                    assert(vals_view(Seq::<Value>::empty()) =~= Seq::<ValModel>::empty());
                }
            }
        }
        j += 1;
    }
    proof {
        lemma_reverse_split(sub_slots, sub_cells, count as int);
        assert(reverse_slots_from(sub_slots, sub_cells, count as int) == Result::Ok::<
            Seq<ValModel>,
            MappingErrModel,
        >(Seq::empty()));
        lemma_vals_view(out@);
        let prefix = Seq::new(
            count as nat,
            |k: int| reverse_slot(sub_slots[k].policy, sub_cells[k])->0,
        );
        assert forall|k: int| 0 <= k < count implies vals_view(out@)[k] == prefix[k] by {
            assert(vals_view(out@)[k] == val_model(out@[k]));
            assert(val_model(out@[k]) == reverse_slot(sub_slots[k].policy, sub_cells[k])->0);
        }
        assert(vals_view(out@) =~= prefix + Seq::<ValModel>::empty());
    }
    Result::Ok(out)
}

// ---------------------------------------------------------------------------
// Union reverse mapping.
// ---------------------------------------------------------------------------

/// The first variant whose tag equals the discriminator text, searching
/// from index `i`.
pub open spec fn tag_match(vars: Seq<VariantSlotsModel>, kind: Seq<char>, i: int) -> Option<int>
    decreases vars.len() - i,
{
    if i < 0 || i >= vars.len() {
        Option::None
    } else if vars[i].tag == kind {
        Option::Some(i)
    } else {
        tag_match(vars, kind, i + 1)
    }
}

/// A decoded union value: which variant, and its field values.
#[derive(Debug)]
pub struct VariantValue {
    pub variant: usize,
    pub values: Vec<Value>,
}

/// The model of a union reverse-mapping result.
pub open spec fn variant_result_model(r: Result<VariantValue, MappingError>) -> Result<
    (int, Seq<ValModel>),
    MappingErrModel,
> {
    match r {
        Result::Ok(v) => Result::Ok((v.variant as int, vals_view(v.values@))),
        Result::Err(e) => Result::Err(e@),
    }
}

/// The reconstruction of a union value from a shadow instance: exact-match
/// the discriminator against the known tags, then reconstruct that
/// variant's fields from its own slots.
pub open spec fn reverse_union_spec(s: crate::shadow::ShadowModel, inst: InstanceModel) -> Result<
    (int, Seq<ValModel>),
    MappingErrModel,
> {
    match tag_match(s.variants, inst.kind, 0) {
        Option::None => Result::Err(MappingErrModel::InvalidVariant(inst.kind)),
        Option::Some(vi) => {
            let start = s.variants[vi].start;
            let count = s.variants[vi].count;
            match reverse_slots(
                s.slots.subrange(start, start + count),
                inst.slots.subrange(start, start + count),
            ) {
                Result::Ok(vals) => Result::Ok((vi, vals)),
                Result::Err(e) => Result::Err(e),
            }
        },
    }
}

/// Reconstructs a union value: on a discriminator matching no known tag the
/// decode fails with `InvalidVariant` carrying the raw text; otherwise the
/// matched variant is rebuilt from its slots, other variants' slots ignored.
pub fn reverse_union(schema: &ShadowSchema, inst: &ShadowInstance) -> (r: Result<
    VariantValue,
    MappingError,
>)
    requires
        inst@.slots.len() == schema@.slots.len(),
        crate::shadow::ranges_wf(schema@),
    ensures
        variant_result_model(r) == reverse_union_spec(schema@, inst@),
{
    let n = schema.variants.len();
    let mut i: usize = 0;
    while i < n
        invariant
            i <= n,
            n == schema@.variants.len(),
            inst@.slots.len() == schema@.slots.len(),
            crate::shadow::ranges_wf(schema@),
            tag_match(schema@.variants, inst@.kind, 0) == tag_match(
                schema@.variants,
                inst@.kind,
                i as int,
            ),
        decreases n - i,
    {
        if str_eq(inst.kind.as_str(), schema.variants[i].tag.as_str()) {
            let start = schema.variants[i].start;
            let count = schema.variants[i].count;
            let rr = reverse_range(schema, inst, start, count);
            match rr {
                Result::Ok(values) => {
                    return Result::Ok(VariantValue { variant: i, values });
                },
                Result::Err(e) => {
                    return Result::Err(e);
                },
            }
        }
        i += 1;
    }
    Result::Err(MappingError::InvalidVariant(inst.kind.clone()))
}

} // verus!
