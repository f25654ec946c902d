use vstd::prelude::*;
use crate::codec::{
    CellBindingModel, CellTypeModel, DomainModel, EncodedCellModel, cell_check_spec,
    decode_cell_spec, encode_cell_spec, encode_value_spec, decode_value_spec, shadow_columns,
    tag_index,
};
use crate::errors::{DecodeErrModel, MappingErrModel};
use crate::mapper::{
    InstanceModel, forward_record_spec, forward_slot, forward_union_spec, reverse_slot,
    reverse_slots, reverse_slots_from, reverse_union_spec, tag_match,
};
use crate::schema::MappingPolicy;
use crate::shadow::{ShadowModel, SlotModel, ranges_wf};
use crate::value::{DeclaredType, ValModel};

verus! {

// ---------------------------------------------------------------------------
// Round trips of the shadow mapping.
// ---------------------------------------------------------------------------

/// The cells that forward-mapping writes for a slot table.
pub open spec fn forward_cells(slots: Seq<SlotModel>, vals: Seq<ValModel>) -> Seq<
    Option<ValModel>,
> {
    Seq::new(slots.len(), |i: int| forward_slot(slots[i].policy, vals[i]))
}

/// One slot reverses its own forward image. A Direct slot carries an
/// optional domain value, so the requirement below holds of every
/// well-typed field value.
pub proof fn lemma_slot_round_trip(p: MappingPolicy, v: ValModel)
    requires
        p is Direct ==> v is Opt,
    ensures
        reverse_slot(p, forward_slot(p, v)) == Option::Some(v),
{
}

proof fn lemma_round_trip_from(slots: Seq<SlotModel>, vals: Seq<ValModel>, i: int)
    requires
        vals.len() == slots.len(),
        0 <= i <= slots.len(),
        forall|k: int|
            0 <= k < slots.len() ==> ((#[trigger] slots[k].policy) is Direct ==> vals[k] is Opt),
    ensures
        reverse_slots_from(slots, forward_cells(slots, vals), i) == Result::Ok::<
            Seq<ValModel>,
            MappingErrModel,
        >(vals.subrange(i, vals.len() as int)),
    decreases slots.len() - i,
{
    let cells = forward_cells(slots, vals);
    if i < slots.len() {
        lemma_slot_round_trip(slots[i].policy, vals[i]);
        lemma_round_trip_from(slots, vals, i + 1);
        assert(seq![vals[i]] + vals.subrange(i + 1, vals.len() as int) =~= vals.subrange(
            i,
            vals.len() as int,
        ));
    } else {
        assert(vals.subrange(i, vals.len() as int) =~= Seq::<ValModel>::empty());
    }
}

/// Round trip of a record: for any well-typed record value, reverse-mapping
/// the forward image reconstructs the value exactly.
pub proof fn lemma_record_round_trip(slots: Seq<SlotModel>, vals: Seq<ValModel>)
    requires
        vals.len() == slots.len(),
        forall|k: int|
            0 <= k < slots.len() ==> ((#[trigger] slots[k].policy) is Direct ==> vals[k] is Opt),
    ensures
        reverse_slots(slots, forward_cells(slots, vals)) == Result::Ok::<
            Seq<ValModel>,
            MappingErrModel,
        >(vals),
{
    lemma_round_trip_from(slots, vals, 0);
    assert(vals.subrange(0, vals.len() as int) =~= vals);
}

/// The shadow of a record value reverses to that value: the forward mapper
/// writes exactly `forward_cells` into the instance.
pub proof fn lemma_record_instance_round_trip(s: ShadowModel, vals: Seq<ValModel>)
    requires
        vals.len() == s.slots.len(),
        forall|k: int|
            0 <= k < s.slots.len() ==> ((#[trigger] s.slots[k].policy) is Direct ==> vals[k] is Opt),
    ensures
        reverse_slots(s.slots, forward_record_spec(s, vals).slots) == Result::Ok::<
            Seq<ValModel>,
            MappingErrModel,
        >(vals),
{
    assert(forward_record_spec(s, vals).slots =~= forward_cells(s.slots, vals));
    lemma_record_round_trip(s.slots, vals);
}

// ---------------------------------------------------------------------------
// Union round trip.
// ---------------------------------------------------------------------------

/// With pairwise-distinct tags, the discriminator of variant `vi` matches
/// exactly variant `vi`.
proof fn lemma_tag_match_finds(vars: Seq<crate::shadow::VariantSlotsModel>, vi: int, i: int)
    requires
        0 <= i <= vi < vars.len(),
        forall|a: int, b: int|
            0 <= a < b < vars.len() ==> (#[trigger] vars[a].tag) != (#[trigger] vars[b].tag),
    ensures
        tag_match(vars, vars[vi].tag, i) == Option::Some(vi),
    decreases vi - i,
{
    if i < vi {
        lemma_tag_match_finds(vars, vi, i + 1);
    }
}

/// Round trip of a union: for any well-typed variant instance, decoding the
/// tag and slots produced by the forward mapper reconstructs the variant
/// exactly; the other variants' slots (all absent) are ignored. The tags
/// must be pairwise distinct: two variant names with one snake_case form
/// would collide.
pub proof fn lemma_union_round_trip(s: ShadowModel, vi: int, vals: Seq<ValModel>)
    requires
        ranges_wf(s),
        0 <= vi < s.variants.len(),
        vals.len() == s.variants[vi].count,
        forall|a: int, b: int|
            0 <= a < b < s.variants.len() ==> (#[trigger] s.variants[a].tag) != (
            #[trigger] s.variants[b].tag),
        forall|j: int|
            0 <= j < s.variants[vi].count ==> ((#[trigger] s.slots[s.variants[vi].start
                + j].policy) is Direct ==> vals[j] is Opt),
    ensures
        reverse_union_spec(s, forward_union_spec(s, vi, vals)) == Result::Ok::<
            (int, Seq<ValModel>),
            MappingErrModel,
        >((vi, vals)),
{
    let inst = forward_union_spec(s, vi, vals);
    lemma_tag_match_finds(s.variants, vi, 0);
    assert(tag_match(s.variants, inst.kind, 0) == Option::Some(vi));
    let start = s.variants[vi].start;
    let count = s.variants[vi].count;
    let sub_slots = s.slots.subrange(start, start + count);
    let sub_cells = inst.slots.subrange(start, start + count);
    assert forall|j: int| 0 <= j < count implies sub_cells[j] == forward_cells(sub_slots, vals)[j] by {
        assert(sub_cells[j] == inst.slots[start + j]);
        assert(sub_slots[j] == s.slots[start + j]);
    }
    assert(sub_cells =~= forward_cells(sub_slots, vals));
    assert forall|k: int|
        0 <= k < sub_slots.len() implies ((#[trigger] sub_slots[k].policy) is Direct
        ==> vals[k] is Opt) by {
        assert(sub_slots[k] == s.slots[start + k]);
    }
    lemma_record_round_trip(sub_slots, vals);
}

// ---------------------------------------------------------------------------
// The reverse mapper's exact failure and success shape.
// ---------------------------------------------------------------------------

/// When every slot reverses, the result holds exactly one reconstructed
/// value per slot, in slot order.
pub proof fn lemma_reverse_ok_pointwise(slots: Seq<SlotModel>, cells: Seq<Option<ValModel>>, i: int)
    requires
        0 <= i <= slots.len(),
    ensures
        reverse_slots_from(slots, cells, i) matches Result::Ok(vals) ==> (vals.len() == slots.len()
            - i && forall|k: int|
            i <= k < slots.len() ==> (reverse_slot((#[trigger] slots[k]).policy, cells[k])
                matches Option::Some(w) && vals[k - i] == w)),
    decreases slots.len() - i,
{
    if i < slots.len() {
        lemma_reverse_ok_pointwise(slots, cells, i + 1);
    }
}

/// Missing-field decode: a shadow instance with a Wrap-policy slot absent
/// reverses to `MissingValue` naming such a slot; never a default value,
/// never a success.
pub proof fn lemma_missing_value(slots: Seq<SlotModel>, cells: Seq<Option<ValModel>>, w: int)
    requires
        0 <= w < slots.len(),
        slots[w].policy is Wrap,
        cells[w] is None,
    ensures
        reverse_slots(slots, cells) matches Result::Err(e) && e matches
            MappingErrModel::MissingValue(id) && exists|k: int|
            0 <= k < slots.len() && (#[trigger] slots[k]).policy is Wrap && cells[k] is None && id
                == slots[k].ident,
{
    lemma_missing_value_from(slots, cells, w, 0);
}

proof fn lemma_missing_value_from(slots: Seq<SlotModel>, cells: Seq<Option<ValModel>>, w: int, i: int)
    requires
        0 <= i <= w < slots.len(),
        slots[w].policy is Wrap,
        cells[w] is None,
    ensures
        reverse_slots_from(slots, cells, i) matches Result::Err(e) && e matches
            MappingErrModel::MissingValue(id) && exists|k: int|
            0 <= k < slots.len() && (#[trigger] slots[k]).policy is Wrap && cells[k] is None && id
                == slots[k].ident,
    decreases w - i,
{
    match reverse_slot(slots[i].policy, cells[i]) {
        Option::None => {
            assert(slots[i].policy is Wrap && cells[i] is None);
        },
        Option::Some(_) => {
            assert(i < w);
            lemma_missing_value_from(slots, cells, w, i + 1);
        },
    }
}

/// List-default decode: when the reverse mapping succeeds, a ListDefault
/// slot that was absent reconstructs as the empty list, not as an error.
pub proof fn lemma_list_default(slots: Seq<SlotModel>, cells: Seq<Option<ValModel>>, i: int)
    requires
        0 <= i < slots.len(),
        slots[i].policy is ListDefault,
        cells[i] is None,
        reverse_slots(slots, cells) is Ok,
    ensures
        reverse_slots(slots, cells) matches Result::Ok(vals) && vals[i] == ValModel::List(
            Seq::empty(),
        ),
{
    lemma_reverse_ok_pointwise(slots, cells, 0);
}

/// Unknown-tag decode: a shadow instance whose discriminator matches no
/// known tag reverses to `InvalidVariant` carrying the raw text unchanged.
pub proof fn lemma_invalid_variant(s: ShadowModel, inst: InstanceModel)
    requires
        forall|k: int| 0 <= k < s.variants.len() ==> (#[trigger] s.variants[k]).tag != inst.kind,
    ensures
        reverse_union_spec(s, inst) == Result::Err::<(int, Seq<ValModel>), MappingErrModel>(
            MappingErrModel::InvalidVariant(inst.kind),
        ),
{
    lemma_tag_match_none(s.variants, inst.kind, 0);
}

proof fn lemma_tag_match_none(vars: Seq<crate::shadow::VariantSlotsModel>, kind: Seq<char>, i: int)
    requires
        forall|k: int| 0 <= k < vars.len() ==> (#[trigger] vars[k]).tag != kind,
    ensures
        tag_match(vars, kind, i) is None,
    decreases vars.len() - i,
{
    if 0 <= i < vars.len() {
        lemma_tag_match_none(vars, kind, i + 1);
    }
}

// ---------------------------------------------------------------------------
// Bypass laws.
// ---------------------------------------------------------------------------

/// Newtype bypass: a one-positional-field record's cell codec equals the
/// inner type's codec exactly, on encode and on decode; no shadow record
/// takes part (the binding carries the inner type alone).
pub proof fn lemma_newtype_bypass(t: DeclaredType, v: ValModel, c: Option<ValModel>)
    ensures
        encode_cell_spec(CellBindingModel::Newtype(t), DomainModel::Record(seq![v])) == (
        match encode_value_spec(v) {
            Option::Some(w) => Option::Some(EncodedCellModel::Plain(w)),
            Option::None => Option::None,
        }),
        decode_cell_spec(
            CellBindingModel::Newtype(t),
            CellTypeModel::Plain(t),
            match c {
                Option::Some(w) => Option::Some(EncodedCellModel::Plain(w)),
                Option::None => Option::None,
            },
        ) == (match decode_value_spec(t, c) {
            Result::Ok(w) => Result::Ok::<DomainModel, DecodeErrModel>(
                DomainModel::Record(seq![w]),
            ),
            Result::Err(e) => Result::Err(e),
        }),
{
    assert(seq![v][0] == v);
    assert(cell_check_spec(CellBindingModel::Newtype(t), CellTypeModel::Plain(t)));
}

/// Enumeration bypass: a fieldless-variants-only union encodes to exactly
/// its snake_case tag text, and text matching no tag fails through the
/// text-parse path, carrying the raw text.
pub proof fn lemma_string_enum_bypass(tags: Seq<Seq<char>>, vi: int, s: Seq<char>)
    ensures
        0 <= vi < tags.len() ==> encode_cell_spec(
            CellBindingModel::StringEnum(tags),
            DomainModel::Variant(vi, Seq::empty()),
        ) == Option::Some(EncodedCellModel::Plain(ValModel::Text(tags[vi]))),
        (forall|k: int| 0 <= k < tags.len() ==> tags[k] != s) ==> decode_cell_spec(
            CellBindingModel::StringEnum(tags),
            CellTypeModel::Plain(DeclaredType::Text),
            Option::Some(EncodedCellModel::Plain(ValModel::Text(s))),
        ) == Result::Err::<DomainModel, DecodeErrModel>(DecodeErrModel::Parse(s)),
        (forall|a: int, b: int| 0 <= a < b < tags.len() ==> tags[a] != tags[b]) && 0 <= vi
            < tags.len() ==> decode_cell_spec(
            CellBindingModel::StringEnum(tags),
            CellTypeModel::Plain(DeclaredType::Text),
            encode_cell_spec(
                CellBindingModel::StringEnum(tags),
                DomainModel::Variant(vi, Seq::empty()),
            ),
        ) == Result::Ok::<DomainModel, DecodeErrModel>(DomainModel::Variant(vi, Seq::empty())),
{
    if forall|k: int| 0 <= k < tags.len() ==> tags[k] != s {
        lemma_tag_index_none(tags, s, 0);
    }
    if (forall|a: int, b: int| 0 <= a < b < tags.len() ==> tags[a] != tags[b]) && 0 <= vi
        < tags.len() {
        lemma_tag_index_finds(tags, vi, 0);
    }
}

proof fn lemma_tag_index_none(tags: Seq<Seq<char>>, s: Seq<char>, i: int)
    requires
        forall|k: int| 0 <= k < tags.len() ==> tags[k] != s,
    ensures
        tag_index(tags, s, i) is None,
    decreases tags.len() - i,
{
    if 0 <= i < tags.len() {
        lemma_tag_index_none(tags, s, i + 1);
    }
}

proof fn lemma_tag_index_finds(tags: Seq<Seq<char>>, vi: int, i: int)
    requires
        0 <= i <= vi < tags.len(),
        forall|a: int, b: int| 0 <= a < b < tags.len() ==> tags[a] != tags[b],
    ensures
        tag_index(tags, tags[vi], i) == Option::Some(vi),
    decreases vi - i,
{
    if i < vi {
        lemma_tag_index_finds(tags, vi, i + 1);
    }
}

// ---------------------------------------------------------------------------
// Cell-level round trips.
// ---------------------------------------------------------------------------

/// End-to-end round trip of a mapped record's cell codec: decoding the
/// encoded cell against the matching wire type reconstructs the value.
pub proof fn lemma_cell_record_round_trip(s: ShadowModel, vals: Seq<ValModel>)
    requires
        vals.len() == s.slots.len(),
        forall|k: int|
            0 <= k < s.slots.len() ==> ((#[trigger] s.slots[k].policy) is Direct ==> vals[k] is Opt),
    ensures
        decode_cell_spec(
            CellBindingModel::MappedRecord(s),
            CellTypeModel::Udt(shadow_columns(s)),
            encode_cell_spec(CellBindingModel::MappedRecord(s), DomainModel::Record(vals)),
        ) == Result::Ok::<DomainModel, DecodeErrModel>(DomainModel::Record(vals)),
{
    lemma_record_instance_round_trip(s, vals);
}

/// End-to-end round trip of a mapped union's cell codec.
pub proof fn lemma_cell_union_round_trip(s: ShadowModel, vi: int, vals: Seq<ValModel>)
    requires
        ranges_wf(s),
        0 <= vi < s.variants.len(),
        vals.len() == s.variants[vi].count,
        forall|a: int, b: int|
            0 <= a < b < s.variants.len() ==> (#[trigger] s.variants[a].tag) != (
            #[trigger] s.variants[b].tag),
        forall|j: int|
            0 <= j < s.variants[vi].count ==> ((#[trigger] s.slots[s.variants[vi].start
                + j].policy) is Direct ==> vals[j] is Opt),
    ensures
        decode_cell_spec(
            CellBindingModel::MappedUnion(s),
            CellTypeModel::Udt(shadow_columns(s)),
            encode_cell_spec(CellBindingModel::MappedUnion(s), DomainModel::Variant(vi, vals)),
        ) == Result::Ok::<DomainModel, DecodeErrModel>(DomainModel::Variant(vi, vals)),
{
    lemma_union_round_trip(s, vi, vals);
}

} // verus!
