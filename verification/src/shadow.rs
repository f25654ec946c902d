use vstd::prelude::*;
use crate::schema::{
    FieldDef, FieldModel, MappingPolicy, VariantDef, VariantModel, fields_view, policy_of,
    policy_of_exec, variants_view,
};
use crate::text::{dec_of, index_text, push_char, push_str, snake_case, snake_of, str_eq};
use crate::value::{DeclaredType, ty_clone};

verus! {

// ---------------------------------------------------------------------------
// Shadow schema data.
// ---------------------------------------------------------------------------

/// One slot of the shadow record: its derived identifier, its (nullable)
/// declared type and the mapping policy of the domain field behind it.
#[derive(Debug)]
pub struct SlotDef {
    pub ident: String,
    pub ty: DeclaredType,
    pub policy: MappingPolicy,
}

/// Mathematical model of a `SlotDef`.
pub struct SlotModel {
    pub ident: Seq<char>,
    pub ty: DeclaredType,
    pub policy: MappingPolicy,
}

impl View for SlotDef {
    type V = SlotModel;

    open spec fn view(&self) -> SlotModel {
        SlotModel { ident: self.ident@, ty: self.ty, policy: self.policy }
    }
}

/// The models of a sequence of slots.
pub open spec fn slots_view(s: Seq<SlotDef>) -> Seq<SlotModel> {
    Seq::new(s.len(), |i: int| s[i]@)
}

/// The slot range of one union variant inside the flat shadow record.
#[derive(Debug)]
pub struct VariantSlots {
    pub tag: String,
    pub start: usize,
    pub count: usize,
}

/// Mathematical model of a `VariantSlots`.
pub struct VariantSlotsModel {
    pub tag: Seq<char>,
    pub start: int,
    pub count: int,
}

impl View for VariantSlots {
    type V = VariantSlotsModel;

    open spec fn view(&self) -> VariantSlotsModel {
        VariantSlotsModel {
            tag: self.tag@,
            start: self.start as int,
            count: self.count as int,
        }
    }
}

/// The models of a sequence of variant ranges.
pub open spec fn ranges_view(s: Seq<VariantSlots>) -> Seq<VariantSlotsModel> {
    Seq::new(s.len(), |i: int| s[i]@)
}

/// The synthesized nullable storage record standing in for a domain type.
/// For unions it additionally carries the discriminator flag and the slot
/// range of each variant.
#[derive(Debug)]
pub struct ShadowSchema {
    pub has_discriminator: bool,
    pub slots: Vec<SlotDef>,
    pub variants: Vec<VariantSlots>,
}

/// Mathematical model of a `ShadowSchema`.
pub struct ShadowModel {
    pub has_discriminator: bool,
    pub slots: Seq<SlotModel>,
    pub variants: Seq<VariantSlotsModel>,
}

impl View for ShadowSchema {
    type V = ShadowModel;

    open spec fn view(&self) -> ShadowModel {
        ShadowModel {
            has_discriminator: self.has_discriminator,
            slots: slots_view(self.slots@),
            variants: ranges_view(self.variants@),
        }
    }
}

// ---------------------------------------------------------------------------
// Slot derivation.
// ---------------------------------------------------------------------------

/// The slot's declared type: unchanged if already optional, else wrapped.
pub open spec fn slot_ty_of(t: DeclaredType) -> DeclaredType {
    if t is Optional {
        t
    } else {
        DeclaredType::Optional(Box::new(t))
    }
}

/// The derived slot identifier: the prefix, then the field's own name or,
/// for a positional field, its index as decimal text.
pub open spec fn slot_ident_model(prefix: Seq<char>, f: FieldModel, idx: int) -> Seq<char> {
    prefix + match f.name {
        Option::Some(n) => n,
        Option::None => dec_of(idx as nat),
    }
}

/// The full slot derived for one field.
pub open spec fn slot_model(prefix: Seq<char>, f: FieldModel, idx: int) -> SlotModel {
    SlotModel {
        ident: slot_ident_model(prefix, f, idx),
        ty: slot_ty_of(f.ty),
        policy: policy_of(f.ty),
    }
}

/// The identifier prefix of a union variant's slots.
pub open spec fn variant_prefix(name: Seq<char>) -> Seq<char> {
    snake_of(name).push('_')
}

fn slot_ty_exec(t: &DeclaredType) -> (r: DeclaredType)
    ensures
        r == slot_ty_of(*t),
{
    if t.is_option() {
        ty_clone(t)
    } else {
        DeclaredType::Optional(Box::new(ty_clone(t)))
    }
}

/// Derives the shadow slot of one field.
fn build_slot(prefix: &String, f: &FieldDef, idx: usize) -> (s: SlotDef)
    ensures
        s@ == slot_model(prefix@, f@, idx as int),
{
    let mut ident = String::new();
    push_str(&mut ident, prefix.as_str());
    match &f.name {
        Option::Some(n) => {
            push_str(&mut ident, n.as_str());
        },
        Option::None => {
            let idx_text = index_text(idx);
            push_str(&mut ident, idx_text.as_str());
        },
    }
    proof {
        assert(ident@ =~= slot_ident_model(prefix@, f@, idx as int));
    }
    SlotDef { ident, ty: slot_ty_exec(&f.ty), policy: policy_of_exec(&f.ty) }
}

// ---------------------------------------------------------------------------
// Record synthesis.
// ---------------------------------------------------------------------------

/// The slot derived for a record field (no prefix).
pub open spec fn record_slot_model(f: FieldModel, idx: int) -> SlotModel {
    slot_model(Seq::empty(), f, idx)
}

/// Whether a shadow model is the one synthesized for a record with the
/// given fields: one slot per field, in field order, no discriminator.
pub open spec fn record_schema_ok(s: ShadowModel, fields: Seq<FieldModel>) -> bool {
    &&& s.has_discriminator == false
    &&& s.variants.len() == 0
    &&& s.slots.len() == fields.len()
    &&& forall|i: int| 0 <= i < fields.len() ==> s.slots[i] == record_slot_model(#[trigger] fields[i], i)
}

/// Synthesizes the shadow record of a generic (non-bypass) record: one slot
/// per field, in field order, with no discriminator.
pub fn synthesize_record(fields: &Vec<FieldDef>) -> (s: ShadowSchema)
    ensures
        record_schema_ok(s@, fields_view(fields@)),
{
    let empty_prefix = String::new();
    let mut slots: Vec<SlotDef> = Vec::new();
    let mut i: usize = 0;
    while i < fields.len()
        invariant
            i <= fields.len(),
            slots@.len() == i,
            empty_prefix@ == Seq::<char>::empty(),
            forall|j: int|
                0 <= j < i ==> slots@[j]@ == record_slot_model(#[trigger] fields@[j]@, j),
        decreases fields.len() - i,
    {
        slots.push(build_slot(&empty_prefix, &fields[i], i));
        i += 1;
    }
    let s = ShadowSchema { has_discriminator: false, slots, variants: Vec::new() };
    proof {
        assert forall|i2: int| 0 <= i2 < fields_view(fields@).len() implies s@.slots[i2]
            == record_slot_model(#[trigger] fields_view(fields@)[i2], i2) by {
            assert(s@.slots[i2] == s.slots@[i2]@);
            assert(fields_view(fields@)[i2] == fields@[i2]@);
        }
    }
    s
}

// ---------------------------------------------------------------------------
// Union synthesis.
// ---------------------------------------------------------------------------

/// The index of the first slot of variant `i`: the sum of the field counts
/// of the variants before it.
pub open spec fn union_start(vs: Seq<VariantModel>, i: int) -> int
    decreases i,
{
    if i <= 0 {
        0
    } else {
        union_start(vs, i - 1) + vs[i - 1].fields.len()
    }
}

/// Whether slot `start + j` of the shadow holds the derived slot of field
/// `j` of variant `k`.
pub open spec fn union_slot_ok(slots: Seq<SlotModel>, vs: Seq<VariantModel>, k: int, j: int) -> bool {
    slots[union_start(vs, k) + j] == slot_model(variant_prefix(vs[k].name), vs[k].fields[j], j)
}

/// Whether range `k` of the shadow describes variant `k`: its snake_case
/// tag, its first slot and its slot count.
pub open spec fn union_range_ok(ranges: Seq<VariantSlotsModel>, vs: Seq<VariantModel>, k: int) -> bool {
    &&& ranges[k].tag == snake_of(vs[k].name)
    &&& ranges[k].start == union_start(vs, k)
    &&& ranges[k].count == vs[k].fields.len()
}

/// Every variant's slot range lies inside the slot table.
pub open spec fn ranges_wf(s: ShadowModel) -> bool {
    forall|k: int|
        0 <= k < s.variants.len() ==> {
            &&& 0 <= (#[trigger] s.variants[k]).start
            &&& 0 <= s.variants[k].count
            &&& s.variants[k].start + s.variants[k].count <= s.slots.len()
        }
}

/// Whether a shadow model is the one synthesized for a union with the given
/// variants: the variants' slots laid out variant by variant, each range
/// described by its tag, start and count, plus the discriminator.
pub open spec fn union_schema_ok(s: ShadowModel, vs: Seq<VariantModel>) -> bool {
    &&& s.has_discriminator == true
    &&& s.variants.len() == vs.len()
    &&& s.slots.len() == union_start(vs, vs.len() as int)
    &&& forall|k: int| 0 <= k < vs.len() ==> #[trigger] union_range_ok(s.variants, vs, k)
    &&& forall|k: int, j: int|
        0 <= k < vs.len() && 0 <= j < vs[k].fields.len() ==> #[trigger] union_slot_ok(
            s.slots,
            vs,
            k,
            j,
        )
    &&& ranges_wf(s)
}

/// Synthesizes the flat shadow record of a generic (non-fieldless) union:
/// the variants' slots laid out variant by variant, each slot identifier
/// prefixed with its variant's snake_case tag, plus the discriminator.
pub fn synthesize_union(variants: &Vec<VariantDef>) -> (s: ShadowSchema)
    ensures
        union_schema_ok(s@, variants_view(variants@)),
{
    let ghost vs = variants_view(variants@);
    let mut slots: Vec<SlotDef> = Vec::new();
    let mut ranges: Vec<VariantSlots> = Vec::new();
    let mut i: usize = 0;
    while i < variants.len()
        invariant
            i <= variants.len(),
            vs == variants_view(variants@),
            vs.len() == variants@.len(),
            ranges@.len() == i,
            slots@.len() == union_start(vs, i as int),
            forall|k: int| 0 <= k < i ==> #[trigger] union_range_ok(ranges_view(ranges@), vs, k),
            forall|k: int, j: int|
                0 <= k < i && 0 <= j < vs[k].fields.len() ==> #[trigger] union_slot_ok(
                    slots_view(slots@),
                    vs,
                    k,
                    j,
                ),
        decreases variants.len() - i,
    {
        let v = &variants[i];
        let tag = snake_case(v.name.as_str());
        let mut prefix = tag.clone();
        push_char(&mut prefix, '_');
        proof {
            assert(vs[i as int] == variants@[i as int]@);
            assert(prefix@ == variant_prefix(vs[i as int].name));
        }
        let start = slots.len();
        let mut j: usize = 0;
        while j < v.fields.len()
            invariant
                j <= v.fields.len(),
                vs == variants_view(variants@),
                vs.len() == variants@.len(),
                i < variants@.len(),
                *v == variants@[i as int],
                vs[i as int] == variants@[i as int]@,
                prefix@ == variant_prefix(vs[i as int].name),
                start == union_start(vs, i as int),
                slots@.len() == start + j,
                forall|k: int, j2: int|
                    0 <= k < i && 0 <= j2 < vs[k].fields.len() ==> #[trigger] union_slot_ok(
                        slots_view(slots@),
                        vs,
                        k,
                        j2,
                    ),
                forall|j2: int|
                    0 <= j2 < j ==> slots_view(slots@)[start + j2] == slot_model(
                        variant_prefix(vs[i as int].name),
                        #[trigger] vs[i as int].fields[j2],
                        j2,
                    ),
            decreases v.fields.len() - j,
        {
            proof {
                assert(vs[i as int].fields[j as int] == v.fields@[j as int]@);
            }
            let ghost pre = slots@;
            slots.push(build_slot(&prefix, &v.fields[j], j));
            proof {
                assert forall|k: int, j2: int|
                    0 <= k < i && 0 <= j2 < vs[k].fields.len() implies #[trigger] union_slot_ok(
                    slots_view(slots@),
                    vs,
                    k,
                    j2,
                ) by {
                    assert(union_slot_ok(slots_view(pre), vs, k, j2));
                    lemma_union_start_nonneg(vs, k);
                    lemma_union_start_bound(vs, k, i as int);
                    assert(slots@[union_start(vs, k) + j2] == pre[union_start(vs, k) + j2]);
                }
                assert forall|j2: int| 0 <= j2 < j + 1 implies slots_view(slots@)[start + j2]
                    == slot_model(
                    variant_prefix(vs[i as int].name),
                    #[trigger] vs[i as int].fields[j2],
                    j2,
                ) by {
                    if j2 < j {
                        assert(slots_view(pre)[start + j2] == slot_model(
                            variant_prefix(vs[i as int].name),
                            vs[i as int].fields[j2],
                            j2,
                        ));
                        assert(slots@[start + j2] == pre[start + j2]);
                    } else {
                        assert(slots@[start + j2] == slots@.last());
                    }
                }
            }
            j += 1;
        }
        let ghost pre_ranges = ranges@;
        ranges.push(VariantSlots { tag, start, count: v.fields.len() });
        proof {
            assert(union_start(vs, i + 1) == union_start(vs, i as int) + vs[i as int].fields.len());
            assert forall|k: int| 0 <= k < i + 1 implies #[trigger] union_range_ok(
                ranges_view(ranges@),
                vs,
                k,
            ) by {
                if k < i {
                    assert(union_range_ok(ranges_view(pre_ranges), vs, k));
                    assert(ranges@[k] == pre_ranges[k]);
                } else {
                    assert(ranges@[k] == ranges@.last());
                }
            }
            assert forall|k: int, j2: int|
                0 <= k < i + 1 && 0 <= j2 < vs[k].fields.len() implies #[trigger] union_slot_ok(
                slots_view(slots@),
                vs,
                k,
                j2,
            ) by {
                if k == i {
                    assert(slots_view(slots@)[start + j2] == slot_model(
                        variant_prefix(vs[k].name),
                        vs[k].fields[j2],
                        j2,
                    ));
                }
            }
        }
        i += 1;
    }
    let s = ShadowSchema { has_discriminator: true, slots, variants: ranges };
    proof {
        assert forall|k: int| 0 <= k < s@.variants.len() implies {
            &&& 0 <= (#[trigger] s@.variants[k]).start
            &&& 0 <= s@.variants[k].count
            &&& s@.variants[k].start + s@.variants[k].count <= s@.slots.len()
        } by {
            assert(union_range_ok(s@.variants, vs, k));
            lemma_union_start_nonneg(vs, k);
            lemma_union_start_bound(vs, k, vs.len() as int);
        }
    }
    s
}

/// `union_start` is a sum of field counts, so it is never negative.
proof fn lemma_union_start_nonneg(vs: Seq<VariantModel>, i: int)
    ensures
        union_start(vs, i) >= 0,
    decreases i,
{
    if i > 0 {
        lemma_union_start_nonneg(vs, i - 1);
    }
}

/// `union_start` grows with the variant index.
proof fn lemma_union_start_bound(vs: Seq<VariantModel>, k: int, i: int)
    requires
        0 <= k < i,
    ensures
        union_start(vs, k) + vs[k].fields.len() <= union_start(vs, i),
    decreases i,
{
    if k + 1 < i {
        lemma_union_start_bound(vs, k, i - 1);
        assert(union_start(vs, i) == union_start(vs, i - 1) + vs[i - 1].fields.len());
    }
}


// ---------------------------------------------------------------------------
// Identifier uniqueness.
// ---------------------------------------------------------------------------

/// Whether every pair of slots carries distinct identifiers.
pub open spec fn idents_distinct(s: ShadowModel) -> bool {
    forall|i: int, j: int|
        0 <= i < j < s.slots.len() ==> (#[trigger] s.slots[i]).ident != (
        #[trigger] s.slots[j]).ident
}

/// Checks that each domain field maps to its own slot identifier. The
/// derivation keeps same-named fields of different variants distinct by
/// variant qualification, but two variant names with one snake_case form
/// would still collide, so the check is explicit.
pub fn idents_unique(schema: &ShadowSchema) -> (r: bool)
    ensures
        r == idents_distinct(schema@),
{
    let n = schema.slots.len();
    let mut i: usize = 0;
    while i < n
        invariant
            i <= n,
            n == schema@.slots.len(),
            forall|a: int, b: int|
                0 <= a < b < n && a < i ==> (#[trigger] schema@.slots[a]).ident != (
                #[trigger] schema@.slots[b]).ident,
        decreases n - i,
    {
        let mut j: usize = i + 1;
        while j < n
            invariant
                i < j <= n,
                n == schema@.slots.len(),
                forall|b: int|
                    i < b < j ==> (#[trigger] schema@.slots[b]).ident != schema@.slots[i as int].ident,
            decreases n - j,
        {
            if str_eq(schema.slots[i].ident.as_str(), schema.slots[j].ident.as_str()) {
                proof {
                    assert(schema@.slots[i as int] == schema.slots@[i as int]@);
                    assert(schema@.slots[j as int] == schema.slots@[j as int]@);
                    if idents_distinct(schema@) {
                        assert(schema@.slots[i as int].ident != schema@.slots[j as int].ident);
                    }
                }
                return false;
            }
            proof {
                assert(schema@.slots[i as int] == schema.slots@[i as int]@);
                assert(schema@.slots[j as int] == schema.slots@[j as int]@);
            }
            j += 1;
        }
        i += 1;
    }
    true
}

} // verus!
