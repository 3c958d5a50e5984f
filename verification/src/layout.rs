//! Structural reflection over interleaved vertex records.
//!
//! A vertex record is a fixed-size, tightly packed value made of named fields,
//! each a run of 32-bit numeric components.  A [`RecordLayout`] describes such
//! a record and derives every byte offset and component count structurally
//! from the declared field list, so that attribute bindings can never
//! desynchronize from the record's actual memory layout.

use vstd::prelude::*;

use crate::text::str_eq;

verus! {

/// Byte size of one numeric component of a vertex record (a 32-bit scalar).
pub const COMPONENT_BYTES: u32 = 4;

/// One named field of an interleaved vertex record: `components` numeric
/// components, each `COMPONENT_BYTES` bytes wide, stored tightly packed.
#[derive(Debug)]
pub struct VertexField {
    pub name: String,
    pub components: u32,
}

/// Total number of numeric components of the fields, in declaration order.
pub open spec fn comps_sum(fields: Seq<VertexField>) -> int
    decreases fields.len(),
{
    if fields.len() == 0 {
        0
    } else {
        comps_sum(fields.drop_last()) + fields.last().components
    }
}

/// Byte offset of field `i`: the packed byte size of all fields before it.
pub open spec fn spec_offset(fields: Seq<VertexField>, i: int) -> int {
    (COMPONENT_BYTES as int) * comps_sum(fields.take(i))
}

/// Whether some field is named `name`.
pub open spec fn has_field(fields: Seq<VertexField>, name: Seq<char>) -> bool {
    exists|i: int| 0 <= i < fields.len() && fields[i].name@ == name
}

/// Index of the first field named `name`, or `-1` when there is none.
pub open spec fn field_index(fields: Seq<VertexField>, name: Seq<char>) -> int
    decreases fields.len(),
{
    if fields.len() == 0 {
        -1
    } else if fields[0].name@ == name {
        0
    } else {
        let rest = field_index(fields.skip(1), name);
        if rest < 0 {
            -1
        } else {
            1 + rest
        }
    }
}

/// A well-formed field list: every field has at least one component and a
/// non-empty name, names are distinct, and the packed record size fits a
/// 32-bit byte count.
pub open spec fn fields_wf(fields: Seq<VertexField>) -> bool {
    &&& forall|i: int| 0 <= i < fields.len() ==> 1 <= #[trigger] fields[i].components
    &&& forall|i: int| 0 <= i < fields.len() ==> #[trigger] fields[i].name@.len() >= 1
    &&& forall|i: int, j: int|
        0 <= i < j < fields.len() ==> #[trigger] fields[i].name@ != #[trigger] fields[j].name@
    &&& (COMPONENT_BYTES as int) * comps_sum(fields) <= u32::MAX
}

pub proof fn lemma_comps_sum_nonneg(fields: Seq<VertexField>)
    ensures
        0 <= comps_sum(fields),
    decreases fields.len(),
{
    if fields.len() > 0 {
        lemma_comps_sum_nonneg(fields.drop_last());
    }
}

/// Taking one more field adds exactly that field's component count.
pub proof fn lemma_comps_sum_take_succ(fields: Seq<VertexField>, i: int)
    requires
        0 <= i < fields.len(),
    ensures
        comps_sum(fields.take(i + 1)) == comps_sum(fields.take(i)) + fields[i].components,
{
    assert(fields.take(i + 1).drop_last() =~= fields.take(i));
    assert(fields.take(i + 1).last() == fields[i]);
}

/// A prefix of the fields never has more components than the whole record.
pub proof fn lemma_comps_sum_take_le(fields: Seq<VertexField>, i: int)
    requires
        0 <= i <= fields.len(),
    ensures
        comps_sum(fields.take(i)) <= comps_sum(fields),
    decreases fields.len() - i,
{
    if i == fields.len() {
        assert(fields.take(i) =~= fields);
    } else {
        lemma_comps_sum_take_succ(fields, i);
        lemma_comps_sum_take_le(fields, i + 1);
    }
}

/// The first field of a record starts at byte offset zero.
pub proof fn lemma_offset_first(fields: Seq<VertexField>)
    ensures
        spec_offset(fields, 0) == 0,
{
    assert(fields.take(0) =~= Seq::<VertexField>::empty());
}

/// Each field starts exactly where the one before it ends: its byte offset is
/// the previous field's offset plus the previous field's packed byte size.
/// This holds for every field list, whatever the declaration order.
pub proof fn lemma_offset_step(fields: Seq<VertexField>, i: int)
    requires
        0 <= i < fields.len(),
    ensures
        spec_offset(fields, i + 1) == spec_offset(fields, i) + (COMPONENT_BYTES as int)
            * fields[i].components,
{
    lemma_comps_sum_take_succ(fields, i);
}

/// Describes one interleaved vertex record type.  Offsets, component counts
/// and the stride are all computed from the declared field list, never
/// hand-maintained.
#[derive(Debug)]
pub struct RecordLayout {
    fields: Vec<VertexField>,
}

impl RecordLayout {
    /// The fields of the record, in declaration order.
    pub closed spec fn spec_fields(&self) -> Seq<VertexField> {
        self.fields@
    }

    #[verifier::type_invariant]
    spec fn inv(&self) -> bool {
        fields_wf(self.fields@)
    }

    /// Builds a layout from a field list; rejects exactly the field lists
    /// that are not well-formed.
    pub fn new(fields: Vec<VertexField>) -> (r: Option<RecordLayout>)
        ensures
            r is Some <==> fields_wf(fields@),
            r is Some ==> r->0.spec_fields() == fields@,
    {
        let n = fields.len();
        let mut total: u32 = 0;
        let mut i: usize = 0;
        while i < n
            invariant
                n == fields@.len(),
                i <= n,
                total == comps_sum(fields@.take(i as int)),
                (COMPONENT_BYTES as int) * (total as int) <= u32::MAX,
                forall|k: int| 0 <= k < i ==> 1 <= #[trigger] fields@[k].components,
                forall|k: int| 0 <= k < i ==> #[trigger] fields@[k].name@.len() >= 1,
                forall|k: int, l: int|
                    0 <= k < l < i ==> #[trigger] fields@[k].name@ != #[trigger] fields@[l].name@,
            decreases n - i,
        {
            if fields[i].components < 1 {
                return None;
            }
            if fields[i].name.as_str().is_empty() {
                return None;
            }
            let mut j: usize = 0;
            while j < i
                invariant
                    i < n,
                    n == fields@.len(),
                    j <= i,
                    forall|k: int| 0 <= k < j ==> #[trigger] fields@[k].name@ != fields@[i as int].name@,
                decreases i - j,
            {
                if str_eq(fields[j].name.as_str(), fields[i].name.as_str()) {
                    return None;
                }
                j += 1;
            }
            let c = fields[i].components;
            if c > u32::MAX / COMPONENT_BYTES - total {
                proof {
                    lemma_comps_sum_take_succ(fields@, i as int);
                    lemma_comps_sum_take_le(fields@, i as int + 1);
                }
                return None;
            }
            proof {
                lemma_comps_sum_take_succ(fields@, i as int);
            }
            total = total + c;
            i += 1;
        }
        proof {
            assert(fields@.take(n as int) =~= fields@);
        }
        Some(RecordLayout { fields })
    }

    /// Number of numeric components in one whole record.
    pub fn total_components(&self) -> (r: u32)
        ensures
            r == comps_sum(self.spec_fields()),
    {
        proof {
            use_type_invariant(self);
        }
        let n = self.fields.len();
        let mut total: u32 = 0;
        let mut i: usize = 0;
        while i < n
            invariant
                n == self.fields@.len(),
                i <= n,
                fields_wf(self.fields@),
                total == comps_sum(self.fields@.take(i as int)),
            decreases n - i,
        {
            proof {
                lemma_comps_sum_take_succ(self.fields@, i as int);
                lemma_comps_sum_take_le(self.fields@, i as int + 1);
                lemma_comps_sum_nonneg(self.fields@.take(i as int));
            }
            total = total + self.fields[i].components;
            i += 1;
        }
        proof {
            assert(self.fields@.take(n as int) =~= self.fields@);
        }
        total
    }

    /// Packed byte size of one whole record: the distance from one record to
    /// the next in an interleaved buffer.
    pub fn stride(&self) -> (r: u32)
        ensures
            r == (COMPONENT_BYTES as int) * comps_sum(self.spec_fields()),
    {
        let total = self.total_components();
        proof {
            use_type_invariant(self);
            lemma_comps_sum_nonneg(self.fields@);
        }
        total * COMPONENT_BYTES
    }

    /// Byte offset of the named field within one record, derived from the
    /// field list; `None` exactly when no field has that name.
    pub fn offset_of(&self, name: &str) -> (r: Option<u32>)
        ensures
            r is Some <==> has_field(self.spec_fields(), name@),
            r is Some ==> r->0 == spec_offset(
                self.spec_fields(),
                field_index(self.spec_fields(), name@),
            ),
    {
        proof {
            use_type_invariant(self);
        }
        let n = self.fields.len();
        let mut total: u32 = 0;
        let mut i: usize = 0;
        while i < n
            invariant
                n == self.fields@.len(),
                i <= n,
                fields_wf(self.fields@),
                total == comps_sum(self.fields@.take(i as int)),
                forall|k: int| 0 <= k < i ==> #[trigger] self.fields@[k].name@ != name@,
            decreases n - i,
        {
            if str_eq(self.fields[i].name.as_str(), name) {
                proof {
                    lemma_field_index_first(self.fields@, name@, i as int);
                    lemma_comps_sum_take_le(self.fields@, i as int);
                    lemma_comps_sum_nonneg(self.fields@.take(i as int));
                }
                return Some(total * COMPONENT_BYTES);
            }
            proof {
                lemma_comps_sum_take_succ(self.fields@, i as int);
                lemma_comps_sum_take_le(self.fields@, i as int + 1);
                lemma_comps_sum_nonneg(self.fields@.take(i as int));
            }
            total = total + self.fields[i].components;
            i += 1;
        }
        None
    }

    /// Component count of the named field; `None` exactly when no field has
    /// that name.
    pub fn components_of(&self, name: &str) -> (r: Option<u32>)
        ensures
            r is Some <==> has_field(self.spec_fields(), name@),
            r is Some ==> r->0 == self.spec_fields()[field_index(
                self.spec_fields(),
                name@,
            )].components,
    {
        proof {
            use_type_invariant(self);
        }
        let n = self.fields.len();
        let mut i: usize = 0;
        while i < n
            invariant
                n == self.fields@.len(),
                i <= n,
                forall|k: int| 0 <= k < i ==> #[trigger] self.fields@[k].name@ != name@,
            decreases n - i,
        {
            if str_eq(self.fields[i].name.as_str(), name) {
                proof {
                    lemma_field_index_first(self.fields@, name@, i as int);
                }
                return Some(self.fields[i].components);
            }
            i += 1;
        }
        None
    }
}

/// When `fields[i]` is the first field named `name`, `field_index` says so.
pub proof fn lemma_field_index_first(fields: Seq<VertexField>, name: Seq<char>, i: int)
    requires
        0 <= i < fields.len(),
        fields[i].name@ == name,
        forall|k: int| 0 <= k < i ==> #[trigger] fields[k].name@ != name,
    ensures
        field_index(fields, name) == i,
        has_field(fields, name),
    decreases fields.len(),
{
    if i == 0 {
    } else {
        assert(fields[0].name@ != name);
        lemma_field_index_first(fields.skip(1), name, i - 1);
        assert(forall|k: int|
            0 <= k < i - 1 ==> #[trigger] fields.skip(1)[k].name@ == fields[k + 1].name@);
    }
}

} // verus!
