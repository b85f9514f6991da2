//! The planner: an arena of vectorized operators.
//!
//! Each operator writes one buffer, and the buffer is named by the position
//! of its operator in the arena together with its encoding. An operator
//! reads only buffers of earlier operators. The one exception is a
//! placeholder, which is allocated before its producer exists and is later
//! connected to it. The planner records operators; it executes nothing.

use vstd::prelude::*;
use crate::expr::{names_model, Aggregator, Func1Type, Func2Type};
use crate::types::{Codec, EncodingType, QueryError};

verus! {

/// A handle on a buffer: the position of its operator, and its encoding.
#[derive(Clone, Copy, Debug, PartialEq, Eq, Structural)]
pub struct BufferRef {
    pub id: usize,
    pub tag: EncodingType,
}

impl BufferRef {
    /// The handle, provided that the buffer holds a mask without nulls.
    pub fn u8(self) -> (r: Result<BufferRef, QueryError>)
        ensures
            r == if self.tag == EncodingType::U8 {
                Ok::<BufferRef, QueryError>(self)
            } else {
                Err::<BufferRef, QueryError>(QueryError::FatalError)
            },
    {
        match self.tag {
            EncodingType::U8 => Ok(self),
            _ => Err(QueryError::FatalError),
        }
    }

    /// The handle, provided that the buffer holds a mask with nulls.
    pub fn nullable_u8(self) -> (r: Result<BufferRef, QueryError>)
        ensures
            r == if self.tag == EncodingType::NullableU8 {
                Ok::<BufferRef, QueryError>(self)
            } else {
                Err::<BufferRef, QueryError>(QueryError::FatalError)
            },
    {
        match self.tag {
            EncodingType::NullableU8 => Ok(self),
            _ => Err(QueryError::FatalError),
        }
    }

    /// The handle, provided that the buffer holds row indices.
    pub fn usize(self) -> (r: Result<BufferRef, QueryError>)
        ensures
            r == if self.tag == EncodingType::USize {
                Ok::<BufferRef, QueryError>(self)
            } else {
                Err::<BufferRef, QueryError>(QueryError::FatalError)
            },
    {
        match self.tag {
            EncodingType::USize => Ok(self),
            _ => Err(QueryError::FatalError),
        }
    }
}

/// A vectorized operator and the buffers it reads.
#[derive(Clone, Copy, Debug, PartialEq, Eq, Structural)]
pub enum Operator {
    /// The stored values of the column at this position.
    ReadColumn { column: usize },
    /// A scalar integer.
    ScalarI64 { value: i64, positive: bool },
    /// A scalar string: an entry of the planner's constant table.
    ScalarStr { constant: usize },
    /// The scalar null.
    ScalarNull,
    /// `len` placeholder entries.
    NullVec { len: usize },
    /// The row indices `0`, `1`, ... up to the length of `input`.
    Indices { input: BufferRef },
    /// The entries of `input` at which `mask` is nonzero.
    Filter { input: BufferRef, mask: BufferRef },
    /// The entries of `input` at which `mask` is neither zero nor null.
    NullableFilter { input: BufferRef, mask: BufferRef },
    /// The entries of `input` at the positions that `indices` lists, in the
    /// order of `indices`.
    Select { input: BufferRef, indices: BufferRef },
    /// `indices`, reordered by ascending or descending `ranking`.
    SortBy { ranking: BufferRef, indices: BufferRef, desc: bool, stable: bool },
    /// The indices of the `limit` first entries of `ranking` in ascending or
    /// descending order.
    TopN { ranking: BufferRef, limit: usize, desc: bool },
    /// The entries of `input` at which `selector` is nonzero.
    Compact { input: BufferRef, selector: BufferRef },
    /// The nonzero entries of `input`.
    NonzeroCompact { input: BufferRef },
    /// For each key below `cardinality`, whether it occurs in `grouping_key`.
    Exists { grouping_key: BufferRef, cardinality: BufferRef },
    /// The positions of the nonzero entries of `input`.
    NonzeroIndices { input: BufferRef },
    /// The logical values of `input`.
    Decode { input: BufferRef, codec: Codec },
    /// The values of `input` in another integer encoding.
    Cast { input: BufferRef },
    /// A unary function of each entry.
    Func1 { unary: Func1Type, input: BufferRef },
    /// A binary function of the entries of two buffers, or of the entries of
    /// one and a scalar.
    Func2 { binary: Func2Type, left: BufferRef, right: BufferRef },
    /// `high * radix + low`, entry by entry.
    Pack { high: BufferRef, low: BufferRef, radix: i64 },
    /// `(input / divisor) % radix`, entry by entry.
    Unpack { input: BufferRef, divisor: i64, radix: i64 },
    /// One aggregate per grouping key below `cardinality`, over the entries
    /// of `input` that carry the key.
    Aggregate {
        aggregator: Aggregator,
        input: BufferRef,
        grouping_key: BufferRef,
        cardinality: BufferRef,
    },
    /// The distinct values of `raw_key`, in order of first occurrence. The
    /// greatest possible key is a hint for sizing the table.
    HashGroupColumn { raw_key: BufferRef, max_cardinality: usize },
    /// For each entry of `raw_key`, the position of its value among the
    /// distinct values.
    HashGroupKey { raw_key: BufferRef },
    /// The number of distinct values of `raw_key`.
    HashGroupCardinality { raw_key: BufferRef },
    /// A buffer whose producer is not known yet.
    Placeholder,
    /// A placeholder that has been connected: the buffer is `source`.
    Alias { source: BufferRef },
}

impl Operator {
    /// The buffers that the operator reads.
    pub open spec fn inputs(self) -> Seq<BufferRef> {
        match self {
            Operator::ReadColumn { .. } => seq![],
            Operator::ScalarI64 { .. } => seq![],
            Operator::ScalarStr { .. } => seq![],
            Operator::ScalarNull => seq![],
            Operator::NullVec { .. } => seq![],
            Operator::Indices { input } => seq![input],
            Operator::Filter { input, mask } => seq![input, mask],
            Operator::NullableFilter { input, mask } => seq![input, mask],
            Operator::Select { input, indices } => seq![input, indices],
            Operator::SortBy { ranking, indices, .. } => seq![ranking, indices],
            Operator::TopN { ranking, .. } => seq![ranking],
            Operator::Compact { input, selector } => seq![input, selector],
            Operator::NonzeroCompact { input } => seq![input],
            Operator::Exists { grouping_key, cardinality } => seq![grouping_key, cardinality],
            Operator::NonzeroIndices { input } => seq![input],
            Operator::Decode { input, .. } => seq![input],
            Operator::Cast { input } => seq![input],
            Operator::Func1 { input, .. } => seq![input],
            Operator::Func2 { left, right, .. } => seq![left, right],
            Operator::Pack { high, low, .. } => seq![high, low],
            Operator::Unpack { input, .. } => seq![input],
            Operator::Aggregate { input, grouping_key, cardinality, .. } => seq![
                input,
                grouping_key,
                cardinality,
            ],
            Operator::HashGroupColumn { raw_key, .. } => seq![raw_key],
            Operator::HashGroupKey { raw_key } => seq![raw_key],
            Operator::HashGroupCardinality { raw_key } => seq![raw_key],
            Operator::Placeholder => seq![],
            Operator::Alias { source } => seq![source],
        }
    }

    /// The buffers that the operator reads.
    pub fn input_buffers(&self) -> (v: Vec<BufferRef>)
        ensures
            v@ == self.inputs(),
    {
        let mut v: Vec<BufferRef> = Vec::new();
        match *self {
            Operator::ReadColumn { .. } => {},
            Operator::ScalarI64 { .. } => {},
            Operator::ScalarStr { .. } => {},
            Operator::ScalarNull => {},
            Operator::NullVec { .. } => {},
            Operator::Indices { input } => {
                v.push(input);
            },
            Operator::Filter { input, mask } => {
                v.push(input);
                v.push(mask);
            },
            Operator::NullableFilter { input, mask } => {
                v.push(input);
                v.push(mask);
            },
            Operator::Select { input, indices } => {
                v.push(input);
                v.push(indices);
            },
            Operator::SortBy { ranking, indices, .. } => {
                v.push(ranking);
                v.push(indices);
            },
            Operator::TopN { ranking, .. } => {
                v.push(ranking);
            },
            Operator::Compact { input, selector } => {
                v.push(input);
                v.push(selector);
            },
            Operator::NonzeroCompact { input } => {
                v.push(input);
            },
            Operator::Exists { grouping_key, cardinality } => {
                v.push(grouping_key);
                v.push(cardinality);
            },
            Operator::NonzeroIndices { input } => {
                v.push(input);
            },
            Operator::Decode { input, .. } => {
                v.push(input);
            },
            Operator::Cast { input } => {
                v.push(input);
            },
            Operator::Func1 { input, .. } => {
                v.push(input);
            },
            Operator::Func2 { left, right, .. } => {
                v.push(left);
                v.push(right);
            },
            Operator::Pack { high, low, .. } => {
                v.push(high);
                v.push(low);
            },
            Operator::Unpack { input, .. } => {
                v.push(input);
            },
            Operator::Aggregate { input, grouping_key, cardinality, .. } => {
                v.push(input);
                v.push(grouping_key);
                v.push(cardinality);
            },
            Operator::HashGroupColumn { raw_key, .. } => {
                v.push(raw_key);
            },
            Operator::HashGroupKey { raw_key } => {
                v.push(raw_key);
            },
            Operator::HashGroupCardinality { raw_key } => {
                v.push(raw_key);
            },
            Operator::Placeholder => {},
            Operator::Alias { source } => {
                v.push(source);
            },
        }
        v
    }
}

/// One entry of the arena: an operator and the encoding of what it writes.
#[derive(Clone, Copy, Debug, PartialEq, Eq, Structural)]
pub struct Node {
    pub op: Operator,
    pub tag: EncodingType,
}

/// The operator graph under construction.
#[derive(Debug)]
pub struct QueryPlanner {
    pub nodes: Vec<Node>,
    /// The string constants that scalar operators refer to.
    pub constants: Vec<String>,
}

/// The view of a planner.
pub struct PlanModel {
    pub nodes: Seq<Node>,
    pub constants: Seq<Seq<char>>,
}

impl View for QueryPlanner {
    type V = PlanModel;

    open spec fn view(&self) -> PlanModel {
        PlanModel { nodes: self.nodes@, constants: names_model(self.constants@) }
    }
}

impl PlanModel {
    /// The plan without operators.
    pub open spec fn empty() -> PlanModel {
        PlanModel { nodes: seq![], constants: seq![] }
    }

    /// Whether `buffer` names a buffer of the plan.
    pub open spec fn holds(self, buffer: BufferRef) -> bool {
        buffer.id < self.nodes.len() && self.nodes[buffer.id as int].tag == buffer.tag
    }

    /// Whether `buffer` names a buffer that an operator before position
    /// `limit` writes.
    pub open spec fn precedes(self, buffer: BufferRef, limit: int) -> bool {
        buffer.id < limit && self.holds(buffer)
    }

    /// Whether the operator `op`, writing a buffer encoded as `tag`, may
    /// stand at position `at`.
    pub open spec fn admits(self, at: int, op: Operator, tag: EncodingType) -> bool {
        match op {
            Operator::Alias { source } => self.holds(source) && source.tag == tag && source.id
                != at,
            Operator::ScalarStr { constant } => constant < self.constants.len(),
            _ => forall|k: int|
                0 <= k < op.inputs().len() ==> self.precedes(#[trigger] op.inputs()[k], at),
        }
    }

    /// Every operator reads buffers that exist, and, unless it is a
    /// connected placeholder, only buffers of earlier operators.
    pub open spec fn well_formed(self) -> bool {
        forall|i: int|
            0 <= i < self.nodes.len() ==> self.admits(
                i,
                (#[trigger] self.nodes[i]).op,
                self.nodes[i].tag,
            )
    }

    /// Whether the plan has no placeholder, connected or not, so that every
    /// operator reads only buffers of earlier operators.
    pub open spec fn direct(self) -> bool {
        forall|i: int|
            0 <= i < self.nodes.len() ==> !((#[trigger] self.nodes[i]).op is Placeholder)
                && !(self.nodes[i].op is Alias)
    }

    /// The handle of the next buffer, if it is encoded as `tag`.
    pub open spec fn next(self, tag: EncodingType) -> BufferRef {
        BufferRef { id: self.nodes.len() as usize, tag }
    }

    /// The plan with one more operator.
    pub open spec fn emit(self, op: Operator, tag: EncodingType) -> PlanModel {
        PlanModel { nodes: self.nodes.push(Node { op, tag }), constants: self.constants }
    }

    /// The plan with one more string constant.
    pub open spec fn with_constant(self, value: Seq<char>) -> PlanModel {
        PlanModel { nodes: self.nodes, constants: self.constants.push(value) }
    }

    /// The plan with the placeholder at `placeholder` connected to `source`.
    pub open spec fn connect(self, source: BufferRef, placeholder: BufferRef) -> PlanModel {
        PlanModel {
            nodes: self.nodes.update(
                placeholder.id as int,
                Node { op: Operator::Alias { source }, tag: placeholder.tag },
            ),
            constants: self.constants,
        }
    }

    /// Whether `later` has all buffers of `self`, with the same encodings,
    /// and all its constants.
    pub open spec fn extends_to(self, later: PlanModel) -> bool {
        &&& self.nodes.len() <= later.nodes.len()
        &&& forall|i: int|
            0 <= i < self.nodes.len() ==> (#[trigger] later.nodes[i]).tag == self.nodes[i].tag
        &&& self.constants.len() <= later.constants.len()
    }
}

/// Emitting an admitted operator keeps a plan well formed, and keeps every
/// buffer that the plan had.
pub proof fn lemma_emit(plan: PlanModel, op: Operator, tag: EncodingType)
    requires
        plan.well_formed(),
        plan.admits(plan.nodes.len() as int, op, tag),
    ensures
        plan.emit(op, tag).well_formed(),
        plan.extends_to(plan.emit(op, tag)),
        plan.nodes.len() <= usize::MAX ==> plan.emit(op, tag).holds(plan.next(tag)),
        plan.direct() && !(op is Placeholder) && !(op is Alias) ==> plan.emit(op, tag).direct(),
{
    let later = plan.emit(op, tag);
    if plan.direct() && !(op is Placeholder) && !(op is Alias) {
        assert forall|i: int| 0 <= i < later.nodes.len() implies !((#[trigger] later.nodes[i]).op
            is Placeholder) && !(later.nodes[i].op is Alias) by {
            if i < plan.nodes.len() {
                assert(later.nodes[i] == plan.nodes[i]);
            }
        }
    }
    assert forall|i: int| 0 <= i < later.nodes.len() implies later.admits(
        i,
        (#[trigger] later.nodes[i]).op,
        later.nodes[i].tag,
    ) by {
        let node = later.nodes[i];
        if i < plan.nodes.len() {
            assert(plan.admits(i, plan.nodes[i].op, plan.nodes[i].tag));
        }
        assert forall|k: int| 0 <= k < node.op.inputs().len() implies later.precedes(
            #[trigger] node.op.inputs()[k],
            i,
        ) || node.op is Alias || node.op is ScalarStr by {
            if !(node.op is Alias) && !(node.op is ScalarStr) {
                assert(plan.precedes(node.op.inputs()[k], i));
            }
        }
    }
}

/// Connecting a placeholder keeps a plan well formed, and keeps every buffer
/// that the plan had.
pub proof fn lemma_connect(plan: PlanModel, source: BufferRef, placeholder: BufferRef)
    requires
        plan.well_formed(),
        plan.holds(source),
        plan.holds(placeholder),
        source.tag == placeholder.tag,
        source.id != placeholder.id,
    ensures
        plan.connect(source, placeholder).well_formed(),
        plan.extends_to(plan.connect(source, placeholder)),
        plan.connect(source, placeholder).extends_to(plan),
{
    let later = plan.connect(source, placeholder);
    assert forall|i: int| 0 <= i < later.nodes.len() implies later.admits(
        i,
        (#[trigger] later.nodes[i]).op,
        later.nodes[i].tag,
    ) by {
        let node = later.nodes[i];
        if i != placeholder.id {
            assert(plan.admits(i, plan.nodes[i].op, plan.nodes[i].tag));
            assert forall|k: int| 0 <= k < node.op.inputs().len() implies later.precedes(
                #[trigger] node.op.inputs()[k],
                i,
            ) || node.op is Alias || node.op is ScalarStr by {
                if !(node.op is Alias) && !(node.op is ScalarStr) {
                    assert(plan.precedes(node.op.inputs()[k], i));
                }
            }
        }
    }
}

/// A plan that extends an extension of a plan extends the plan.
pub proof fn lemma_extends_transitive(first: PlanModel, second: PlanModel, third: PlanModel)
    requires
        first.extends_to(second),
        second.extends_to(third),
    ensures
        first.extends_to(third),
{
    assert forall|i: int| 0 <= i < first.nodes.len() implies (#[trigger] third.nodes[i]).tag
        == first.nodes[i].tag by {
        assert(second.nodes[i].tag == first.nodes[i].tag);
    }
}

/// What holds after the planner has recorded the operator `op`, writing the
/// buffer `r` encoded as `tag`: the operator is the last of the plan, `r` is
/// its buffer, the plan is well formed, and every buffer that the plan had is
/// still there.
pub open spec fn emitted(
    before: PlanModel,
    after: PlanModel,
    r: BufferRef,
    op: Operator,
    tag: EncodingType,
) -> bool {
    &&& after == before.emit(op, tag)
    &&& r == before.next(tag)
    &&& r.id == before.nodes.len()
    &&& after.well_formed()
    &&& after.holds(r)
    &&& before.extends_to(after)
    &&& before.direct() && !(op is Placeholder) && !(op is Alias) ==> after.direct()
}

impl Default for QueryPlanner {
    fn default() -> (planner: QueryPlanner)
        ensures
            planner@ == PlanModel::empty(),
            planner.well_formed(),
    {
        QueryPlanner::new()
    }
}

impl QueryPlanner {
    /// Whether the planner's graph is well formed.
    pub open spec fn well_formed(&self) -> bool {
        self@.well_formed()
    }

    /// A planner without operators.
    pub fn new() -> (planner: QueryPlanner)
        ensures
            planner@ == PlanModel::empty(),
            planner.well_formed(),
    {
        let planner = QueryPlanner { nodes: Vec::new(), constants: Vec::new() };
        assert(planner@.constants == Seq::<Seq<char>>::empty());
        planner
    }

    fn emit(&mut self, op: Operator, tag: EncodingType) -> (r: BufferRef)
        requires
            old(self).well_formed(),
            old(self)@.admits(old(self).nodes@.len() as int, op, tag),
        ensures
            emitted(old(self)@, final(self)@, r, op, tag),
    {
        let id = self.nodes.len();
        proof {
            lemma_emit(self@, op, tag);
        }
        self.nodes.push(Node { op, tag });
        BufferRef { id, tag }
    }

    /// Reads the stored values of the column at position `column`.
    pub fn read_column(&mut self, column: usize, tag: EncodingType) -> (r: BufferRef)
        requires
            old(self).well_formed(),
        ensures
            emitted(old(self)@, final(self)@, r, Operator::ReadColumn { column }, tag),
    {
        self.emit(Operator::ReadColumn { column }, tag)
    }

    /// Injects a scalar integer.
    pub fn scalar_i64(&mut self, value: i64, positive: bool) -> (r: BufferRef)
        requires
            old(self).well_formed(),
        ensures
            emitted(
                old(self)@,
                final(self)@,
                r,
                Operator::ScalarI64 { value, positive },
                EncodingType::ScalarI64,
            ),
    {
        self.emit(Operator::ScalarI64 { value, positive }, EncodingType::ScalarI64)
    }

    /// Injects a scalar string.
    pub fn scalar_str(&mut self, value: String) -> (r: BufferRef)
        requires
            old(self).well_formed(),
        ensures
            emitted(
                old(self)@.with_constant(value@),
                final(self)@,
                r,
                Operator::ScalarStr { constant: old(self).constants@.len() as usize },
                EncodingType::ScalarStr,
            ),
            old(self)@.extends_to(final(self)@),
    {
        let constant = self.constants.len();
        let ghost before = self@;
        self.constants.push(value);
        assert(names_model(self.constants@) =~= before.constants.push(value@));
        assert(self@ == before.with_constant(value@));
        assert(self@.well_formed()) by {
            assert forall|i: int| 0 <= i < self@.nodes.len() implies self@.admits(
                i,
                (#[trigger] self@.nodes[i]).op,
                self@.nodes[i].tag,
            ) by {
                assert(before.admits(i, before.nodes[i].op, before.nodes[i].tag));
            }
        }
        self.emit(Operator::ScalarStr { constant }, EncodingType::ScalarStr)
    }

    /// Injects the scalar null.
    pub fn scalar_null(&mut self) -> (r: BufferRef)
        requires
            old(self).well_formed(),
        ensures
            emitted(old(self)@, final(self)@, r, Operator::ScalarNull, EncodingType::Null),
    {
        self.emit(Operator::ScalarNull, EncodingType::Null)
    }

    /// Allocates `len` placeholder entries of the given encoding.
    pub fn null_vec(&mut self, len: usize, tag: EncodingType) -> (r: BufferRef)
        requires
            old(self).well_formed(),
        ensures
            emitted(old(self)@, final(self)@, r, Operator::NullVec { len }, tag),
    {
        self.emit(Operator::NullVec { len }, tag)
    }

    /// Synthesizes the row indices of `input`.
    pub fn indices(&mut self, input: BufferRef) -> (r: BufferRef)
        requires
            old(self).well_formed(),
            old(self)@.holds(input),
        ensures
            emitted(
                old(self)@,
                final(self)@,
                r,
                Operator::Indices { input },
                EncodingType::USize,
            ),
    {
        self.emit(Operator::Indices { input }, EncodingType::USize)
    }

    /// Keeps the entries of `input` at which `mask` is nonzero.
    pub fn filter(&mut self, input: BufferRef, mask: BufferRef) -> (r: BufferRef)
        requires
            old(self).well_formed(),
            old(self)@.holds(input),
            old(self)@.holds(mask),
            mask.tag == EncodingType::U8,
        ensures
            emitted(old(self)@, final(self)@, r, Operator::Filter { input, mask }, input.tag),
    {
        self.emit(Operator::Filter { input, mask }, input.tag)
    }

    /// Keeps the entries of `input` at which `mask` is neither zero nor null.
    pub fn nullable_filter(&mut self, input: BufferRef, mask: BufferRef) -> (r: BufferRef)
        requires
            old(self).well_formed(),
            old(self)@.holds(input),
            old(self)@.holds(mask),
            mask.tag == EncodingType::NullableU8,
        ensures
            emitted(
                old(self)@,
                final(self)@,
                r,
                Operator::NullableFilter { input, mask },
                input.tag,
            ),
    {
        self.emit(Operator::NullableFilter { input, mask }, input.tag)
    }

    /// Gathers the entries of `input` at the positions in `indices`.
    pub fn select(&mut self, input: BufferRef, indices: BufferRef) -> (r: BufferRef)
        requires
            old(self).well_formed(),
            old(self)@.holds(input),
            old(self)@.holds(indices),
            indices.tag == EncodingType::USize,
        ensures
            emitted(old(self)@, final(self)@, r, Operator::Select { input, indices }, input.tag),
    {
        self.emit(Operator::Select { input, indices }, input.tag)
    }

    /// Reorders `indices` by ascending, or with `desc` descending, `ranking`.
    /// A stable sort keeps the order of entries with equal rank.
    pub fn sort_by(
        &mut self,
        ranking: BufferRef,
        indices: BufferRef,
        desc: bool,
        stable: bool,
    ) -> (r: BufferRef)
        requires
            old(self).well_formed(),
            old(self)@.holds(ranking),
            old(self)@.holds(indices),
            indices.tag == EncodingType::USize,
        ensures
            emitted(
                old(self)@,
                final(self)@,
                r,
                Operator::SortBy { ranking, indices, desc, stable },
                EncodingType::USize,
            ),
    {
        self.emit(Operator::SortBy { ranking, indices, desc, stable }, EncodingType::USize)
    }

    /// Sorts partially: the indices of the `limit` first entries by rank.
    pub fn top_n(&mut self, ranking: BufferRef, limit: usize, desc: bool) -> (r: BufferRef)
        requires
            old(self).well_formed(),
            old(self)@.holds(ranking),
        ensures
            emitted(
                old(self)@,
                final(self)@,
                r,
                Operator::TopN { ranking, limit, desc },
                EncodingType::USize,
            ),
    {
        self.emit(Operator::TopN { ranking, limit, desc }, EncodingType::USize)
    }

    /// Drops the entries of `input` whose selector is zero.
    pub fn compact(&mut self, input: BufferRef, selector: BufferRef) -> (r: BufferRef)
        requires
            old(self).well_formed(),
            old(self)@.holds(input),
            old(self)@.holds(selector),
        ensures
            emitted(
                old(self)@,
                final(self)@,
                r,
                Operator::Compact { input, selector },
                input.tag,
            ),
    {
        self.emit(Operator::Compact { input, selector }, input.tag)
    }

    /// Drops the entries of `input` that are zero.
    pub fn nonzero_compact(&mut self, input: BufferRef) -> (r: BufferRef)
        requires
            old(self).well_formed(),
            old(self)@.holds(input),
        ensures
            emitted(old(self)@, final(self)@, r, Operator::NonzeroCompact { input }, input.tag),
    {
        self.emit(Operator::NonzeroCompact { input }, input.tag)
    }

    /// Produces a presence vector over the keys below `cardinality`.
    pub fn key_exists(&mut self, grouping_key: BufferRef, cardinality: BufferRef) -> (r: BufferRef)
        requires
            old(self).well_formed(),
            old(self)@.holds(grouping_key),
            old(self)@.holds(cardinality),
        ensures
            emitted(
                old(self)@,
                final(self)@,
                r,
                Operator::Exists { grouping_key, cardinality },
                EncodingType::U8,
            ),
    {
        self.emit(Operator::Exists { grouping_key, cardinality }, EncodingType::U8)
    }

    /// Extracts the positions of the nonzero entries of `input`, encoded as
    /// `tag`.
    pub fn nonzero_indices(&mut self, input: BufferRef, tag: EncodingType) -> (r: BufferRef)
        requires
            old(self).well_formed(),
            old(self)@.holds(input),
        ensures
            emitted(old(self)@, final(self)@, r, Operator::NonzeroIndices { input }, tag),
    {
        self.emit(Operator::NonzeroIndices { input }, tag)
    }

    /// Decodes `input` with `codec`.
    pub fn decode(&mut self, input: BufferRef, codec: Codec) -> (r: BufferRef)
        requires
            old(self).well_formed(),
            old(self)@.holds(input),
        ensures
            emitted(
                old(self)@,
                final(self)@,
                r,
                Operator::Decode { input, codec },
                codec.decoded,
            ),
    {
        self.emit(Operator::Decode { input, codec }, codec.decoded)
    }

    /// Converts `input` to the integer encoding `tag`.
    pub fn cast(&mut self, input: BufferRef, tag: EncodingType) -> (r: BufferRef)
        requires
            old(self).well_formed(),
            old(self)@.holds(input),
        ensures
            emitted(old(self)@, final(self)@, r, Operator::Cast { input }, tag),
    {
        self.emit(Operator::Cast { input }, tag)
    }

    /// Applies the unary kernel of `op` that writes a buffer encoded as `tag`.
    pub fn func1(&mut self, op: Func1Type, input: BufferRef, tag: EncodingType) -> (r: BufferRef)
        requires
            old(self).well_formed(),
            old(self)@.holds(input),
        ensures
            emitted(old(self)@, final(self)@, r, Operator::Func1 { unary: op, input }, tag),
    {
        self.emit(Operator::Func1 { unary: op, input }, tag)
    }

    /// Applies the binary kernel of `op` that writes a buffer encoded as
    /// `tag`.
    pub fn func2(
        &mut self,
        op: Func2Type,
        left: BufferRef,
        right: BufferRef,
        tag: EncodingType,
    ) -> (r: BufferRef)
        requires
            old(self).well_formed(),
            old(self)@.holds(left),
            old(self)@.holds(right),
        ensures
            emitted(old(self)@, final(self)@, r, Operator::Func2 { binary: op, left, right }, tag),
    {
        self.emit(Operator::Func2 { binary: op, left, right }, tag)
    }

    /// Computes `high * radix + low`.
    pub fn pack(&mut self, high: BufferRef, low: BufferRef, radix: i64) -> (r: BufferRef)
        requires
            old(self).well_formed(),
            old(self)@.holds(high),
            old(self)@.holds(low),
        ensures
            emitted(
                old(self)@,
                final(self)@,
                r,
                Operator::Pack { high, low, radix },
                EncodingType::I64,
            ),
    {
        self.emit(Operator::Pack { high, low, radix }, EncodingType::I64)
    }

    /// Computes `(input / divisor) % radix`.
    pub fn unpack(&mut self, input: BufferRef, divisor: i64, radix: i64) -> (r: BufferRef)
        requires
            old(self).well_formed(),
            old(self)@.holds(input),
        ensures
            emitted(
                old(self)@,
                final(self)@,
                r,
                Operator::Unpack { input, divisor, radix },
                EncodingType::I64,
            ),
    {
        self.emit(Operator::Unpack { input, divisor, radix }, EncodingType::I64)
    }

    /// Reduces `input` per grouping key below `cardinality`.
    pub fn aggregate(
        &mut self,
        aggregator: Aggregator,
        input: BufferRef,
        grouping_key: BufferRef,
        cardinality: BufferRef,
        tag: EncodingType,
    ) -> (r: BufferRef)
        requires
            old(self).well_formed(),
            old(self)@.holds(input),
            old(self)@.holds(grouping_key),
            old(self)@.holds(cardinality),
        ensures
            emitted(
                old(self)@,
                final(self)@,
                r,
                Operator::Aggregate { aggregator, input, grouping_key, cardinality },
                tag,
            ),
    {
        self.emit(Operator::Aggregate { aggregator, input, grouping_key, cardinality }, tag)
    }

    /// The distinct values of `raw_key`.
    pub fn hash_group_column(&mut self, raw_key: BufferRef, max_cardinality: usize) -> (r:
        BufferRef)
        requires
            old(self).well_formed(),
            old(self)@.holds(raw_key),
        ensures
            emitted(
                old(self)@,
                final(self)@,
                r,
                Operator::HashGroupColumn { raw_key, max_cardinality },
                raw_key.tag,
            ),
    {
        self.emit(Operator::HashGroupColumn { raw_key, max_cardinality }, raw_key.tag)
    }

    /// The dense key of each entry of `raw_key`.
    pub fn hash_group_key(&mut self, raw_key: BufferRef) -> (r: BufferRef)
        requires
            old(self).well_formed(),
            old(self)@.holds(raw_key),
        ensures
            emitted(
                old(self)@,
                final(self)@,
                r,
                Operator::HashGroupKey { raw_key },
                EncodingType::U32,
            ),
    {
        self.emit(Operator::HashGroupKey { raw_key }, EncodingType::U32)
    }

    /// The number of distinct values of `raw_key`.
    pub fn hash_group_cardinality(&mut self, raw_key: BufferRef) -> (r: BufferRef)
        requires
            old(self).well_formed(),
            old(self)@.holds(raw_key),
        ensures
            emitted(
                old(self)@,
                final(self)@,
                r,
                Operator::HashGroupCardinality { raw_key },
                EncodingType::ScalarI64,
            ),
    {
        self.emit(Operator::HashGroupCardinality { raw_key }, EncodingType::ScalarI64)
    }

    /// Allocates a buffer whose producer will be attached by `connect`.
    pub fn placeholder(&mut self, tag: EncodingType) -> (r: BufferRef)
        requires
            old(self).well_formed(),
        ensures
            emitted(old(self)@, final(self)@, r, Operator::Placeholder, tag),
    {
        self.emit(Operator::Placeholder, tag)
    }

    /// Rewires the placeholder to its producer `source`.
    pub fn connect(&mut self, source: BufferRef, placeholder: BufferRef)
        requires
            old(self).well_formed(),
            old(self)@.holds(source),
            old(self)@.holds(placeholder),
            source.tag == placeholder.tag,
            source.id != placeholder.id,
        ensures
            final(self)@ == old(self)@.connect(source, placeholder),
            final(self).well_formed(),
            old(self)@.extends_to(final(self)@),
    {
        proof {
            lemma_connect(self@, source, placeholder);
        }
        self.nodes.set(placeholder.id, Node { op: Operator::Alias { source }, tag: placeholder.tag });
    }
}

} // verus!
