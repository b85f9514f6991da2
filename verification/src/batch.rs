//! The result of one partition: materialized columns, and the positions at
//! which projections, aggregates and ordering keys are found among them.
//!
//! Several result slots may name the same buffer. The buffer is then
//! collected once, and the slots share its position.

use vstd::prelude::*;
use crate::distinct::{insert_new, lemma_merge_concat, lemma_merge_members, lemma_merge_one, merge_new};
use crate::expr::Aggregator;
use crate::planner::BufferRef;
use crate::types::QueryError;

verus! {

/// The materialized contents of a buffer.
#[derive(Debug, PartialEq, Eq)]
pub enum BufferData {
    Int(Vec<i64>),
    Str(Vec<String>),
    /// This many nulls.
    Null(usize),
}

impl BufferData {
    /// The number of entries.
    pub open spec fn rows(&self) -> nat {
        match self {
            BufferData::Int(values) => values@.len(),
            BufferData::Str(values) => values@.len(),
            BufferData::Null(count) => *count as nat,
        }
    }

    /// The number of entries.
    pub fn len(&self) -> (n: usize)
        ensures
            n == self.rows(),
    {
        match self {
            BufferData::Int(values) => values.len(),
            BufferData::Str(values) => values.len(),
            BufferData::Null(count) => *count,
        }
    }
}

/// Which buffers a result is made of, and where each slot finds its column.
#[derive(Debug)]
pub struct ResultLayout {
    /// The buffers to collect, each once, in order of first use.
    pub buffers: Vec<BufferRef>,
    /// For each projection, the position of its buffer in `buffers`.
    pub projection: Vec<usize>,
    /// For each aggregate, the position of its buffer in `buffers`.
    pub aggregations: Vec<(usize, Aggregator)>,
    /// For each ordering key, the position of its buffer in `buffers`, and
    /// whether the order is descending.
    pub order_by: Vec<(usize, bool)>,
}

/// The buffers of a list of aggregate slots.
pub open spec fn aggregate_buffers(slots: Seq<(BufferRef, Aggregator)>) -> Seq<BufferRef> {
    Seq::new(slots.len(), |i: int| slots[i].0)
}

/// The buffers of a list of ordering slots.
pub open spec fn order_buffers(slots: Seq<(BufferRef, bool)>) -> Seq<BufferRef> {
    Seq::new(slots.len(), |i: int| slots[i].0)
}

/// Every buffer that a result uses, one entry per use: projections first,
/// then aggregates, then ordering keys.
pub open spec fn used_buffers(
    projection: Seq<BufferRef>,
    aggregations: Seq<(BufferRef, Aggregator)>,
    order_by: Seq<(BufferRef, bool)>,
) -> Seq<BufferRef> {
    projection + aggregate_buffers(aggregations) + order_buffers(order_by)
}

/// Whether `layout` lays out the given slots: it collects each used buffer
/// once, in order of first use, and every slot points at its own buffer and
/// keeps its aggregator or direction.
pub open spec fn lays_out(
    layout: ResultLayout,
    projection: Seq<BufferRef>,
    aggregations: Seq<(BufferRef, Aggregator)>,
    order_by: Seq<(BufferRef, bool)>,
) -> bool {
    let buffers = layout.buffers@;
    &&& buffers == merge_new(seq![], used_buffers(projection, aggregations, order_by))
    &&& buffers.no_duplicates()
    &&& layout.projection@.len() == projection.len()
    &&& forall|i: int|
        0 <= i < projection.len() ==> (#[trigger] layout.projection@[i]) < buffers.len()
            && buffers[layout.projection@[i] as int] == projection[i]
    &&& layout.aggregations@.len() == aggregations.len()
    &&& forall|i: int|
        0 <= i < aggregations.len() ==> (#[trigger] layout.aggregations@[i]).0 < buffers.len()
            && buffers[layout.aggregations@[i].0 as int] == aggregations[i].0
            && layout.aggregations@[i].1 == aggregations[i].1
    &&& layout.order_by@.len() == order_by.len()
    &&& forall|i: int|
        0 <= i < order_by.len() ==> (#[trigger] layout.order_by@[i]).0 < buffers.len()
            && buffers[layout.order_by@[i].0 as int] == order_by[i].0 && layout.order_by@[i].1
            == order_by[i].1
}

fn slot(buffers: &mut Vec<BufferRef>, buffer: BufferRef) -> (i: usize)
    ensures
        final(buffers)@ == insert_new(old(buffers)@, buffer),
        i < final(buffers)@.len(),
        final(buffers)@[i as int] == buffer,
        old(buffers)@.len() <= final(buffers)@.len(),
        forall|j: int| 0 <= j < old(buffers)@.len() ==> final(buffers)@[j] == old(buffers)@[j],
{
    let mut i: usize = 0;
    while i < buffers.len()
        invariant
            i <= buffers.len(),
            buffers@ == old(buffers)@,
            forall|j: int| 0 <= j < i ==> buffers@[j] != buffer,
        decreases buffers.len() - i,
    {
        if buffers[i] == buffer {
            return i;
        }
        i += 1;
    }
    buffers.push(buffer);
    i
}

/// Lays out the result slots: finds the distinct buffers among them, and
/// tells each slot the position of its buffer.
pub fn collect_aliased(
    projection: &Vec<BufferRef>,
    aggregations: &Vec<(BufferRef, Aggregator)>,
    order_by: &Vec<(BufferRef, bool)>,
) -> (layout: ResultLayout)
    ensures
        lays_out(layout, projection@, aggregations@, order_by@),
{
    let mut buffers: Vec<BufferRef> = Vec::new();
    let mut projected: Vec<usize> = Vec::new();
    let ghost empty = Seq::<BufferRef>::empty();
    let mut i: usize = 0;
    while i < projection.len()
        invariant
            i <= projection.len(),
            buffers@ == merge_new(empty, projection@.take(i as int)),
            projected@.len() == i,
            forall|j: int|
                0 <= j < i ==> (#[trigger] projected@[j]) < buffers@.len()
                    && buffers@[projected@[j] as int] == projection@[j],
        decreases projection.len() - i,
    {
        proof {
            lemma_merge_concat(empty, projection@.take(i as int), seq![projection@[i as int]]);
            lemma_merge_one(buffers@, projection@[i as int]);
            assert(projection@.take(i as int) + seq![projection@[i as int]] == projection@.take(
                i + 1,
            ));
        }
        let position = slot(&mut buffers, projection[i]);
        projected.push(position);
        i += 1;
    }
    assert(projection@.take(projection@.len() as int) == projection@);
    let ghost first = projection@;
    let mut aggregated: Vec<(usize, Aggregator)> = Vec::new();
    let ghost second = aggregate_buffers(aggregations@);
    let mut k: usize = 0;
    assert(first + second.take(0) == first);
    while k < aggregations.len()
        invariant
            k <= aggregations.len(),
            first == projection@,
            second == aggregate_buffers(aggregations@),
            buffers@ == merge_new(empty, first + second.take(k as int)),
            projected@.len() == first.len(),
            forall|j: int|
                0 <= j < first.len() ==> (#[trigger] projected@[j]) < buffers@.len()
                    && buffers@[projected@[j] as int] == first[j],
            aggregated@.len() == k,
            forall|j: int|
                0 <= j < k ==> (#[trigger] aggregated@[j]).0 < buffers@.len()
                    && buffers@[aggregated@[j].0 as int] == aggregations@[j].0 && aggregated@[j].1
                    == aggregations@[j].1,
        decreases aggregations.len() - k,
    {
        proof {
            lemma_merge_concat(empty, first + second.take(k as int), seq![second[k as int]]);
            lemma_merge_one(buffers@, second[k as int]);
            assert(first + second.take(k as int) + seq![second[k as int]] == first + second.take(
                k + 1,
            ));
        }
        let position = slot(&mut buffers, aggregations[k].0);
        aggregated.push((position, aggregations[k].1));
        k += 1;
    }
    assert(second.take(second.len() as int) == second);
    let mut ordered: Vec<(usize, bool)> = Vec::new();
    let ghost third = order_buffers(order_by@);
    let mut m: usize = 0;
    assert(first + second + third.take(0) == first + second);
    while m < order_by.len()
        invariant
            m <= order_by.len(),
            first == projection@,
            second == aggregate_buffers(aggregations@),
            third == order_buffers(order_by@),
            buffers@ == merge_new(empty, first + second + third.take(m as int)),
            projected@.len() == first.len(),
            forall|j: int|
                0 <= j < first.len() ==> (#[trigger] projected@[j]) < buffers@.len()
                    && buffers@[projected@[j] as int] == first[j],
            aggregated@.len() == second.len(),
            forall|j: int|
                0 <= j < second.len() ==> (#[trigger] aggregated@[j]).0 < buffers@.len()
                    && buffers@[aggregated@[j].0 as int] == aggregations@[j].0 && aggregated@[j].1
                    == aggregations@[j].1,
            ordered@.len() == m,
            forall|j: int|
                0 <= j < m ==> (#[trigger] ordered@[j]).0 < buffers@.len()
                    && buffers@[ordered@[j].0 as int] == order_by@[j].0 && ordered@[j].1
                    == order_by@[j].1,
        decreases order_by.len() - m,
    {
        proof {
            lemma_merge_concat(empty, first + second + third.take(m as int), seq![third[m as int]]);
            lemma_merge_one(buffers@, third[m as int]);
            assert(first + second + third.take(m as int) + seq![third[m as int]] == first + second
                + third.take(m + 1));
        }
        let position = slot(&mut buffers, order_by[m].0);
        ordered.push((position, order_by[m].1));
        m += 1;
    }
    assert(third.take(third.len() as int) == third);
    proof {
        lemma_merge_members(empty, first + second + third);
    }
    ResultLayout { buffers, projection: projected, aggregations: aggregated, order_by: ordered }
}

/// One partition's contribution to a query result.
#[derive(Debug)]
pub struct BatchResult {
    pub columns: Vec<BufferData>,
    /// Positions in `columns` of the projections.
    pub projection: Vec<usize>,
    /// Positions in `columns` of the aggregates.
    pub aggregations: Vec<(usize, Aggregator)>,
    /// Positions in `columns` of the ordering keys, with their directions.
    pub order_by: Vec<(usize, bool)>,
    /// How many merges the batch has been through.
    pub level: u32,
    /// How many partition results the batch holds.
    pub batch_count: usize,
    pub show: bool,
    /// Memory that the columns point into, kept alive with the batch.
    pub unsafe_referenced_buffers: Vec<BufferData>,
}

impl BatchResult {
    /// The columns that the batch refers to, one entry per slot:
    /// projections, then aggregates, then ordering keys.
    pub open spec fn referenced(&self) -> Seq<usize> {
        self.projection@ + Seq::new(
            self.aggregations@.len(),
            |i: int| self.aggregations@[i].0,
        ) + Seq::new(self.order_by@.len(), |i: int| self.order_by@[i].0)
    }

    /// Whether every slot refers to a column that exists, and all columns
    /// referred to have the same number of rows.
    pub open spec fn consistent(&self) -> bool {
        let referenced = self.referenced();
        &&& forall|k: int|
            0 <= k < referenced.len() ==> (#[trigger] referenced[k]) < self.columns@.len()
        &&& forall|k: int|
            0 <= k < referenced.len() ==> self.columns@[(#[trigger] referenced[k]) as int].rows()
                == self.columns@[referenced[0] as int].rows()
    }

    /// Checks the shape of the batch. Fails with `FatalError` exactly when
    /// the batch is not consistent.
    pub fn validate(&self) -> (r: Result<(), QueryError>)
        ensures
            r == if self.consistent() {
                Ok::<(), QueryError>(())
            } else {
                Err::<(), QueryError>(QueryError::FatalError)
            },
    {
        let mut slots: Vec<usize> = Vec::new();
        let mut i: usize = 0;
        while i < self.projection.len()
            invariant
                i <= self.projection.len(),
                slots@ == self.projection@.take(i as int),
            decreases self.projection.len() - i,
        {
            slots.push(self.projection[i]);
            assert(self.projection@.take(i as int).push(self.projection@[i as int])
                == self.projection@.take(i + 1));
            i += 1;
        }
        assert(self.projection@.take(self.projection@.len() as int) == self.projection@);
        let ghost aggregated = Seq::new(
            self.aggregations@.len(),
            |i: int| self.aggregations@[i].0,
        );
        let mut j: usize = 0;
        assert(self.projection@ + aggregated.take(0) == self.projection@);
        while j < self.aggregations.len()
            invariant
                j <= self.aggregations.len(),
                aggregated == Seq::new(self.aggregations@.len(), |i: int| self.aggregations@[i].0),
                slots@ == self.projection@ + aggregated.take(j as int),
            decreases self.aggregations.len() - j,
        {
            slots.push(self.aggregations[j].0);
            assert((self.projection@ + aggregated.take(j as int)).push(aggregated[j as int])
                == self.projection@ + aggregated.take(j + 1));
            j += 1;
        }
        assert(aggregated.take(aggregated.len() as int) == aggregated);
        let ghost ordered = Seq::new(self.order_by@.len(), |i: int| self.order_by@[i].0);
        let mut m: usize = 0;
        assert(self.projection@ + aggregated + ordered.take(0) == self.projection@ + aggregated);
        while m < self.order_by.len()
            invariant
                m <= self.order_by.len(),
                ordered == Seq::new(self.order_by@.len(), |i: int| self.order_by@[i].0),
                slots@ == self.projection@ + aggregated + ordered.take(m as int),
            decreases self.order_by.len() - m,
        {
            slots.push(self.order_by[m].0);
            assert((self.projection@ + aggregated + ordered.take(m as int)).push(ordered[m as int])
                == self.projection@ + aggregated + ordered.take(m + 1));
            m += 1;
        }
        assert(ordered.take(ordered.len() as int) == ordered);
        assert(slots@ == self.referenced());
        let mut k: usize = 0;
        while k < slots.len()
            invariant
                k <= slots.len(),
                slots@ == self.referenced(),
                forall|q: int| 0 <= q < k ==> (#[trigger] slots@[q]) < self.columns@.len(),
                forall|q: int|
                    0 <= q < k ==> self.columns@[(#[trigger] slots@[q]) as int].rows()
                        == self.columns@[slots@[0] as int].rows(),
            decreases slots.len() - k,
        {
            if slots[k] >= self.columns.len() {
                return Err(QueryError::FatalError);
            }
            if self.columns[slots[k]].len() != self.columns[slots[0]].len() {
                return Err(QueryError::FatalError);
            }
            k += 1;
        }
        Ok(())
    }
}

} // verus!
