//! What planning one partition hands over, and how the batch result is
//! assembled once the operators have run.
//!
//! Planning ends with a finalized operator graph and a layout of the result.
//! Running the graph over column data is the caller's part: it runs the
//! operators in schedule order over `rows` rows and hands back the contents
//! of the buffers that the layout names.

use vstd::prelude::*;
use crate::batch::{BatchResult, BufferData, ResultLayout};
use crate::executor::Executor;
use crate::types::QueryError;

verus! {

/// The planned work for one partition.
#[derive(Debug)]
pub struct PartitionPlan {
    pub executor: Executor,
    pub layout: ResultLayout,
    /// The number of rows to run the operators over.
    pub rows: usize,
    /// Which partition the plan is for.
    pub partition: usize,
    /// Whether the caller asked for a rendering of the operator graph.
    pub explain: bool,
    /// Whether intermediate buffers are to be kept for display.
    pub show: bool,
    /// Whether the assembled batch is checked for consistency.
    pub validated: bool,
}

impl PartitionPlan {
    /// The batch made of `columns`, laid out as planned.
    pub open spec fn batch(self, columns: Vec<BufferData>, pinned: Vec<BufferData>) -> BatchResult {
        BatchResult {
            columns,
            projection: self.layout.projection,
            aggregations: self.layout.aggregations,
            order_by: self.layout.order_by,
            level: 0,
            batch_count: 1,
            show: self.show,
            unsafe_referenced_buffers: pinned,
        }
    }

    /// Whether `columns` can be assembled: there is one column per collected
    /// buffer, and the batch is consistent where the plan asks for the check.
    pub open spec fn accepts(self, columns: Vec<BufferData>, pinned: Vec<BufferData>) -> bool {
        &&& columns@.len() == self.layout.buffers@.len()
        &&& self.validated ==> self.batch(columns, pinned).consistent()
    }

    /// Assembles the batch result from the contents of the collected
    /// buffers, `columns[i]` being the contents of `layout.buffers[i]`, and
    /// from the memory that they point into. The rendering of the operator
    /// graph is passed on where the plan was made with `explain`.
    ///
    /// Fails with `FatalError` exactly when the columns are not accepted.
    pub fn finish(self, columns: Vec<BufferData>, pinned: Vec<BufferData>, rendering: String) -> (r:
        Result<(BatchResult, Option<String>), QueryError>)
        ensures
            r == if self.accepts(columns, pinned) {
                Ok::<(BatchResult, Option<String>), QueryError>(
                    (
                        self.batch(columns, pinned),
                        if self.explain {
                            Some(rendering)
                        } else {
                            None
                        },
                    ),
                )
            } else {
                Err::<(BatchResult, Option<String>), QueryError>(QueryError::FatalError)
            },
    {
        if columns.len() != self.layout.buffers.len() {
            return Err(QueryError::FatalError);
        }
        let batch = BatchResult {
            columns,
            projection: self.layout.projection,
            aggregations: self.layout.aggregations,
            order_by: self.layout.order_by,
            level: 0,
            batch_count: 1,
            show: self.show,
            unsafe_referenced_buffers: pinned,
        };
        if self.validated {
            match batch.validate() {
                Ok(_) => {},
                Err(e) => {
                    return Err(e);
                },
            }
        }
        Ok((batch, if self.explain { Some(rendering) } else { None }))
    }
}

} // verus!
