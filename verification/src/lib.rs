//! Query normalization and per-partition planning for a columnar,
//! partitioned analytical engine.
//!
//! A [`query::Query`] is rewritten into one or two [`query::NormalFormQuery`]
//! stages. Each stage is then compiled, for one partition, into a graph of
//! vectorized operators held by a [`planner::QueryPlanner`]: a scan by
//! [`query::NormalFormQuery::run`], an aggregation by
//! [`query::NormalFormQuery::run_aggregate`]. The planner only records
//! operators and buffer types; running the kernels over column data is left
//! to the caller, who hands the materialized buffers back so that
//! [`pipeline::PartitionPlan::finish`] can assemble and validate the batch
//! result.
//!
//! The modules whose names end in `laws` hold what is proved of the
//! normalizer and of the plans beyond the contracts of the functions.

pub mod aggregate;
pub mod batch;
pub mod distinct;
pub mod executor;
pub mod expr;
pub mod grouping;
pub mod grouping_laws;
pub mod laws;
pub mod names;
pub mod pipeline;
pub mod plan_laws;
pub mod planner;
pub mod query;
pub mod query_plan;
pub mod scan;
pub mod schedule_laws;
pub mod sort_laws;
pub mod types;
