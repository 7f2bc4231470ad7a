//! Execution-planning core of a columnar query engine: expression chains
//! compiled from expression trees, and sort / merge kernels over data blocks.

pub mod error;
pub mod datavalues;
pub mod functions;
pub mod expression;
pub mod expression_chain;
pub mod datablock;
pub mod row_order;
pub mod sort;
pub mod sort_laws;
pub mod merge;
pub mod merge_laws;
pub mod plan;
