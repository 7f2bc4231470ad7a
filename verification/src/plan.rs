//! Plan nodes: the limit and the remote plan, and what stands below them.

use std::sync::Arc;
use vstd::prelude::*;

use crate::datavalues::{share, DataSchemaRef};

verus! {

/// A plan that yields no rows of a given schema.
#[derive(Debug, Clone, PartialEq, Eq)]
pub struct EmptyPlan {
    pub schema: DataSchemaRef,
}

/// A plan that yields the first `n` rows of its input.
#[derive(Debug, Clone, PartialEq, Eq)]
pub struct LimitPlan {
    /// The limit
    pub n: usize,
    /// The logical plan
    pub input: Arc<PlanNode>,
}

/// A plan that fetches its rows from other nodes.
#[derive(Debug, Clone, PartialEq, Eq)]
pub struct RemotePlan {
    pub schema: DataSchemaRef,
    pub fetch_name: String,
    pub fetch_nodes: Vec<String>,
}

/// A node of a logical plan.
#[derive(Debug, PartialEq, Eq)]
pub enum PlanNode {
    Empty(EmptyPlan),
    Limit(LimitPlan),
    Remote(RemotePlan),
}

/// A copy of `names`.
fn copy_names(names: &Vec<String>) -> (r: Vec<String>)
    ensures
        r@ == names@,
{
    let mut r: Vec<String> = Vec::new();
    let mut k: usize = 0;
    while k < names.len()
        invariant
            k <= names@.len(),
            r@ == names@.take(k as int),
        decreases names@.len() - k,
    {
        r.push(names[k].clone());
        assert(names@.take(k as int).push(names@[k as int]) =~= names@.take(k + 1));
        k = k + 1;
    }
    assert(names@.take(k as int) =~= names@);
    r
}

/// What a plan node says, with its names as sequences of characters.
pub enum PlanView {
    Empty { schema: DataSchemaRef },
    Limit { n: usize, input: Box<PlanView> },
    Remote { schema: DataSchemaRef, fetch_name: Seq<char>, fetch_nodes: Seq<Seq<char>> },
}

impl PlanNode {
    /// What the node says.
    pub open spec fn content(&self) -> PlanView
        decreases self,
    {
        match self {
            PlanNode::Empty(plan) => PlanView::Empty { schema: plan.schema },
            PlanNode::Limit(plan) => PlanView::Limit {
                n: plan.n,
                input: Box::new(plan.input.content()),
            },
            PlanNode::Remote(plan) => PlanView::Remote {
                schema: plan.schema,
                fetch_name: plan.fetch_name@,
                fetch_nodes: Seq::new(plan.fetch_nodes@.len(), |i: int| plan.fetch_nodes@[i]@),
            },
        }
    }

    /// The schema of the rows that the plan yields.
    pub open spec fn spec_schema(&self) -> DataSchemaRef
        decreases self,
    {
        match self {
            PlanNode::Empty(plan) => plan.schema,
            PlanNode::Limit(plan) => plan.input.spec_schema(),
            PlanNode::Remote(plan) => plan.schema,
        }
    }

    /// The schema of the rows that the plan yields.
    pub fn schema(&self) -> (s: DataSchemaRef)
        ensures
            s == self.spec_schema(),
        decreases self,
    {
        match self {
            PlanNode::Empty(plan) => share(&plan.schema),
            PlanNode::Limit(plan) => plan.input.schema(),
            PlanNode::Remote(plan) => share(&plan.schema),
        }
    }
}

impl Clone for PlanNode {
    fn clone(&self) -> (r: Self)
        ensures
            r.content() == self.content(),
            r.spec_schema() == self.spec_schema(),
    {
        match self {
            PlanNode::Empty(plan) => PlanNode::Empty(EmptyPlan { schema: share(&plan.schema) }),
            PlanNode::Limit(plan) => PlanNode::Limit(
                LimitPlan { n: plan.n, input: share(&plan.input) },
            ),
            PlanNode::Remote(plan) => {
                let fetch_nodes: Vec<String> = copy_names(&plan.fetch_nodes);
                assert(Seq::new(fetch_nodes@.len(), |i: int| fetch_nodes@[i]@) =~= Seq::new(
                    plan.fetch_nodes@.len(),
                    |i: int| plan.fetch_nodes@[i]@,
                ));
                PlanNode::Remote(
                    RemotePlan {
                        schema: share(&plan.schema),
                        fetch_name: plan.fetch_name.clone(),
                        fetch_nodes,
                    },
                )
            },
        }
    }
}

impl LimitPlan {
    /// The schema of the rows that the plan yields: that of its input.
    pub fn schema(&self) -> (s: DataSchemaRef)
        ensures
            s == self.input.spec_schema(),
    {
        self.input.schema()
    }

    /// Puts a copy of `node` in the place of the plan's input.
    pub fn set_input(&mut self, node: &PlanNode)
        ensures
            final(self).input.content() == node.content(),
            final(self).input.spec_schema() == node.spec_schema(),
            final(self).n == old(self).n,
    {
        self.input = Arc::new(node.clone());
    }
}

impl RemotePlan {
    /// The schema of the rows that the plan yields.
    pub fn schema(&self) -> (s: DataSchemaRef)
        ensures
            s == self.schema,
    {
        share(&self.schema)
    }
}

} // verus!
