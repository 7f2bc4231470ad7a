use std::sync::Arc;

use fuse_query::datavalues::{DataField, DataSchema, DataSchemaRef, DataType};
use fuse_query::plan::{EmptyPlan, LimitPlan, PlanNode, RemotePlan};

fn schema(name: &str) -> DataSchemaRef {
    Arc::new(DataSchema::new(vec![DataField::new(name, DataType::Int64, false)]))
}

fn remote(name: &str) -> RemotePlan {
    RemotePlan {
        schema: schema(name),
        fetch_name: "fetch".to_string(),
        fetch_nodes: vec!["node1".to_string(), "node2".to_string()],
    }
}

#[test]
fn limit_plan_has_the_schema_of_its_input() {
    let plan = LimitPlan { n: 3, input: Arc::new(PlanNode::Remote(remote("a"))) };
    assert_eq!(plan.schema(), schema("a"));
    let outer = LimitPlan { n: 1, input: Arc::new(PlanNode::Limit(plan)) };
    assert_eq!(outer.schema(), schema("a"));
}

#[test]
fn set_input_replaces_the_input_and_keeps_the_limit() {
    let mut plan = LimitPlan { n: 3, input: Arc::new(PlanNode::Empty(EmptyPlan { schema: schema("a") })) };
    let node = PlanNode::Remote(remote("b"));
    plan.set_input(&node);
    assert_eq!(plan.n, 3);
    assert_eq!(*plan.input, node);
    assert_eq!(plan.schema(), schema("b"));
}

#[test]
fn remote_plan_hands_out_its_schema() {
    let plan = remote("a");
    assert_eq!(plan.schema(), schema("a"));
    assert!(Arc::ptr_eq(&plan.schema(), &plan.schema));
}

#[test]
fn plan_node_clone_is_equal() {
    let node = PlanNode::Limit(LimitPlan { n: 2, input: Arc::new(PlanNode::Remote(remote("a"))) });
    assert_eq!(node.clone(), node);
    assert_eq!(node.schema(), schema("a"));
}
