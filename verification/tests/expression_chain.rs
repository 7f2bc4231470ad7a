use std::sync::Arc;

use fuse_query::datavalues::{
    decimal_string, signed_string, DataField, DataSchema, DataSchemaRef, DataType, DataValue,
};
use fuse_query::error::ErrorCodes;
use fuse_query::expression::ExpressionAction;
use fuse_query::expression_chain::{
    ActionAlias, ActionConstant, ActionFunction, ActionInput, ActionNode, ExpressionChain,
};
use fuse_query::functions::{
    ArgumentKind, CastFunction, Function, FunctionFactory, FunctionRegistry, FunctionSignature,
    ReturnRule,
};

fn schema() -> DataSchemaRef {
    Arc::new(DataSchema::new(vec![
        DataField::new("a", DataType::Int64, false),
        DataField::new("b", DataType::Utf8, false),
        DataField::new("c", DataType::Boolean, true),
    ]))
}

fn registry() -> FunctionRegistry {
    let mut scalars = FunctionFactory::new();
    scalars.register(FunctionSignature::new(
        "+",
        Some(2),
        ArgumentKind::Numeric,
        ReturnRule::SameAsArgument(0),
    ));
    scalars.register(FunctionSignature::new(
        "=",
        Some(2),
        ArgumentKind::Any,
        ReturnRule::Fixed(DataType::Boolean),
    ));
    scalars.register(FunctionSignature::new(
        "not",
        Some(1),
        ArgumentKind::Boolean,
        ReturnRule::Fixed(DataType::Boolean),
    ));
    scalars.register(FunctionSignature::new(
        "concat",
        None,
        ArgumentKind::Text,
        ReturnRule::Fixed(DataType::Utf8),
    ));
    scalars.register(FunctionSignature::new(
        "second",
        None,
        ArgumentKind::Any,
        ReturnRule::SameAsArgument(1),
    ));
    let mut aggregates = FunctionFactory::new();
    aggregates.register(FunctionSignature::new(
        "sum",
        Some(1),
        ArgumentKind::Numeric,
        ReturnRule::SameAsArgument(0),
    ));
    aggregates.register(FunctionSignature::new(
        "count",
        Some(1),
        ArgumentKind::Any,
        ReturnRule::Fixed(DataType::UInt64),
    ));
    FunctionRegistry::new(scalars, aggregates)
}

fn col(name: &str) -> ExpressionAction {
    ExpressionAction::Column(name.to_string())
}

fn lit(v: i64) -> ExpressionAction {
    ExpressionAction::Literal(DataValue::Int64(Some(v)))
}

fn text(v: &str) -> ExpressionAction {
    ExpressionAction::Literal(DataValue::Utf8(Some(v.to_string())))
}

fn binary(op: &str, left: ExpressionAction, right: ExpressionAction) -> ExpressionAction {
    ExpressionAction::BinaryExpression {
        op: op.to_string(),
        left: Box::new(left),
        right: Box::new(right),
    }
}

fn unary(op: &str, expr: ExpressionAction) -> ExpressionAction {
    ExpressionAction::UnaryExpression { op: op.to_string(), expr: Box::new(expr) }
}

fn scalar(op: &str, args: Vec<ExpressionAction>) -> ExpressionAction {
    ExpressionAction::ScalarFunction { op: op.to_string(), args }
}

fn aggregate(op: &str, args: Vec<ExpressionAction>) -> ExpressionAction {
    ExpressionAction::AggregateFunction { op: op.to_string(), args }
}

fn alias(name: &str, expr: ExpressionAction) -> ExpressionAction {
    ExpressionAction::Alias(name.to_string(), Box::new(expr))
}

fn sort(expr: ExpressionAction) -> ExpressionAction {
    ExpressionAction::Sort { expr: Box::new(expr), asc: false, nulls_first: true }
}

fn cast(expr: ExpressionAction, data_type: DataType) -> ExpressionAction {
    ExpressionAction::Cast { expr: Box::new(expr), data_type }
}

fn compile(exprs: &[ExpressionAction]) -> Result<ExpressionChain, ErrorCodes> {
    ExpressionChain::try_create(schema(), exprs, &registry())
}

fn input(name: &str, return_type: DataType) -> ActionNode {
    ActionNode::Input(ActionInput { name: name.to_string(), return_type })
}

fn function(
    name: &str,
    func_name: &str,
    is_aggregated: bool,
    arg_names: &[&str],
    arg_types: &[DataType],
    return_type: DataType,
) -> ActionNode {
    ActionNode::Function(ActionFunction {
        name: name.to_string(),
        func_name: func_name.to_string(),
        is_aggregated,
        arg_names: arg_names.iter().map(|s| s.to_string()).collect(),
        arg_types: arg_types.to_vec(),
        return_type,
    })
}

fn reads(node: &ActionNode) -> Vec<String> {
    match node {
        ActionNode::Alias(a) => vec![a.arg_name.clone()],
        ActionNode::Function(f) => f.arg_names.clone(),
        _ => vec![],
    }
}

fn assert_topologically_valid(chain: &ExpressionChain) {
    for (i, node) in chain.actions.iter().enumerate() {
        for name in reads(node) {
            assert!(
                chain.actions[..i].iter().any(|earlier| earlier.column_name() == name),
                "step {} reads {:?}, which no earlier step fills",
                i,
                name
            );
        }
    }
}

#[test]
fn a_column_becomes_an_input() {
    let chain = compile(&[col("a")]).unwrap();
    assert_eq!(chain.schema, schema());
    assert_eq!(chain.actions, vec![input("a", DataType::Int64)]);
}

#[test]
fn a_literal_becomes_a_constant() {
    let chain = compile(&[lit(-7)]).unwrap();
    assert_eq!(
        chain.actions,
        vec![ActionNode::Constant(ActionConstant {
            name: "-7".to_string(),
            value: DataValue::Int64(Some(-7)),
        })]
    );
}

#[test]
fn a_binary_expression_follows_its_operands() {
    let chain = compile(&[binary("+", col("a"), lit(1))]).unwrap();
    assert_eq!(
        chain.actions,
        vec![
            input("a", DataType::Int64),
            ActionNode::Constant(ActionConstant {
                name: "1".to_string(),
                value: DataValue::Int64(Some(1)),
            }),
            function(
                "(a + 1)",
                "+",
                false,
                &["a", "1"],
                &[DataType::Int64, DataType::Int64],
                DataType::Int64
            ),
        ]
    );
    assert_topologically_valid(&chain);
}

#[test]
fn a_unary_expression_follows_its_operand() {
    let chain = compile(&[unary("not", col("c"))]).unwrap();
    assert_eq!(
        chain.actions,
        vec![
            input("c", DataType::Boolean),
            function("(not c)", "not", false, &["c"], &[DataType::Boolean], DataType::Boolean),
        ]
    );
}

#[test]
fn an_alias_renames_the_step_before_it() {
    let chain = compile(&[alias("x", binary("+", col("a"), col("a")))]).unwrap();
    assert_eq!(chain.actions.len(), 4);
    assert_eq!(
        chain.actions[3],
        ActionNode::Alias(ActionAlias {
            name: "x".to_string(),
            arg_name: "(a + a)".to_string(),
            arg_type: DataType::Int64,
        })
    );
    assert_eq!(chain.actions[3].column_name(), "x");
    assert_topologically_valid(&chain);
}

#[test]
fn a_scalar_function_follows_its_arguments_in_order() {
    let chain = compile(&[scalar("concat", vec![col("b"), text("-"), col("b")])]).unwrap();
    assert_eq!(chain.actions.len(), 4);
    assert_eq!(chain.actions[0], input("b", DataType::Utf8));
    assert_eq!(chain.actions[2], input("b", DataType::Utf8));
    assert_eq!(
        chain.actions[3],
        function(
            "concat(b, -, b)",
            "concat",
            false,
            &["b", "-", "b"],
            &[DataType::Utf8, DataType::Utf8, DataType::Utf8],
            DataType::Utf8
        )
    );
    assert_topologically_valid(&chain);
}

#[test]
fn an_aggregate_function_is_marked_aggregated() {
    let chain = compile(&[aggregate("sum", vec![col("a")])]).unwrap();
    assert_eq!(
        chain.actions,
        vec![
            input("a", DataType::Int64),
            function("sum(a)", "sum", true, &["a"], &[DataType::Int64], DataType::Int64),
        ]
    );
    let chain = compile(&[aggregate("count", vec![col("b")])]).unwrap();
    assert_eq!(
        chain.actions[1],
        function("count(b)", "count", true, &["b"], &[DataType::Utf8], DataType::UInt64)
    );
}

#[test]
fn scalar_and_aggregate_functions_have_names_of_their_own() {
    assert_eq!(compile(&[scalar("sum", vec![col("a")])]).unwrap_err(), ErrorCodes::FunctionNotFound);
    assert_eq!(
        compile(&[aggregate("+", vec![col("a"), col("a")])]).unwrap_err(),
        ErrorCodes::FunctionNotFound
    );
}

#[test]
fn a_sort_adds_no_step_of_its_own() {
    let chain = compile(&[sort(col("a"))]).unwrap();
    assert_eq!(chain.actions, vec![input("a", DataType::Int64)]);
    let chain = compile(&[aggregate("sum", vec![sort(col("a"))])]).unwrap();
    assert_eq!(
        chain.actions,
        vec![
            input("a", DataType::Int64),
            function("sum(a)", "sum", true, &["a"], &[DataType::Int64], DataType::Int64),
        ]
    );
    assert_topologically_valid(&chain);
}

#[test]
fn a_wildcard_adds_no_step() {
    let chain = compile(&[ExpressionAction::Wildcard]).unwrap();
    assert!(chain.actions.is_empty());
    let chain = compile(&[col("a"), ExpressionAction::Wildcard, col("b")]).unwrap();
    assert_eq!(chain.actions, vec![input("a", DataType::Int64), input("b", DataType::Utf8)]);
}

#[test]
fn a_wildcard_has_no_type() {
    assert_eq!(
        ExpressionAction::Wildcard.to_data_type(&schema(), &registry()).unwrap_err(),
        ErrorCodes::IllegalDataType
    );
    assert_eq!(
        compile(&[aggregate("count", vec![ExpressionAction::Wildcard])]).unwrap_err(),
        ErrorCodes::IllegalDataType
    );
    assert_eq!(
        compile(&[alias("x", ExpressionAction::Wildcard)]).unwrap_err(),
        ErrorCodes::IllegalDataType
    );
    assert_eq!(
        compile(&[cast(sort(ExpressionAction::Wildcard), DataType::Utf8)]).unwrap_err(),
        ErrorCodes::IllegalDataType
    );
}

#[test]
fn a_cast_takes_its_type_from_the_target() {
    let chain = compile(&[cast(col("a"), DataType::Utf8)]).unwrap();
    assert_eq!(
        chain.actions,
        vec![
            input("a", DataType::Int64),
            function("cast(a as Utf8)", "cast", false, &["a"], &[DataType::Int64], DataType::Utf8),
        ]
    );
    assert_eq!(
        cast(col("a"), DataType::Float64).to_data_type(&schema(), &registry()).unwrap(),
        DataType::Float64
    );
}

#[test]
fn several_expressions_are_compiled_one_after_the_other() {
    let chain = compile(&[col("b"), binary("=", col("a"), lit(2)), col("b")]).unwrap();
    let names: Vec<&str> = chain.actions.iter().map(|a| a.column_name()).collect();
    assert_eq!(names, vec!["b", "a", "2", "(a = 2)", "b"]);
    assert_topologically_valid(&chain);
}

#[test]
fn no_expression_gives_an_empty_chain() {
    let chain = compile(&[]).unwrap();
    assert!(chain.actions.is_empty());
}

#[test]
fn a_nested_tree_is_topologically_valid() {
    let tree = alias(
        "result",
        scalar(
            "second",
            vec![
                binary("=", aggregate("sum", vec![binary("+", col("a"), lit(1))]), lit(10)),
                cast(unary("not", sort(col("c"))), DataType::Int64),
                alias("name", scalar("concat", vec![col("b"), text("x")])),
            ],
        ),
    );
    let chain = compile(&[tree, sort(alias("again", col("a")))]).unwrap();
    assert_topologically_valid(&chain);
    let last = chain.actions.last().unwrap();
    assert_eq!(last.column_name(), "again");
    let names: Vec<&str> = chain.actions.iter().map(|a| a.column_name()).collect();
    assert_eq!(
        names,
        vec![
            "a",
            "1",
            "(a + 1)",
            "sum((a + 1))",
            "10",
            "(sum((a + 1)) = 10)",
            "c",
            "(not c)",
            "cast((not c) as Int64)",
            "b",
            "x",
            "concat(b, x)",
            "name",
            "second((sum((a + 1)) = 10), cast((not c) as Int64), name)",
            "result",
            "a",
            "again",
        ]
    );
    match &chain.actions[13] {
        ActionNode::Function(f) => {
            assert_eq!(f.return_type, DataType::Int64);
            assert_eq!(f.arg_types, vec![DataType::Boolean, DataType::Int64, DataType::Utf8]);
        }
        other => panic!("not a function: {:?}", other),
    }
}

#[test]
fn a_missing_column_fails() {
    assert_eq!(compile(&[col("z")]).unwrap_err(), ErrorCodes::FieldNotFound);
    assert_eq!(
        compile(&[col("a"), binary("+", col("a"), col("z"))]).unwrap_err(),
        ErrorCodes::FieldNotFound
    );
}

#[test]
fn a_missing_function_fails() {
    assert_eq!(
        compile(&[binary("-", col("a"), col("a"))]).unwrap_err(),
        ErrorCodes::FunctionNotFound
    );
    assert_eq!(compile(&[unary("abs", col("a"))]).unwrap_err(), ErrorCodes::FunctionNotFound);
    assert_eq!(
        compile(&[aggregate("avg", vec![col("a")])]).unwrap_err(),
        ErrorCodes::FunctionNotFound
    );
}

#[test]
fn arguments_of_the_wrong_type_fail() {
    assert_eq!(compile(&[binary("+", col("a"), col("b"))]).unwrap_err(), ErrorCodes::TypeError);
    assert_eq!(compile(&[unary("not", col("a"))]).unwrap_err(), ErrorCodes::TypeError);
    assert_eq!(
        compile(&[aggregate("sum", vec![col("a"), col("a")])]).unwrap_err(),
        ErrorCodes::TypeError
    );
    assert_eq!(compile(&[scalar("second", vec![col("a")])]).unwrap_err(), ErrorCodes::TypeError);
}

#[test]
fn the_operands_fail_before_the_function_is_looked_up() {
    assert_eq!(
        compile(&[binary("no such function", col("z"), col("a"))]).unwrap_err(),
        ErrorCodes::FieldNotFound
    );
}

#[test]
fn to_function_resolves_scalar_actions() {
    let chain = compile(&[binary("+", col("a"), lit(1)), cast(col("a"), DataType::Utf8)]).unwrap();
    let registry = registry();
    match &chain.actions[2] {
        ActionNode::Function(f) => {
            let resolved = f.to_function(&registry).unwrap();
            assert_eq!(
                resolved,
                Function::Registered(FunctionSignature::new(
                    "+",
                    Some(2),
                    ArgumentKind::Numeric,
                    ReturnRule::SameAsArgument(0)
                ))
            );
            assert_eq!(
                resolved.return_type(&[DataType::UInt8, DataType::Int64]).unwrap(),
                DataType::UInt8
            );
            assert_eq!(f.to_aggregate_function(&registry).unwrap_err(), ErrorCodes::LogicalError);
        }
        other => panic!("not a function: {:?}", other),
    }
    match &chain.actions[4] {
        ActionNode::Function(f) => {
            let resolved = f.to_function(&registry).unwrap();
            assert_eq!(resolved, Function::Cast(CastFunction::create(DataType::Utf8)));
            assert_eq!(resolved.return_type(&[DataType::Int64]).unwrap(), DataType::Utf8);
        }
        other => panic!("not a function: {:?}", other),
    }
}

#[test]
fn to_aggregate_function_resolves_aggregated_actions() {
    let chain = compile(&[aggregate("sum", vec![col("a")])]).unwrap();
    let registry = registry();
    match &chain.actions[1] {
        ActionNode::Function(f) => {
            assert_eq!(
                f.to_aggregate_function(&registry).unwrap(),
                FunctionSignature::new(
                    "sum",
                    Some(1),
                    ArgumentKind::Numeric,
                    ReturnRule::SameAsArgument(0)
                )
            );
            assert_eq!(f.to_function(&registry).unwrap_err(), ErrorCodes::LogicalError);
        }
        other => panic!("not a function: {:?}", other),
    }
}

#[test]
fn the_aggregation_flag_decides_before_the_name_is_looked_up() {
    let registry = registry();
    for name in ["sum", "+", "cast", "no such function"] {
        let aggregated = ActionFunction {
            name: "x".to_string(),
            func_name: name.to_string(),
            is_aggregated: true,
            arg_names: vec![],
            arg_types: vec![],
            return_type: DataType::Int64,
        };
        assert_eq!(aggregated.to_function(&registry).unwrap_err(), ErrorCodes::LogicalError);
        let plain = ActionFunction { is_aggregated: false, ..aggregated };
        assert_eq!(plain.to_aggregate_function(&registry).unwrap_err(), ErrorCodes::LogicalError);
    }
}

#[test]
fn materialising_an_unknown_name_fails() {
    let registry = registry();
    let plain = ActionFunction {
        name: "x".to_string(),
        func_name: "no such function".to_string(),
        is_aggregated: false,
        arg_names: vec![],
        arg_types: vec![],
        return_type: DataType::Int64,
    };
    assert_eq!(plain.to_function(&registry).unwrap_err(), ErrorCodes::FunctionNotFound);
    let aggregated = ActionFunction { is_aggregated: true, ..plain };
    assert_eq!(
        aggregated.to_aggregate_function(&registry).unwrap_err(),
        ErrorCodes::FunctionNotFound
    );
}

#[test]
fn column_names_are_written_out() {
    assert_eq!(col("a").column_name(), "a");
    assert_eq!(alias("x", col("a")).column_name(), "x");
    assert_eq!(lit(42).column_name(), "42");
    assert_eq!(text("hi").column_name(), "hi");
    assert_eq!(ExpressionAction::Literal(DataValue::Null).column_name(), "NULL");
    assert_eq!(ExpressionAction::Literal(DataValue::Utf8(None)).column_name(), "NULL");
    assert_eq!(ExpressionAction::Literal(DataValue::Boolean(Some(true))).column_name(), "true");
    assert_eq!(ExpressionAction::Literal(DataValue::Boolean(Some(false))).column_name(), "false");
    assert_eq!(
        ExpressionAction::Literal(DataValue::UInt64(Some(u64::MAX))).column_name(),
        "18446744073709551615"
    );
    assert_eq!(unary("not", col("c")).column_name(), "(not c)");
    assert_eq!(binary("+", col("a"), lit(1)).column_name(), "(a + 1)");
    assert_eq!(scalar("f", vec![]).column_name(), "f()");
    assert_eq!(scalar("f", vec![col("a")]).column_name(), "f(a)");
    assert_eq!(aggregate("g", vec![col("a"), lit(2), col("b")]).column_name(), "g(a, 2, b)");
    assert_eq!(sort(binary("+", col("a"), lit(1))).column_name(), "(a + 1)");
    assert_eq!(ExpressionAction::Wildcard.column_name(), "*");
    assert_eq!(cast(col("a"), DataType::Float32).column_name(), "cast(a as Float32)");
}

#[test]
fn numbers_are_written_in_decimal() {
    assert_eq!(decimal_string(0), "0");
    assert_eq!(decimal_string(9), "9");
    assert_eq!(decimal_string(10), "10");
    assert_eq!(decimal_string(1234567890), "1234567890");
    assert_eq!(decimal_string(u64::MAX), u64::MAX.to_string());
    assert_eq!(signed_string(0), "0");
    assert_eq!(signed_string(-1), "-1");
    assert_eq!(signed_string(i64::MAX), i64::MAX.to_string());
    assert_eq!(signed_string(i64::MIN), i64::MIN.to_string());
}

#[test]
fn types_of_expressions() {
    let schema = schema();
    let registry = registry();
    assert_eq!(col("b").to_data_type(&schema, &registry).unwrap(), DataType::Utf8);
    assert_eq!(lit(1).to_data_type(&schema, &registry).unwrap(), DataType::Int64);
    assert_eq!(
        ExpressionAction::Literal(DataValue::Null).to_data_type(&schema, &registry).unwrap(),
        DataType::Null
    );
    assert_eq!(
        alias("x", sort(binary("=", col("a"), col("b")))).to_data_type(&schema, &registry).unwrap(),
        DataType::Boolean
    );
    assert_eq!(
        aggregate("count", vec![col("c")]).to_data_type(&schema, &registry).unwrap(),
        DataType::UInt64
    );
    assert_eq!(
        ExpressionAction::types_of(&vec![col("a"), col("b"), col("c")], &schema, &registry).unwrap(),
        vec![DataType::Int64, DataType::Utf8, DataType::Boolean]
    );
    assert_eq!(
        ExpressionAction::types_of(&vec![col("a"), col("z"), ExpressionAction::Wildcard], &schema, &registry)
            .unwrap_err(),
        ErrorCodes::FieldNotFound
    );
}

#[test]
fn return_types_follow_the_rule() {
    let fixed = FunctionSignature::new("f", None, ArgumentKind::Any, ReturnRule::Fixed(DataType::Utf8));
    assert_eq!(fixed.return_type(&[]).unwrap(), DataType::Utf8);
    assert_eq!(fixed.return_type(&[DataType::Null, DataType::Int8]).unwrap(), DataType::Utf8);
    let same = FunctionSignature::new("g", Some(2), ArgumentKind::Numeric, ReturnRule::SameAsArgument(1));
    assert_eq!(same.return_type(&[DataType::Int8, DataType::Float64]).unwrap(), DataType::Float64);
    assert_eq!(same.return_type(&[DataType::Int8]).unwrap_err(), ErrorCodes::TypeError);
    assert_eq!(
        same.return_type(&[DataType::Int8, DataType::Utf8]).unwrap_err(),
        ErrorCodes::TypeError
    );
    let text = FunctionSignature::new("h", Some(1), ArgumentKind::Text, ReturnRule::SameAsArgument(0));
    assert_eq!(text.return_type(&[DataType::Utf8]).unwrap(), DataType::Utf8);
    assert_eq!(text.return_type(&[DataType::Boolean]).unwrap_err(), ErrorCodes::TypeError);
    assert_eq!(text.clone(), text);
    assert!(ArgumentKind::Boolean.admits(DataType::Boolean));
    assert!(!ArgumentKind::Boolean.admits(DataType::Int64));
    assert!(DataType::UInt16.is_numeric());
    assert!(!DataType::Null.is_numeric());
    assert_eq!(DataType::UInt16.name(), "UInt16");
}

#[test]
fn the_first_registration_of_a_name_is_found() {
    let mut factory = FunctionFactory::new();
    factory.register(FunctionSignature::new("f", None, ArgumentKind::Any, ReturnRule::Fixed(DataType::Utf8)));
    factory.register(FunctionSignature::new("f", None, ArgumentKind::Any, ReturnRule::Fixed(DataType::Int64)));
    assert_eq!(factory.get(&"f".to_string()).unwrap().rule, ReturnRule::Fixed(DataType::Utf8));
    assert_eq!(factory.get(&"g".to_string()).unwrap_err(), ErrorCodes::FunctionNotFound);
}

#[test]
fn schema_lookup_finds_the_first_field_of_a_name() {
    let schema = DataSchema::new(vec![
        DataField::new("a", DataType::Int64, false),
        DataField::new("b", DataType::Utf8, true),
        DataField::new("a", DataType::Boolean, false),
    ]);
    assert_eq!(schema.index_of("a").unwrap(), 0);
    assert_eq!(schema.index_of("b").unwrap(), 1);
    assert_eq!(schema.field_with_name("a").unwrap().data_type(), DataType::Int64);
    assert!(schema.field_with_name("b").unwrap().is_nullable());
    assert_eq!(schema.field_with_name("c").unwrap_err(), ErrorCodes::FieldNotFound);
    assert_eq!(schema.fields().len(), 3);
    assert_eq!(DataValue::Utf8(None).data_type(), DataType::Utf8);
    assert_eq!(DataValue::Boolean(Some(true)).clone(), DataValue::Boolean(Some(true)));
}
