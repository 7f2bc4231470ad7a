//! Expression chains: an expression tree flattened into a sequence of
//! actions in which every action stands behind those whose results it reads.

use vstd::prelude::*;

use crate::datavalues::{DataSchema, DataSchemaRef, DataType, DataValue};
use crate::error::ErrorCodes;
use crate::expression::{argument_types, ExpressionAction};
use crate::functions::{CastFunction, Function, FunctionFactory, FunctionRegistry, FunctionSignature};

verus! {

/// A column read from the input.
#[derive(Debug, Clone, PartialEq, Eq)]
pub struct ActionInput {
    pub name: String,
    pub return_type: DataType,
}

/// A column that holds one value.
#[derive(Debug, Clone, PartialEq, Eq)]
pub struct ActionConstant {
    pub name: String,
    pub value: DataValue,
}

/// The result of an earlier action under another name.
#[derive(Debug, Clone, PartialEq, Eq)]
pub struct ActionAlias {
    pub name: String,
    pub arg_name: String,
    pub arg_type: DataType,
}

/// A call of a scalar or aggregate function on the results of earlier actions.
#[derive(Debug, Clone, PartialEq, Eq)]
pub struct ActionFunction {
    pub name: String,
    pub func_name: String,
    pub is_aggregated: bool,
    pub arg_names: Vec<String>,
    pub arg_types: Vec<DataType>,
    pub return_type: DataType,
}

/// One step of an expression chain.
#[derive(Debug, Clone, PartialEq, Eq)]
pub enum ActionNode {
    /// Column which must be in input.
    Input(ActionInput),
    /// Constant column with known value.
    Constant(ActionConstant),
    Alias(ActionAlias),
    Function(ActionFunction),
}

/// What an action says, with its names as sequences of characters.
pub enum ActionView {
    Input { name: Seq<char>, return_type: DataType },
    Constant { name: Seq<char>, value: DataValue },
    Alias { name: Seq<char>, arg_name: Seq<char>, arg_type: DataType },
    Function {
        name: Seq<char>,
        func_name: Seq<char>,
        is_aggregated: bool,
        arg_names: Seq<Seq<char>>,
        arg_types: Seq<DataType>,
        return_type: DataType,
    },
}

impl ActionView {
    /// The name of the column that the action fills.
    pub open spec fn name(self) -> Seq<char> {
        match self {
            ActionView::Input { name, .. } => name,
            ActionView::Constant { name, .. } => name,
            ActionView::Alias { name, .. } => name,
            ActionView::Function { name, .. } => name,
        }
    }

    /// The names of the columns that the action reads.
    pub open spec fn arg_names(self) -> Seq<Seq<char>> {
        match self {
            ActionView::Alias { arg_name, .. } => seq![arg_name],
            ActionView::Function { arg_names, .. } => arg_names,
            _ => Seq::empty(),
        }
    }
}

/// The strings of `names` as sequences of characters.
pub open spec fn names_view(names: Seq<String>) -> Seq<Seq<char>> {
    Seq::new(names.len(), |i: int| names[i]@)
}

impl View for ActionNode {
    type V = ActionView;

    open spec fn view(&self) -> ActionView {
        match self {
            ActionNode::Input(a) => ActionView::Input { name: a.name@, return_type: a.return_type },
            ActionNode::Constant(a) => ActionView::Constant { name: a.name@, value: a.value },
            ActionNode::Alias(a) => ActionView::Alias {
                name: a.name@,
                arg_name: a.arg_name@,
                arg_type: a.arg_type,
            },
            ActionNode::Function(a) => ActionView::Function {
                name: a.name@,
                func_name: a.func_name@,
                is_aggregated: a.is_aggregated,
                arg_names: names_view(a.arg_names@),
                arg_types: a.arg_types@,
                return_type: a.return_type,
            },
        }
    }
}

impl ActionNode {
    /// The name of the column that the action fills.
    pub fn column_name(&self) -> (s: &str)
        ensures
            s@ == self@.name(),
    {
        match self {
            ActionNode::Input(input) => input.name.as_str(),
            ActionNode::Constant(c) => c.name.as_str(),
            ActionNode::Alias(a) => a.name.as_str(),
            ActionNode::Function(f) => f.name.as_str(),
        }
    }
}

/// What `to_function` gives for an action with these contents.
pub open spec fn resolved_function(
    func_name: Seq<char>,
    is_aggregated: bool,
    return_type: DataType,
    registry: &FunctionRegistry,
) -> Result<Function, ErrorCodes> {
    if is_aggregated {
        Err(ErrorCodes::LogicalError)
    } else if func_name == "cast"@ {
        Ok(Function::Cast(CastFunction { cast_type: return_type }))
    } else {
        match registry.scalars.spec_get(func_name) {
            Some(f) => Ok(Function::Registered(f)),
            None => Err(ErrorCodes::FunctionNotFound),
        }
    }
}

/// What `to_aggregate_function` gives for an action with these contents.
pub open spec fn resolved_aggregate_function(
    func_name: Seq<char>,
    is_aggregated: bool,
    registry: &FunctionRegistry,
) -> Result<FunctionSignature, ErrorCodes> {
    if !is_aggregated {
        Err(ErrorCodes::LogicalError)
    } else {
        match registry.aggregates.spec_get(func_name) {
            Some(f) => Ok(f),
            None => Err(ErrorCodes::FunctionNotFound),
        }
    }
}

impl ActionFunction {
    /// The scalar function that the action calls: the cast operator to the
    /// action's result type where the function is called `cast`, else the
    /// registry's scalar function of that name. An aggregated action has
    /// none: `LogicalError`.
    pub fn to_function(&self, registry: &FunctionRegistry) -> (r: Result<Function, ErrorCodes>)
        ensures
            r == resolved_function(self.func_name@, self.is_aggregated, self.return_type, registry),
            self.is_aggregated ==> r == Err::<Function, ErrorCodes>(ErrorCodes::LogicalError),
    {
        if self.is_aggregated {
            return Err(ErrorCodes::LogicalError);
        }
        let cast_name: String = "cast".to_owned();
        if self.func_name == cast_name {
            Ok(Function::Cast(CastFunction::create(self.return_type)))
        } else {
            match registry.scalars.get(&self.func_name) {
                Ok(f) => Ok(Function::Registered(f.clone())),
                Err(e) => Err(e),
            }
        }
    }

    /// The registry's aggregate function that the action calls. An action
    /// that is not aggregated has none: `LogicalError`.
    pub fn to_aggregate_function(&self, registry: &FunctionRegistry) -> (r: Result<
        FunctionSignature,
        ErrorCodes,
    >)
        ensures
            r == resolved_aggregate_function(self.func_name@, self.is_aggregated, registry),
            !self.is_aggregated ==> r == Err::<FunctionSignature, ErrorCodes>(
                ErrorCodes::LogicalError,
            ),
    {
        if !self.is_aggregated {
            return Err(ErrorCodes::LogicalError);
        }
        match registry.aggregates.get(&self.func_name) {
            Ok(f) => Ok(f.clone()),
            Err(e) => Err(e),
        }
    }
}

/// The column names of `args`.
pub open spec fn argument_names(args: Seq<ExpressionAction>) -> Seq<Seq<char>> {
    Seq::new(args.len(), |i: int| args[i].spec_column_name())
}

/// The action that calls the function `op` of `factory` on `args`: the
/// function is looked up, then the arguments are typed from left to right,
/// then the function gives its result type; the first failure is the result.
pub open spec fn function_step(
    name: Seq<char>,
    op: Seq<char>,
    factory: &FunctionFactory,
    is_aggregated: bool,
    args: Seq<ExpressionAction>,
    schema: &DataSchema,
    registry: &FunctionRegistry,
) -> Result<ActionView, ErrorCodes> {
    match factory.spec_get(op) {
        None => Err(ErrorCodes::FunctionNotFound),
        Some(f) => match argument_types(args, args.len() as int, schema, registry) {
            Err(e) => Err(e),
            Ok(types) => match f.spec_return_type(types) {
                Err(e) => Err(e),
                Ok(return_type) => Ok(
                    ActionView::Function {
                        name,
                        func_name: op,
                        is_aggregated,
                        arg_names: argument_names(args),
                        arg_types: types,
                        return_type,
                    },
                ),
            },
        },
    }
}

/// `steps` with one more step behind them, where there is one.
pub open spec fn followed_by(steps: Seq<ActionView>, step: Result<ActionView, ErrorCodes>) -> Result<
    Seq<ActionView>,
    ErrorCodes,
> {
    match step {
        Ok(s) => Ok(steps.push(s)),
        Err(e) => Err(e),
    }
}

/// The steps of the first `n` of `exprs`, one expression after the other,
/// or the error of the first of them that has none.
pub open spec fn compiled_list(
    exprs: Seq<ExpressionAction>,
    n: int,
    schema: &DataSchema,
    registry: &FunctionRegistry,
) -> Result<Seq<ActionView>, ErrorCodes>
    decreases exprs, n,
{
    if n <= 0 || n > exprs.len() {
        Ok(Seq::empty())
    } else {
        match compiled_list(exprs, n - 1, schema, registry) {
            Err(e) => Err(e),
            Ok(before) => match compiled(&exprs[n - 1], schema, registry) {
                Err(e) => Err(e),
                Ok(steps) => Ok(before + steps),
            },
        }
    }
}

/// The steps of `expr` over `schema`: those of its operands from left to
/// right, then its own. A wildcard has no step, and a sort has none beyond
/// those of what it sorts. The first failure is the result.
pub open spec fn compiled(expr: &ExpressionAction, schema: &DataSchema, registry: &FunctionRegistry) -> Result<
    Seq<ActionView>,
    ErrorCodes,
>
    decreases expr,
{
    match expr {
        ExpressionAction::Alias(name, inner) => match compiled(inner, schema, registry) {
            Err(e) => Err(e),
            Ok(steps) => match inner.spec_to_data_type(schema, registry) {
                Err(e) => Err(e),
                Ok(arg_type) => Ok(
                    steps.push(
                        ActionView::Alias {
                            name: name@,
                            arg_name: inner.spec_column_name(),
                            arg_type,
                        },
                    ),
                ),
            },
        },
        ExpressionAction::Column(name) => match schema.spec_type_of(name@) {
            None => Err(ErrorCodes::FieldNotFound),
            Some(return_type) => Ok(seq![ActionView::Input { name: name@, return_type }]),
        },
        ExpressionAction::Literal(value) => Ok(
            seq![ActionView::Constant { name: value.spec_render(), value: *value }],
        ),
        ExpressionAction::UnaryExpression { op, expr: inner } => match compiled(
            inner,
            schema,
            registry,
        ) {
            Err(e) => Err(e),
            Ok(steps) => followed_by(
                steps,
                function_step(
                    expr.spec_column_name(),
                    op@,
                    &registry.scalars,
                    false,
                    seq![**inner],
                    schema,
                    registry,
                ),
            ),
        },
        ExpressionAction::BinaryExpression { op, left, right } => match compiled(
            left,
            schema,
            registry,
        ) {
            Err(e) => Err(e),
            Ok(left_steps) => match compiled(right, schema, registry) {
                Err(e) => Err(e),
                Ok(right_steps) => followed_by(
                    left_steps + right_steps,
                    function_step(
                        expr.spec_column_name(),
                        op@,
                        &registry.scalars,
                        false,
                        seq![**left, **right],
                        schema,
                        registry,
                    ),
                ),
            },
        },
        ExpressionAction::ScalarFunction { op, args } => match compiled_list(
            args@,
            args@.len() as int,
            schema,
            registry,
        ) {
            Err(e) => Err(e),
            Ok(steps) => followed_by(
                steps,
                function_step(
                    expr.spec_column_name(),
                    op@,
                    &registry.scalars,
                    false,
                    args@,
                    schema,
                    registry,
                ),
            ),
        },
        ExpressionAction::AggregateFunction { op, args } => match compiled_list(
            args@,
            args@.len() as int,
            schema,
            registry,
        ) {
            Err(e) => Err(e),
            Ok(steps) => followed_by(
                steps,
                function_step(
                    expr.spec_column_name(),
                    op@,
                    &registry.aggregates,
                    true,
                    args@,
                    schema,
                    registry,
                ),
            ),
        },
        ExpressionAction::Sort { expr: inner, .. } => compiled(inner, schema, registry),
        ExpressionAction::Wildcard => Ok(Seq::empty()),
        ExpressionAction::Cast { expr: inner, data_type } => match compiled(
            inner,
            schema,
            registry,
        ) {
            Err(e) => Err(e),
            Ok(steps) => match inner.spec_to_data_type(schema, registry) {
                Err(e) => Err(e),
                Ok(arg_type) => Ok(
                    steps.push(
                        ActionView::Function {
                            name: expr.spec_column_name(),
                            func_name: "cast"@,
                            is_aggregated: false,
                            arg_names: seq![inner.spec_column_name()],
                            arg_types: seq![arg_type],
                            return_type: *data_type,
                        },
                    ),
                ),
            },
        },
    }
}

/// The views of `actions`, in order.
#[verifier::opaque]
pub open spec fn actions_view(actions: Seq<ActionNode>) -> Seq<ActionView> {
    Seq::new(actions.len(), |i: int| actions[i]@)
}

/// Whether one of the first `i` of `steps` fills the column `name`.
pub open spec fn defined_before(steps: Seq<ActionView>, i: int, name: Seq<char>) -> bool {
    exists|j: int| 0 <= j < i && j < steps.len() && #[trigger] steps[j].name() == name
}

/// Whether every step reads only columns that earlier steps fill.
pub open spec fn topologically_valid(steps: Seq<ActionView>) -> bool {
    forall|i: int, k: int|
        0 <= i < steps.len() && 0 <= k < steps[i].arg_names().len() ==> defined_before(
            steps,
            i,
            #[trigger] steps[i].arg_names()[k],
        )
}

/// An input schema and the actions compiled over it.
#[derive(Debug, Clone, PartialEq, Eq)]
pub struct ExpressionChain {
    // input schema
    pub schema: DataSchemaRef,
    pub actions: Vec<ActionNode>,
}

/// Once the first `n` expressions have no steps, no longer prefix has.
pub proof fn lemma_compiled_list_error(
    exprs: Seq<ExpressionAction>,
    n: int,
    m: int,
    schema: &DataSchema,
    registry: &FunctionRegistry,
)
    requires
        0 <= n <= m <= exprs.len(),
        compiled_list(exprs, n, schema, registry) is Err,
    ensures
        compiled_list(exprs, m, schema, registry) == compiled_list(exprs, n, schema, registry),
    decreases m - n,
{
    if n < m {
        lemma_compiled_list_error(exprs, n, m - 1, schema, registry);
    }
}

/// The column names of `args`, in order.
fn names_of(args: &Vec<ExpressionAction>) -> (names: Vec<String>)
    ensures
        names_view(names@) == argument_names(args@),
{
    let mut names: Vec<String> = Vec::new();
    let mut i: usize = 0;
    while i < args.len()
        invariant
            i <= args.len(),
            names@.len() == i,
            forall|j: int| 0 <= j < i ==> (#[trigger] names@[j])@ == args@[j].spec_column_name(),
        decreases args.len() - i,
    {
        names.push(args[i].column_name());
        i = i + 1;
    }
    assert(names_view(names@) =~= argument_names(args@));
    names
}

/// The action of the call `op(args)`, the function taken from `factory`.
fn function_action(
    name: String,
    op: &String,
    factory: &FunctionFactory,
    is_aggregated: bool,
    args: &Vec<ExpressionAction>,
    schema: &DataSchema,
    registry: &FunctionRegistry,
) -> (r: Result<ActionNode, ErrorCodes>)
    ensures
        match r {
            Ok(node) => function_step(name@, op@, factory, is_aggregated, args@, schema, registry)
                == Ok::<ActionView, ErrorCodes>(node@),
            Err(e) => function_step(name@, op@, factory, is_aggregated, args@, schema, registry)
                == Err::<ActionView, ErrorCodes>(e),
        },
{
    let func = match factory.get(op) {
        Ok(f) => f,
        Err(e) => { return Err(e); },
    };
    let arg_types: Vec<DataType> = match ExpressionAction::types_of(args, schema, registry) {
        Ok(t) => t,
        Err(e) => { return Err(e); },
    };
    let return_type: DataType = match func.return_type(arg_types.as_slice()) {
        Ok(t) => t,
        Err(e) => { return Err(e); },
    };
    let function = ActionFunction {
        name,
        func_name: op.clone(),
        is_aggregated,
        arg_names: names_of(args),
        arg_types,
        return_type,
    };
    Ok(ActionNode::Function(function))
}

/// The action of the scalar call `op(nested)`.
fn unary_action(
    name: String,
    op: &String,
    nested: &ExpressionAction,
    schema: &DataSchema,
    registry: &FunctionRegistry,
) -> (r: Result<ActionNode, ErrorCodes>)
    ensures
        match r {
            Ok(node) => function_step(
                name@,
                op@,
                &registry.scalars,
                false,
                seq![*nested],
                schema,
                registry,
            ) == Ok::<ActionView, ErrorCodes>(node@),
            Err(e) => function_step(
                name@,
                op@,
                &registry.scalars,
                false,
                seq![*nested],
                schema,
                registry,
            ) == Err::<ActionView, ErrorCodes>(e),
        },
{
    let ghost args = seq![*nested];
    let func = match registry.scalars.get(op) {
        Ok(f) => f,
        Err(e) => { return Err(e); },
    };
    assert(argument_types(args, 0, schema, registry) == Ok::<Seq<DataType>, ErrorCodes>(
        Seq::empty(),
    ));
    let arg_types: Vec<DataType> = match nested.to_data_type(schema, registry) {
        Ok(t) => vec![t],
        Err(e) => { return Err(e); },
    };
    assert(Seq::<DataType>::empty().push(arg_types@[0]) =~= arg_types@);
    let return_type: DataType = match func.return_type(arg_types.as_slice()) {
        Ok(t) => t,
        Err(e) => { return Err(e); },
    };
    let arg_names: Vec<String> = vec![nested.column_name()];
    assert(names_view(arg_names@) =~= argument_names(args));
    let function = ActionFunction {
        name,
        func_name: op.clone(),
        is_aggregated: false,
        arg_names,
        arg_types,
        return_type,
    };
    Ok(ActionNode::Function(function))
}

/// The action of the scalar call `op(left, right)`.
fn binary_action(
    name: String,
    op: &String,
    left: &ExpressionAction,
    right: &ExpressionAction,
    schema: &DataSchema,
    registry: &FunctionRegistry,
) -> (r: Result<ActionNode, ErrorCodes>)
    ensures
        match r {
            Ok(node) => function_step(
                name@,
                op@,
                &registry.scalars,
                false,
                seq![*left, *right],
                schema,
                registry,
            ) == Ok::<ActionView, ErrorCodes>(node@),
            Err(e) => function_step(
                name@,
                op@,
                &registry.scalars,
                false,
                seq![*left, *right],
                schema,
                registry,
            ) == Err::<ActionView, ErrorCodes>(e),
        },
{
    let ghost args = seq![*left, *right];
    let func = match registry.scalars.get(op) {
        Ok(f) => f,
        Err(e) => { return Err(e); },
    };
    assert(argument_types(args, 0, schema, registry) == Ok::<Seq<DataType>, ErrorCodes>(
        Seq::empty(),
    ));
    let left_type: DataType = match left.to_data_type(schema, registry) {
        Ok(t) => t,
        Err(e) => {
            assert(argument_types(args, 1, schema, registry) == Err::<Seq<DataType>, ErrorCodes>(
                e,
            ));
            return Err(e);
        },
    };
    assert(argument_types(args, 1, schema, registry) == Ok::<Seq<DataType>, ErrorCodes>(
        Seq::empty().push(left_type),
    ));
    let right_type: DataType = match right.to_data_type(schema, registry) {
        Ok(t) => t,
        Err(e) => { return Err(e); },
    };
    let arg_types: Vec<DataType> = vec![left_type, right_type];
    assert(Seq::<DataType>::empty().push(left_type).push(right_type) =~= arg_types@);
    let return_type: DataType = match func.return_type(arg_types.as_slice()) {
        Ok(t) => t,
        Err(e) => { return Err(e); },
    };
    let arg_names: Vec<String> = vec![left.column_name(), right.column_name()];
    assert(names_view(arg_names@) =~= argument_names(args));
    let function = ActionFunction {
        name,
        func_name: op.clone(),
        is_aggregated: false,
        arg_names,
        arg_types,
        return_type,
    };
    Ok(ActionNode::Function(function))
}

impl ExpressionChain {
    /// The views of the chain's actions, in order.
    pub open spec fn steps(&self) -> Seq<ActionView> {
        actions_view(self.actions@)
    }

    /// Compiles `exprs` over `schema`, one after the other, into one chain.
    pub fn try_create(schema: DataSchemaRef, exprs: &[ExpressionAction], registry: &FunctionRegistry) -> (r:
        Result<ExpressionChain, ErrorCodes>)
        ensures
            match r {
                Ok(chain) => chain.schema == schema && compiled_list(
                    exprs@,
                    exprs@.len() as int,
                    &*schema,
                    registry,
                ) == Ok::<Seq<ActionView>, ErrorCodes>(chain.steps()) && topologically_valid(
                    chain.steps(),
                ),
                Err(e) => compiled_list(exprs@, exprs@.len() as int, &*schema, registry) == Err::<
                    Seq<ActionView>,
                    ErrorCodes,
                >(e),
            },
    {
        let mut chain = ExpressionChain { schema, actions: Vec::new() };
        reveal(actions_view);
        assert(chain.steps() =~= Seq::<ActionView>::empty());
        let mut i: usize = 0;
        while i < exprs.len()
            invariant
                i <= exprs.len(),
                chain.schema == schema,
                compiled_list(exprs@, i as int, &*schema, registry) == Ok::<
                    Seq<ActionView>,
                    ErrorCodes,
                >(chain.steps()),
            decreases exprs.len() - i,
        {
            let ghost before = chain.steps();
            match chain.add_expr(&exprs[i], registry) {
                Ok(()) => {},
                Err(e) => {
                    proof {
                        lemma_compiled_list_error(
                            exprs@,
                            i as int + 1,
                            exprs@.len() as int,
                            &*schema,
                            registry,
                        );
                    }
                    return Err(e);
                },
            }
            i = i + 1;
        }
        proof {
            lemma_chain_topologically_valid(exprs@, &*schema, registry);
        }
        Ok(chain)
    }

    /// Puts `node` behind the chain's actions.
    fn push_action(&mut self, node: ActionNode)
        ensures
            final(self).schema == old(self).schema,
            final(self).steps() == old(self).steps().push(node@),
    {
        self.actions.push(node);
        reveal(actions_view);
        assert(self.steps() =~= old(self).steps().push(node@));
    }

    /// Compiles `args`, one after the other, behind the chain's actions.
    fn add_exprs(&mut self, args: &Vec<ExpressionAction>, registry: &FunctionRegistry) -> (r: Result<
        (),
        ErrorCodes,
    >)
        ensures
            final(self).schema == old(self).schema,
            match r {
                Ok(()) => compiled_list(args@, args@.len() as int, &*old(self).schema, registry) matches Ok(
                    steps,
                ) && final(self).steps() == old(self).steps() + steps,
                Err(e) => compiled_list(args@, args@.len() as int, &*old(self).schema, registry)
                    == Err::<Seq<ActionView>, ErrorCodes>(e),
            },
        decreases args,
    {
        let ghost before = self.steps();
        let mut i: usize = 0;
        assert(before + Seq::<ActionView>::empty() =~= before);
        while i < args.len()
            invariant
                i <= args.len(),
                self.schema == old(self).schema,
                before == old(self).steps(),
                compiled_list(args@, i as int, &*self.schema, registry) matches Ok(steps)
                    && self.steps() == before + steps,
            decreases args.len() - i,
        {
            let ghost sofar = compiled_list(args@, i as int, &*self.schema, registry).unwrap();
            match self.add_expr(&args[i], registry) {
                Ok(()) => {
                    proof {
                        let more = compiled(&args@[i as int], &*self.schema, registry).unwrap();
                        assert(before + sofar + more =~= before + (sofar + more));
                    }
                },
                Err(e) => {
                    proof {
                        lemma_compiled_list_error(
                            args@,
                            i as int + 1,
                            args@.len() as int,
                            &*self.schema,
                            registry,
                        );
                    }
                    return Err(e);
                },
            }
            i = i + 1;
        }
        Ok(())
    }

    /// Compiles `expr` behind the chain's actions: first its operands from
    /// left to right, then the step of `expr` itself.
    fn add_expr(&mut self, expr: &ExpressionAction, registry: &FunctionRegistry) -> (r: Result<
        (),
        ErrorCodes,
    >)
        ensures
            final(self).schema == old(self).schema,
            match r {
                Ok(()) => compiled(expr, &*old(self).schema, registry) matches Ok(steps)
                    && final(self).steps() == old(self).steps() + steps,
                Err(e) => compiled(expr, &*old(self).schema, registry) == Err::<
                    Seq<ActionView>,
                    ErrorCodes,
                >(e),
            },
        decreases expr,
    {
        let ghost before = self.steps();
        match expr {
            ExpressionAction::Alias(name, sub_expr) => {
                match self.add_expr(sub_expr, registry) {
                    Ok(()) => {},
                    Err(e) => { return Err(e); },
                }
                let return_type: DataType = match expr.to_data_type(&self.schema, registry) {
                    Ok(t) => t,
                    Err(e) => { return Err(e); },
                };
                let alias = ActionAlias {
                    name: name.clone(),
                    arg_name: sub_expr.column_name(),
                    arg_type: return_type,
                };
                let ghost inner = compiled(sub_expr, &*self.schema, registry).unwrap();
                self.push_action(ActionNode::Alias(alias));
                assert((before + inner).push(ActionNode::Alias(alias)@) =~= before + inner.push(
                    ActionNode::Alias(alias)@,
                ));
            },
            ExpressionAction::Column(c) => {
                let arg_type: DataType = match self.schema.field_with_name(c.as_str()) {
                    Ok(f) => f.data_type(),
                    Err(e) => { return Err(e); },
                };
                let input = ActionInput { name: expr.column_name(), return_type: arg_type };
                self.push_action(ActionNode::Input(input));
                assert(before.push(ActionNode::Input(input)@) =~= before + seq![
                    ActionNode::Input(input)@,
                ]);
            },
            ExpressionAction::Literal(l) => {
                let value = ActionConstant { name: expr.column_name(), value: l.clone() };
                self.push_action(ActionNode::Constant(value));
                assert(before.push(ActionNode::Constant(value)@) =~= before + seq![
                    ActionNode::Constant(value)@,
                ]);
            },
            ExpressionAction::UnaryExpression { op, expr: nested_expr } => {
                match self.add_expr(nested_expr, registry) {
                    Ok(()) => {},
                    Err(e) => { return Err(e); },
                }
                let ghost inner = compiled(nested_expr, &*self.schema, registry).unwrap();
                let function = match unary_action(
                    expr.column_name(),
                    op,
                    nested_expr,
                    &self.schema,
                    registry,
                ) {
                    Ok(f) => f,
                    Err(e) => { return Err(e); },
                };
                self.push_action(function);
                assert((before + inner).push(function@) =~= before + inner.push(function@));
            },
            ExpressionAction::BinaryExpression { op, left, right } => {
                match self.add_expr(left, registry) {
                    Ok(()) => {},
                    Err(e) => { return Err(e); },
                }
                match self.add_expr(right, registry) {
                    Ok(()) => {},
                    Err(e) => { return Err(e); },
                }
                let ghost left_steps = compiled(left, &*self.schema, registry).unwrap();
                let ghost right_steps = compiled(right, &*self.schema, registry).unwrap();
                let function = match binary_action(
                    expr.column_name(),
                    op,
                    left,
                    right,
                    &self.schema,
                    registry,
                ) {
                    Ok(f) => f,
                    Err(e) => { return Err(e); },
                };
                self.push_action(function);
                assert((before + left_steps + right_steps).push(function@) =~= before + (left_steps
                    + right_steps).push(function@));
            },
            ExpressionAction::ScalarFunction { op, args } => {
                match self.add_exprs(args, registry) {
                    Ok(()) => {},
                    Err(e) => { return Err(e); },
                }
                let ghost inner = compiled_list(
                    args@,
                    args@.len() as int,
                    &*self.schema,
                    registry,
                ).unwrap();
                let function = match function_action(
                    expr.column_name(),
                    op,
                    &registry.scalars,
                    false,
                    args,
                    &self.schema,
                    registry,
                ) {
                    Ok(f) => f,
                    Err(e) => { return Err(e); },
                };
                self.push_action(function);
                assert((before + inner).push(function@) =~= before + inner.push(function@));
            },
            ExpressionAction::AggregateFunction { op, args } => {
                match self.add_exprs(args, registry) {
                    Ok(()) => {},
                    Err(e) => { return Err(e); },
                }
                let ghost inner = compiled_list(
                    args@,
                    args@.len() as int,
                    &*self.schema,
                    registry,
                ).unwrap();
                let function = match function_action(
                    expr.column_name(),
                    op,
                    &registry.aggregates,
                    true,
                    args,
                    &self.schema,
                    registry,
                ) {
                    Ok(f) => f,
                    Err(e) => { return Err(e); },
                };
                self.push_action(function);
                assert((before + inner).push(function@) =~= before + inner.push(function@));
            },
            ExpressionAction::Sort { expr: sub_expr, .. } => {
                match self.add_expr(sub_expr, registry) {
                    Ok(()) => {},
                    Err(e) => { return Err(e); },
                }
            },
            ExpressionAction::Wildcard => {
                assert(before + Seq::<ActionView>::empty() =~= before);
            },
            ExpressionAction::Cast { expr: sub_expr, data_type } => {
                match self.add_expr(sub_expr, registry) {
                    Ok(()) => {},
                    Err(e) => { return Err(e); },
                }
                let ghost inner = compiled(sub_expr, &*self.schema, registry).unwrap();
                let arg_types: Vec<DataType> = match sub_expr.to_data_type(&self.schema, registry) {
                    Ok(t) => vec![t],
                    Err(e) => { return Err(e); },
                };
                let arg_names: Vec<String> = vec![sub_expr.column_name()];
                assert(names_view(arg_names@) =~= seq![sub_expr.spec_column_name()]);
                assert(arg_types@ =~= seq![arg_types@[0]]);
                let function = ActionFunction {
                    name: expr.column_name(),
                    func_name: "cast".to_owned(),
                    is_aggregated: false,
                    arg_names,
                    arg_types,
                    return_type: *data_type,
                };
                self.push_action(ActionNode::Function(function));
                assert((before + inner).push(ActionNode::Function(function)@) =~= before
                    + inner.push(ActionNode::Function(function)@));
            },
        }
        Ok(())
    }
}

/// A column that is filled before a position of `a` is filled before the
/// same position of `a + b`.
proof fn lemma_defined_in_front(a: Seq<ActionView>, b: Seq<ActionView>, i: int, name: Seq<char>)
    requires
        defined_before(a, i, name),
    ensures
        defined_before(a + b, i, name),
{
    let j = choose|j: int| 0 <= j < i && j < a.len() && #[trigger] a[j].name() == name;
    assert((a + b)[j].name() == name);
}

/// A column that is filled before a position of `b` is filled before the
/// position that stands for it in `a + b`.
proof fn lemma_defined_behind(a: Seq<ActionView>, b: Seq<ActionView>, i: int, name: Seq<char>)
    requires
        defined_before(b, i, name),
    ensures
        defined_before(a + b, a.len() + i, name),
{
    let j = choose|j: int| 0 <= j < i && j < b.len() && #[trigger] b[j].name() == name;
    assert((a + b)[a.len() + j].name() == name);
}

/// Two valid sequences of steps, one behind the other, are valid.
proof fn lemma_valid_concat(a: Seq<ActionView>, b: Seq<ActionView>)
    requires
        topologically_valid(a),
        topologically_valid(b),
    ensures
        topologically_valid(a + b),
{
    let c = a + b;
    assert forall|i: int, k: int| 0 <= i < c.len() && 0 <= k < c[i].arg_names().len() implies defined_before(
        c,
        i,
        #[trigger] c[i].arg_names()[k],
    ) by {
        if i < a.len() {
            assert(defined_before(a, i, a[i].arg_names()[k]));
            lemma_defined_in_front(a, b, i, a[i].arg_names()[k]);
        } else {
            let i2 = i - a.len();
            assert(defined_before(b, i2, b[i2].arg_names()[k]));
            lemma_defined_behind(a, b, i2, b[i2].arg_names()[k]);
        }
    }
}

/// A valid sequence stays valid with a step behind it that reads only
/// columns that the sequence fills.
proof fn lemma_valid_push(a: Seq<ActionView>, step: ActionView)
    requires
        topologically_valid(a),
        forall|k: int|
            0 <= k < step.arg_names().len() ==> defined_before(
                a,
                a.len() as int,
                #[trigger] step.arg_names()[k],
            ),
    ensures
        topologically_valid(a.push(step)),
{
    let c = a.push(step);
    assert(c =~= a + seq![step]);
    assert forall|i: int, k: int| 0 <= i < c.len() && 0 <= k < c[i].arg_names().len() implies defined_before(
        c,
        i,
        #[trigger] c[i].arg_names()[k],
    ) by {
        if i < a.len() {
            assert(defined_before(a, i, a[i].arg_names()[k]));
            lemma_defined_in_front(a, seq![step], i, a[i].arg_names()[k]);
        } else {
            assert(defined_before(a, a.len() as int, step.arg_names()[k]));
            lemma_defined_in_front(a, seq![step], a.len() as int, step.arg_names()[k]);
        }
    }
}

/// Where the first `n` arguments have types, each of them has one, and there
/// are `n` types.
pub proof fn lemma_argument_types_each(
    args: Seq<ExpressionAction>,
    n: int,
    schema: &DataSchema,
    registry: &FunctionRegistry,
)
    requires
        0 <= n <= args.len(),
        argument_types(args, n, schema, registry) is Ok,
    ensures
        argument_types(args, n, schema, registry).unwrap().len() == n,
        forall|k: int| 0 <= k < n ==> (#[trigger] args[k]).spec_to_data_type(schema, registry) is Ok,
    decreases n,
{
    if n > 0 {
        lemma_argument_types_each(args, n - 1, schema, registry);
    }
}

/// The steps that follow those of the operands `args`, which fill the
/// operands' columns, with the call's own step behind them, are valid.
proof fn lemma_valid_call(
    operands: Seq<ActionView>,
    step: Result<ActionView, ErrorCodes>,
    name: Seq<char>,
    op: Seq<char>,
    factory: &FunctionFactory,
    is_aggregated: bool,
    args: Seq<ExpressionAction>,
    schema: &DataSchema,
    registry: &FunctionRegistry,
)
    requires
        topologically_valid(operands),
        step == function_step(name, op, factory, is_aggregated, args, schema, registry),
        step is Ok,
        forall|k: int|
            0 <= k < args.len() && (#[trigger] args[k]).spec_to_data_type(schema, registry) is Ok
                ==> defined_before(operands, operands.len() as int, args[k].spec_column_name()),
    ensures
        topologically_valid(operands.push(step.unwrap())),
        step.unwrap().name() == name,
{
    lemma_argument_types_each(args, args.len() as int, schema, registry);
    let s = step.unwrap();
    assert(s.arg_names() == argument_names(args));
    assert forall|k: int| 0 <= k < s.arg_names().len() implies defined_before(
        operands,
        operands.len() as int,
        #[trigger] s.arg_names()[k],
    ) by {
        assert(args[k].spec_to_data_type(schema, registry) is Ok);
    }
    lemma_valid_push(operands, s);
}

/// The steps of one expression are valid, and where the expression has a
/// type, the last of them fills the expression's column.
pub proof fn lemma_compiled_valid(
    expr: &ExpressionAction,
    schema: &DataSchema,
    registry: &FunctionRegistry,
)
    requires
        compiled(expr, schema, registry) is Ok,
    ensures
        topologically_valid(compiled(expr, schema, registry).unwrap()),
        expr.spec_to_data_type(schema, registry) is Ok ==> {
            let steps = compiled(expr, schema, registry).unwrap();
            steps.len() > 0 && steps.last().name() == expr.spec_column_name()
        },
    decreases expr,
{
    let steps = compiled(expr, schema, registry).unwrap();
    match expr {
        ExpressionAction::Alias(name, inner) => {
            lemma_compiled_valid(inner, schema, registry);
            let before = compiled(inner, schema, registry).unwrap();
            assert(before[before.len() - 1].name() == inner.spec_column_name());
            let step = steps.last();
            assert(step.arg_names() =~= seq![inner.spec_column_name()]);
            lemma_valid_push(before, step);
        },
        ExpressionAction::Column(name) => {},
        ExpressionAction::Literal(value) => {},
        ExpressionAction::UnaryExpression { op, expr: inner } => {
            lemma_compiled_valid(inner, schema, registry);
            let before = compiled(inner, schema, registry).unwrap();
            let args = seq![**inner];
            let step = function_step(
                expr.spec_column_name(),
                op@,
                &registry.scalars,
                false,
                args,
                schema,
                registry,
            );
            assert forall|k: int|
                0 <= k < args.len() && (#[trigger] args[k]).spec_to_data_type(schema, registry)
                    is Ok implies defined_before(
                before,
                before.len() as int,
                args[k].spec_column_name(),
            ) by {
                assert(before[before.len() - 1].name() == inner.spec_column_name());
            }
            lemma_valid_call(
                before,
                step,
                expr.spec_column_name(),
                op@,
                &registry.scalars,
                false,
                args,
                schema,
                registry,
            );
        },
        ExpressionAction::BinaryExpression { op, left, right } => {
            lemma_compiled_valid(left, schema, registry);
            lemma_compiled_valid(right, schema, registry);
            let l = compiled(left, schema, registry).unwrap();
            let r = compiled(right, schema, registry).unwrap();
            let before = l + r;
            lemma_valid_concat(l, r);
            let args = seq![**left, **right];
            let step = function_step(
                expr.spec_column_name(),
                op@,
                &registry.scalars,
                false,
                args,
                schema,
                registry,
            );
            assert forall|k: int|
                0 <= k < args.len() && (#[trigger] args[k]).spec_to_data_type(schema, registry)
                    is Ok implies defined_before(
                before,
                before.len() as int,
                args[k].spec_column_name(),
            ) by {
                if k == 0 {
                    assert(before[l.len() - 1].name() == left.spec_column_name());
                } else {
                    assert(before[l.len() + r.len() - 1].name() == right.spec_column_name());
                }
            }
            lemma_valid_call(
                before,
                step,
                expr.spec_column_name(),
                op@,
                &registry.scalars,
                false,
                args,
                schema,
                registry,
            );
        },
        ExpressionAction::ScalarFunction { op, args } => {
            lemma_compiled_list_valid(args@, args@.len() as int, schema, registry);
            let before = compiled_list(args@, args@.len() as int, schema, registry).unwrap();
            let step = function_step(
                expr.spec_column_name(),
                op@,
                &registry.scalars,
                false,
                args@,
                schema,
                registry,
            );
            lemma_valid_call(
                before,
                step,
                expr.spec_column_name(),
                op@,
                &registry.scalars,
                false,
                args@,
                schema,
                registry,
            );
        },
        ExpressionAction::AggregateFunction { op, args } => {
            lemma_compiled_list_valid(args@, args@.len() as int, schema, registry);
            let before = compiled_list(args@, args@.len() as int, schema, registry).unwrap();
            let step = function_step(
                expr.spec_column_name(),
                op@,
                &registry.aggregates,
                true,
                args@,
                schema,
                registry,
            );
            lemma_valid_call(
                before,
                step,
                expr.spec_column_name(),
                op@,
                &registry.aggregates,
                true,
                args@,
                schema,
                registry,
            );
        },
        ExpressionAction::Sort { expr: inner, .. } => {
            lemma_compiled_valid(inner, schema, registry);
        },
        ExpressionAction::Wildcard => {},
        ExpressionAction::Cast { expr: inner, data_type } => {
            lemma_compiled_valid(inner, schema, registry);
            let before = compiled(inner, schema, registry).unwrap();
            assert(before[before.len() - 1].name() == inner.spec_column_name());
            let step = steps.last();
            assert(step.arg_names() =~= seq![inner.spec_column_name()]);
            lemma_valid_push(before, step);
        },
    }
}

/// The steps of a list of expressions are valid, and they fill the column
/// of each expression of the list that has a type.
pub proof fn lemma_compiled_list_valid(
    exprs: Seq<ExpressionAction>,
    n: int,
    schema: &DataSchema,
    registry: &FunctionRegistry,
)
    requires
        0 <= n <= exprs.len(),
        compiled_list(exprs, n, schema, registry) is Ok,
    ensures
        topologically_valid(compiled_list(exprs, n, schema, registry).unwrap()),
        forall|k: int|
            0 <= k < n && (#[trigger] exprs[k]).spec_to_data_type(schema, registry) is Ok ==> {
                let steps = compiled_list(exprs, n, schema, registry).unwrap();
                defined_before(steps, steps.len() as int, exprs[k].spec_column_name())
            },
    decreases exprs, n,
{
    if n > 0 {
        lemma_compiled_list_valid(exprs, n - 1, schema, registry);
        lemma_compiled_valid(&exprs[n - 1], schema, registry);
        let before = compiled_list(exprs, n - 1, schema, registry).unwrap();
        let last = compiled(&exprs[n - 1], schema, registry).unwrap();
        let steps = before + last;
        lemma_valid_concat(before, last);
        assert forall|k: int|
            0 <= k < n && (#[trigger] exprs[k]).spec_to_data_type(schema, registry)
                is Ok implies defined_before(steps, steps.len() as int, exprs[k].spec_column_name()) by {
            if k < n - 1 {
                lemma_defined_in_front(before, last, before.len() as int, exprs[k].spec_column_name());
                let j = choose|j: int|
                    0 <= j < before.len() && j < steps.len() && #[trigger] steps[j].name()
                        == exprs[k].spec_column_name();
                assert(steps[j].name() == exprs[k].spec_column_name());
            } else {
                assert(steps[steps.len() - 1].name() == exprs[k].spec_column_name());
            }
        }
    }
}

/// Topological validity: in the steps compiled from any list of
/// expressions, every column that a step reads is filled by a step that
/// stands strictly before it.
pub proof fn lemma_chain_topologically_valid(
    exprs: Seq<ExpressionAction>,
    schema: &DataSchema,
    registry: &FunctionRegistry,
)
    requires
        compiled_list(exprs, exprs.len() as int, schema, registry) is Ok,
    ensures
        topologically_valid(compiled_list(exprs, exprs.len() as int, schema, registry).unwrap()),
{
    lemma_compiled_list_valid(exprs, exprs.len() as int, schema, registry);
}

} // verus!
