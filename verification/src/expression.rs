//! Expression trees: the input of the expression chain.

use vstd::prelude::*;

use crate::datavalues::{DataSchema, DataType, DataValue};
use crate::error::ErrorCodes;
use crate::functions::FunctionRegistry;

verus! {

/// A scalar or aggregate expression over the columns of a schema.
#[derive(Debug, PartialEq, Eq)]
pub enum ExpressionAction {
    /// An expression under a new name.
    Alias(String, Box<ExpressionAction>),
    /// A column of the input.
    Column(String),
    /// A constant.
    Literal(DataValue),
    UnaryExpression { op: String, expr: Box<ExpressionAction> },
    BinaryExpression { op: String, left: Box<ExpressionAction>, right: Box<ExpressionAction> },
    ScalarFunction { op: String, args: Vec<ExpressionAction> },
    AggregateFunction { op: String, args: Vec<ExpressionAction> },
    /// An expression to sort by; the direction is read by the sort kernel.
    Sort { expr: Box<ExpressionAction>, asc: bool, nulls_first: bool },
    /// All columns.
    Wildcard,
    Cast { expr: Box<ExpressionAction>, data_type: DataType },
}

/// The column names of the first `n` of `args`, separated by `", "`.
pub open spec fn joined_names(args: Seq<ExpressionAction>, n: int) -> Seq<char>
    decreases args, n,
{
    if n <= 0 || n > args.len() {
        Seq::empty()
    } else if n == 1 {
        args[0].spec_column_name()
    } else {
        joined_names(args, n - 1) + ", "@ + args[n - 1].spec_column_name()
    }
}

/// The types of the first `n` of `args`, or the error of the first of them
/// that has none.
pub open spec fn argument_types(
    args: Seq<ExpressionAction>,
    n: int,
    schema: &DataSchema,
    registry: &FunctionRegistry,
) -> Result<Seq<DataType>, ErrorCodes>
    decreases args, n,
{
    if n <= 0 || n > args.len() {
        Ok(Seq::empty())
    } else {
        match argument_types(args, n - 1, schema, registry) {
            Err(e) => Err(e),
            Ok(types) => match args[n - 1].spec_to_data_type(schema, registry) {
                Err(e) => Err(e),
                Ok(t) => Ok(types.push(t)),
            },
        }
    }
}

impl ExpressionAction {
    /// The name of the column that holds the expression's result: the alias
    /// of an alias, the name of a column, and else the expression written out.
    /// A sort has the name of what it sorts.
    pub open spec fn spec_column_name(&self) -> Seq<char>
        decreases self,
    {
        match self {
            ExpressionAction::Alias(name, _) => name@,
            ExpressionAction::Column(name) => name@,
            ExpressionAction::Literal(value) => value.spec_render(),
            ExpressionAction::UnaryExpression { op, expr } => "("@ + op@ + " "@
                + expr.spec_column_name() + ")"@,
            ExpressionAction::BinaryExpression { op, left, right } => "("@
                + left.spec_column_name() + " "@ + op@ + " "@ + right.spec_column_name() + ")"@,
            ExpressionAction::ScalarFunction { op, args } => op@ + "("@ + joined_names(
                args@,
                args@.len() as int,
            ) + ")"@,
            ExpressionAction::AggregateFunction { op, args } => op@ + "("@ + joined_names(
                args@,
                args@.len() as int,
            ) + ")"@,
            ExpressionAction::Sort { expr, .. } => expr.spec_column_name(),
            ExpressionAction::Wildcard => "*"@,
            ExpressionAction::Cast { expr, data_type } => "cast("@ + expr.spec_column_name()
                + " as "@ + data_type.spec_name() + ")"@,
        }
    }

    /// The type of the expression's result over `schema`. A function is
    /// looked up before its arguments are typed, the arguments are typed from
    /// left to right, and the first failure is the result.
    pub open spec fn spec_to_data_type(
        &self,
        schema: &DataSchema,
        registry: &FunctionRegistry,
    ) -> Result<DataType, ErrorCodes>
        decreases self,
    {
        match self {
            ExpressionAction::Alias(_, expr) => expr.spec_to_data_type(schema, registry),
            ExpressionAction::Column(name) => match schema.spec_type_of(name@) {
                Some(t) => Ok(t),
                None => Err(ErrorCodes::FieldNotFound),
            },
            ExpressionAction::Literal(value) => Ok(value.spec_data_type()),
            ExpressionAction::UnaryExpression { op, expr } => match registry.scalars.spec_get(op@) {
                None => Err(ErrorCodes::FunctionNotFound),
                Some(f) => match expr.spec_to_data_type(schema, registry) {
                    Err(e) => Err(e),
                    Ok(t) => f.spec_return_type(seq![t]),
                },
            },
            ExpressionAction::BinaryExpression { op, left, right } => match registry.scalars.spec_get(
                op@,
            ) {
                None => Err(ErrorCodes::FunctionNotFound),
                Some(f) => match left.spec_to_data_type(schema, registry) {
                    Err(e) => Err(e),
                    Ok(l) => match right.spec_to_data_type(schema, registry) {
                        Err(e) => Err(e),
                        Ok(r) => f.spec_return_type(seq![l, r]),
                    },
                },
            },
            ExpressionAction::ScalarFunction { op, args } => match registry.scalars.spec_get(op@) {
                None => Err(ErrorCodes::FunctionNotFound),
                Some(f) => match argument_types(args@, args@.len() as int, schema, registry) {
                    Err(e) => Err(e),
                    Ok(types) => f.spec_return_type(types),
                },
            },
            ExpressionAction::AggregateFunction { op, args } => match registry.aggregates.spec_get(
                op@,
            ) {
                None => Err(ErrorCodes::FunctionNotFound),
                Some(f) => match argument_types(args@, args@.len() as int, schema, registry) {
                    Err(e) => Err(e),
                    Ok(types) => f.spec_return_type(types),
                },
            },
            ExpressionAction::Sort { expr, .. } => expr.spec_to_data_type(schema, registry),
            ExpressionAction::Wildcard => Err(ErrorCodes::IllegalDataType),
            ExpressionAction::Cast { data_type, .. } => Ok(*data_type),
        }
    }

    /// The name of the column that holds the expression's result.
    pub fn column_name(&self) -> (s: String)
        ensures
            s@ == self.spec_column_name(),
        decreases self,
    {
        match self {
            ExpressionAction::Alias(name, _) => name.clone(),
            ExpressionAction::Column(name) => name.clone(),
            ExpressionAction::Literal(value) => value.render(),
            ExpressionAction::UnaryExpression { op, expr } => {
                let mut s: String = "(".to_owned();
                s.append(op.as_str());
                s.append(" ");
                let inner: String = expr.column_name();
                s.append(inner.as_str());
                s.append(")");
                s
            },
            ExpressionAction::BinaryExpression { op, left, right } => {
                let mut s: String = "(".to_owned();
                let l: String = left.column_name();
                s.append(l.as_str());
                s.append(" ");
                s.append(op.as_str());
                s.append(" ");
                let r: String = right.column_name();
                s.append(r.as_str());
                s.append(")");
                s
            },
            ExpressionAction::ScalarFunction { op, args } => {
                let mut s: String = op.clone();
                s.append("(");
                let names: String = Self::join_names(args);
                s.append(names.as_str());
                s.append(")");
                s
            },
            ExpressionAction::AggregateFunction { op, args } => {
                let mut s: String = op.clone();
                s.append("(");
                let names: String = Self::join_names(args);
                s.append(names.as_str());
                s.append(")");
                s
            },
            ExpressionAction::Sort { expr, .. } => expr.column_name(),
            ExpressionAction::Wildcard => "*".to_owned(),
            ExpressionAction::Cast { expr, data_type } => {
                let mut s: String = "cast(".to_owned();
                let inner: String = expr.column_name();
                s.append(inner.as_str());
                s.append(" as ");
                s.append(data_type.name());
                s.append(")");
                s
            },
        }
    }

    /// The column names of `args`, separated by `", "`.
    fn join_names(args: &Vec<ExpressionAction>) -> (s: String)
        ensures
            s@ == joined_names(args@, args@.len() as int),
        decreases args,
    {
        let mut s: String = String::new();
        let mut i: usize = 0;
        while i < args.len()
            invariant
                i <= args.len(),
                s@ == joined_names(args@, i as int),
            decreases args.len() - i,
        {
            if i > 0 {
                s.append(", ");
            }
            let name: String = args[i].column_name();
            s.append(name.as_str());
            i = i + 1;
        }
        s
    }

    /// The type of the expression's result over `schema`.
    pub fn to_data_type(&self, schema: &DataSchema, registry: &FunctionRegistry) -> (r: Result<
        DataType,
        ErrorCodes,
    >)
        ensures
            r == self.spec_to_data_type(schema, registry),
        decreases self,
    {
        match self {
            ExpressionAction::Alias(_, expr) => expr.to_data_type(schema, registry),
            ExpressionAction::Column(name) => match schema.field_with_name(name.as_str()) {
                Ok(f) => Ok(f.data_type),
                Err(e) => Err(e),
            },
            ExpressionAction::Literal(value) => Ok(value.data_type()),
            ExpressionAction::UnaryExpression { op, expr } => {
                let f = match registry.scalars.get(op) {
                    Ok(f) => f,
                    Err(e) => { return Err(e); },
                };
                let t: DataType = match expr.to_data_type(schema, registry) {
                    Ok(t) => t,
                    Err(e) => { return Err(e); },
                };
                let types: Vec<DataType> = vec![t];
                assert(types@ =~= seq![t]);
                f.return_type(types.as_slice())
            },
            ExpressionAction::BinaryExpression { op, left, right } => {
                let f = match registry.scalars.get(op) {
                    Ok(f) => f,
                    Err(e) => { return Err(e); },
                };
                let l: DataType = match left.to_data_type(schema, registry) {
                    Ok(t) => t,
                    Err(e) => { return Err(e); },
                };
                let r: DataType = match right.to_data_type(schema, registry) {
                    Ok(t) => t,
                    Err(e) => { return Err(e); },
                };
                let types: Vec<DataType> = vec![l, r];
                assert(types@ =~= seq![l, r]);
                f.return_type(types.as_slice())
            },
            ExpressionAction::ScalarFunction { op, args } => {
                let f = match registry.scalars.get(op) {
                    Ok(f) => f,
                    Err(e) => { return Err(e); },
                };
                let types: Vec<DataType> = match Self::types_of(args, schema, registry) {
                    Ok(t) => t,
                    Err(e) => { return Err(e); },
                };
                f.return_type(types.as_slice())
            },
            ExpressionAction::AggregateFunction { op, args } => {
                let f = match registry.aggregates.get(op) {
                    Ok(f) => f,
                    Err(e) => { return Err(e); },
                };
                let types: Vec<DataType> = match Self::types_of(args, schema, registry) {
                    Ok(t) => t,
                    Err(e) => { return Err(e); },
                };
                f.return_type(types.as_slice())
            },
            ExpressionAction::Sort { expr, .. } => expr.to_data_type(schema, registry),
            ExpressionAction::Wildcard => Err(ErrorCodes::IllegalDataType),
            ExpressionAction::Cast { data_type, .. } => Ok(*data_type),
        }
    }

    /// The types of `args` over `schema`, or the error of the first of them
    /// that has none.
    pub fn types_of(args: &Vec<ExpressionAction>, schema: &DataSchema, registry: &FunctionRegistry) -> (r:
        Result<Vec<DataType>, ErrorCodes>)
        ensures
            match r {
                Ok(types) => argument_types(args@, args@.len() as int, schema, registry) == Ok::<
                    Seq<DataType>,
                    ErrorCodes,
                >(types@),
                Err(e) => argument_types(args@, args@.len() as int, schema, registry) == Err::<
                    Seq<DataType>,
                    ErrorCodes,
                >(e),
            },
        decreases args,
    {
        let mut types: Vec<DataType> = Vec::new();
        let mut i: usize = 0;
        while i < args.len()
            invariant
                i <= args.len(),
                argument_types(args@, i as int, schema, registry) == Ok::<Seq<DataType>, ErrorCodes>(
                    types@,
                ),
            decreases args.len() - i,
        {
            match args[i].to_data_type(schema, registry) {
                Ok(t) => {
                    types.push(t);
                },
                Err(e) => {
                    proof {
                        lemma_argument_types_error(args@, i as int + 1, args@.len() as int, schema, registry);
                    }
                    return Err(e);
                },
            }
            i = i + 1;
        }
        Ok(types)
    }
}

/// Once the first `n` arguments have no types, no longer prefix has.
pub proof fn lemma_argument_types_error(
    args: Seq<ExpressionAction>,
    n: int,
    m: int,
    schema: &DataSchema,
    registry: &FunctionRegistry,
)
    requires
        0 <= n <= m <= args.len(),
        argument_types(args, n, schema, registry) is Err,
    ensures
        argument_types(args, m, schema, registry) == argument_types(args, n, schema, registry),
    decreases m - n,
{
    if n < m {
        lemma_argument_types_error(args, n, m - 1, schema, registry);
    }
}

} // verus!
