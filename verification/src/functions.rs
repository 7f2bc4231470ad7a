//! The function registry: what is known of each scalar and aggregate
//! function by name, and how its result type follows from its argument types.

use vstd::prelude::*;

use crate::datavalues::{first_position, first_position_from, lemma_first_position, DataType};
use crate::error::ErrorCodes;

verus! {

/// Which argument types a function takes.
#[derive(Debug, Clone, Copy, PartialEq, Eq, Structural)]
pub enum ArgumentKind {
    /// Every type.
    Any,
    /// Numbers only.
    Numeric,
    /// Booleans only.
    Boolean,
    /// Strings only.
    Text,
}

impl ArgumentKind {
    /// Whether an argument of type `t` is taken.
    pub open spec fn spec_admits(&self, t: DataType) -> bool {
        match self {
            ArgumentKind::Any => true,
            ArgumentKind::Numeric => t.spec_is_numeric(),
            ArgumentKind::Boolean => t == DataType::Boolean,
            ArgumentKind::Text => t == DataType::Utf8,
        }
    }

    /// Whether an argument of type `t` is taken.
    pub fn admits(&self, t: DataType) -> (b: bool)
        ensures
            b == self.spec_admits(t),
    {
        match self {
            ArgumentKind::Any => true,
            ArgumentKind::Numeric => t.is_numeric(),
            ArgumentKind::Boolean => t == DataType::Boolean,
            ArgumentKind::Text => t == DataType::Utf8,
        }
    }
}

/// How a function's result type follows from its argument types.
#[derive(Debug, Clone, Copy, PartialEq, Eq, Structural)]
pub enum ReturnRule {
    /// Always this type.
    Fixed(DataType),
    /// The type of the argument at this position.
    SameAsArgument(usize),
}

/// A function as the registry knows it.
#[derive(Debug, PartialEq, Eq)]
pub struct FunctionSignature {
    pub name: String,
    /// The number of arguments, or `None` where any number is taken.
    pub arity: Option<usize>,
    pub accepts: ArgumentKind,
    pub rule: ReturnRule,
}

/// Whether every type of `types` is admitted by `kind`.
pub open spec fn all_admitted(kind: ArgumentKind, types: Seq<DataType>) -> bool {
    forall|i: int| 0 <= i < types.len() ==> kind.spec_admits(#[trigger] types[i])
}

impl FunctionSignature {
    /// The function called `name` with the given rules.
    pub fn new(name: &str, arity: Option<usize>, accepts: ArgumentKind, rule: ReturnRule) -> (f:
        FunctionSignature)
        ensures
            f.name@ == name@,
            f.arity == arity,
            f.accepts == accepts,
            f.rule == rule,
    {
        FunctionSignature { name: name.to_owned(), arity, accepts, rule }
    }

    /// The result type on arguments of the given types: `TypeError` where
    /// their number is wrong, where one of them is not admitted, or where the
    /// result is to follow an argument that is not there.
    pub open spec fn spec_return_type(&self, arg_types: Seq<DataType>) -> Result<
        DataType,
        ErrorCodes,
    > {
        if self.arity matches Some(n) && n != arg_types.len() {
            Err(ErrorCodes::TypeError)
        } else if !all_admitted(self.accepts, arg_types) {
            Err(ErrorCodes::TypeError)
        } else {
            match self.rule {
                ReturnRule::Fixed(t) => Ok(t),
                ReturnRule::SameAsArgument(i) => if i < arg_types.len() {
                    Ok(arg_types[i as int])
                } else {
                    Err(ErrorCodes::TypeError)
                },
            }
        }
    }

    /// The result type on arguments of the given types.
    pub fn return_type(&self, arg_types: &[DataType]) -> (r: Result<DataType, ErrorCodes>)
        ensures
            r == self.spec_return_type(arg_types@),
    {
        match self.arity {
            Some(n) => {
                if n != arg_types.len() {
                    return Err(ErrorCodes::TypeError);
                }
            },
            None => {},
        }
        let mut i: usize = 0;
        while i < arg_types.len()
            invariant
                i <= arg_types.len(),
                forall|j: int| 0 <= j < i ==> self.accepts.spec_admits(#[trigger] arg_types@[j]),
            decreases arg_types.len() - i,
        {
            if !self.accepts.admits(arg_types[i]) {
                return Err(ErrorCodes::TypeError);
            }
            i = i + 1;
        }
        match self.rule {
            ReturnRule::Fixed(t) => Ok(t),
            ReturnRule::SameAsArgument(k) => if k < arg_types.len() {
                Ok(arg_types[k])
            } else {
                Err(ErrorCodes::TypeError)
            },
        }
    }
}

impl Clone for FunctionSignature {
    fn clone(&self) -> (r: Self)
        ensures
            r == *self,
    {
        FunctionSignature {
            name: self.name.clone(),
            arity: self.arity,
            accepts: self.accepts,
            rule: self.rule,
        }
    }
}

/// A table of functions, looked up by name; of two entries with one name the
/// earlier is found.
#[derive(Debug, Clone, PartialEq, Eq)]
pub struct FunctionFactory {
    pub functions: Vec<FunctionSignature>,
}

impl FunctionFactory {
    /// The names of the entries, in order.
    pub open spec fn names(&self) -> Seq<Seq<char>> {
        Seq::new(self.functions@.len(), |i: int| self.functions@[i].name@)
    }

    /// The entry found under `name`.
    pub open spec fn spec_get(&self, name: Seq<char>) -> Option<FunctionSignature> {
        match first_position(self.names(), name) {
            Some(i) => Some(self.functions@[i]),
            None => None,
        }
    }

    /// A table without entries.
    pub fn new() -> (f: FunctionFactory)
        ensures
            f.functions@.len() == 0,
    {
        FunctionFactory { functions: Vec::new() }
    }

    /// Adds an entry behind those that are there.
    pub fn register(&mut self, signature: FunctionSignature)
        ensures
            final(self).functions@ == old(self).functions@.push(signature),
    {
        self.functions.push(signature);
    }

    /// The entry under `name`, or `FunctionNotFound`.
    pub fn get(&self, name: &String) -> (r: Result<&FunctionSignature, ErrorCodes>)
        ensures
            match r {
                Ok(f) => self.spec_get(name@) == Some(*f),
                Err(e) => e == ErrorCodes::FunctionNotFound && self.spec_get(name@) is None,
            },
    {
        let mut i: usize = 0;
        while i < self.functions.len()
            invariant
                i <= self.functions.len(),
                first_position(self.names(), name@) == first_position_from(
                    self.names(),
                    name@,
                    i as int,
                ),
            decreases self.functions.len() - i,
        {
            if self.functions[i].name == *name {
                proof {
                    lemma_first_position(self.names(), name@, 0);
                }
                return Ok(&self.functions[i]);
            }
            i = i + 1;
        }
        Err(ErrorCodes::FunctionNotFound)
    }
}

/// The scalar and the aggregate functions, each under names of their own.
#[derive(Debug, Clone, PartialEq, Eq)]
pub struct FunctionRegistry {
    pub scalars: FunctionFactory,
    pub aggregates: FunctionFactory,
}

impl FunctionRegistry {
    /// The registry of the given scalar and aggregate functions.
    pub fn new(scalars: FunctionFactory, aggregates: FunctionFactory) -> (r: FunctionRegistry)
        ensures
            r.scalars == scalars,
            r.aggregates == aggregates,
    {
        FunctionRegistry { scalars, aggregates }
    }
}

/// The operator that converts a value to a given type.
#[derive(Debug, Clone, Copy, PartialEq, Eq, Structural)]
pub struct CastFunction {
    pub cast_type: DataType,
}

impl CastFunction {
    /// The operator that converts to `cast_type`.
    pub fn create(cast_type: DataType) -> (f: CastFunction)
        ensures
            f.cast_type == cast_type,
    {
        CastFunction { cast_type }
    }

    /// The type cast to, whatever the argument types are.
    pub fn return_type(&self, arg_types: &[DataType]) -> (r: Result<DataType, ErrorCodes>)
        ensures
            r == Ok::<DataType, ErrorCodes>(self.cast_type),
    {
        Ok(self.cast_type)
    }
}

/// A scalar function that an action was resolved to.
#[derive(Debug, Clone, PartialEq, Eq)]
pub enum Function {
    Cast(CastFunction),
    Registered(FunctionSignature),
}

impl Function {
    /// The result type on arguments of the given types: the type cast to
    /// for the cast operator, and else what the registered function gives.
    pub open spec fn spec_return_type(&self, arg_types: Seq<DataType>) -> Result<
        DataType,
        ErrorCodes,
    > {
        match self {
            Function::Cast(c) => Ok(c.cast_type),
            Function::Registered(f) => f.spec_return_type(arg_types),
        }
    }

    /// The result type on arguments of the given types.
    pub fn return_type(&self, arg_types: &[DataType]) -> (r: Result<DataType, ErrorCodes>)
        ensures
            r == self.spec_return_type(arg_types@),
    {
        match self {
            Function::Cast(c) => c.return_type(arg_types),
            Function::Registered(f) => f.return_type(arg_types),
        }
    }
}

} // verus!
