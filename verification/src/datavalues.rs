//! Data types, scalar values and schemas.

use std::sync::Arc;
use vstd::prelude::*;

use crate::error::ErrorCodes;

verus! {

/// The type of a column or of a scalar value.
#[derive(Debug, Clone, Copy, PartialEq, Eq, Structural)]
pub enum DataType {
    Null,
    Boolean,
    Int8,
    Int16,
    Int32,
    Int64,
    UInt8,
    UInt16,
    UInt32,
    UInt64,
    Float32,
    Float64,
    Utf8,
}

impl DataType {
    /// Whether values of the type are numbers.
    pub open spec fn spec_is_numeric(&self) -> bool {
        !(*self == DataType::Null || *self == DataType::Boolean || *self == DataType::Utf8)
    }

    /// Whether values of the type are numbers.
    pub fn is_numeric(&self) -> (b: bool)
        ensures
            b == self.spec_is_numeric(),
    {
        match self {
            DataType::Null | DataType::Boolean | DataType::Utf8 => false,
            _ => true,
        }
    }

    /// The name under which the type is written in a column name.
    pub open spec fn spec_name(&self) -> Seq<char> {
        match self {
            DataType::Null => "Null"@,
            DataType::Boolean => "Boolean"@,
            DataType::Int8 => "Int8"@,
            DataType::Int16 => "Int16"@,
            DataType::Int32 => "Int32"@,
            DataType::Int64 => "Int64"@,
            DataType::UInt8 => "UInt8"@,
            DataType::UInt16 => "UInt16"@,
            DataType::UInt32 => "UInt32"@,
            DataType::UInt64 => "UInt64"@,
            DataType::Float32 => "Float32"@,
            DataType::Float64 => "Float64"@,
            DataType::Utf8 => "Utf8"@,
        }
    }

    /// The name under which the type is written in a column name.
    pub fn name(&self) -> (s: &'static str)
        ensures
            s@ == self.spec_name(),
    {
        match self {
            DataType::Null => "Null",
            DataType::Boolean => "Boolean",
            DataType::Int8 => "Int8",
            DataType::Int16 => "Int16",
            DataType::Int32 => "Int32",
            DataType::Int64 => "Int64",
            DataType::UInt8 => "UInt8",
            DataType::UInt16 => "UInt16",
            DataType::UInt32 => "UInt32",
            DataType::UInt64 => "UInt64",
            DataType::Float32 => "Float32",
            DataType::Float64 => "Float64",
            DataType::Utf8 => "Utf8",
        }
    }
}

/// A scalar value; `None` inside a variant is the null of that type.
#[derive(Debug, PartialEq, Eq)]
pub enum DataValue {
    Null,
    Boolean(Option<bool>),
    Int64(Option<i64>),
    UInt64(Option<u64>),
    Utf8(Option<String>),
}

/// The text of a decimal digit.
pub open spec fn digit_text(d: int) -> Seq<char> {
    if d == 0 {
        "0"@
    } else if d == 1 {
        "1"@
    } else if d == 2 {
        "2"@
    } else if d == 3 {
        "3"@
    } else if d == 4 {
        "4"@
    } else if d == 5 {
        "5"@
    } else if d == 6 {
        "6"@
    } else if d == 7 {
        "7"@
    } else if d == 8 {
        "8"@
    } else {
        "9"@
    }
}

/// A natural number written in decimal, without leading zeros.
pub open spec fn decimal_text(n: nat) -> Seq<char>
    decreases n,
{
    if n < 10 {
        digit_text(n as int)
    } else {
        decimal_text(n / 10) + digit_text((n % 10) as int)
    }
}

/// An integer written in decimal, with a minus sign where it is negative.
pub open spec fn signed_text(v: int) -> Seq<char> {
    if v < 0 {
        "-"@ + decimal_text((-v) as nat)
    } else {
        decimal_text(v as nat)
    }
}

fn digit_str(d: u64) -> (s: &'static str)
    requires
        d < 10,
    ensures
        s@ == digit_text(d as int),
{
    if d == 0 {
        "0"
    } else if d == 1 {
        "1"
    } else if d == 2 {
        "2"
    } else if d == 3 {
        "3"
    } else if d == 4 {
        "4"
    } else if d == 5 {
        "5"
    } else if d == 6 {
        "6"
    } else if d == 7 {
        "7"
    } else if d == 8 {
        "8"
    } else {
        "9"
    }
}

/// Writes `n` in decimal.
pub fn decimal_string(n: u64) -> (s: String)
    ensures
        s@ == decimal_text(n as nat),
    decreases n,
{
    if n < 10 {
        digit_str(n).to_owned()
    } else {
        let mut s: String = decimal_string(n / 10);
        s.append(digit_str(n % 10));
        s
    }
}

/// Writes `v` in decimal.
pub fn signed_string(v: i64) -> (s: String)
    ensures
        s@ == signed_text(v as int),
{
    if v < 0 {
        let magnitude: u64 = ((-(v + 1)) as u64) + 1;
        let mut s: String = "-".to_owned();
        let digits: String = decimal_string(magnitude);
        s.append(digits.as_str());
        s
    } else {
        decimal_string(v as u64)
    }
}

impl DataValue {
    /// The value as it is written in a column name.
    pub open spec fn spec_render(&self) -> Seq<char> {
        match self {
            DataValue::Boolean(Some(b)) => if *b {
                "true"@
            } else {
                "false"@
            },
            DataValue::Int64(Some(v)) => signed_text(*v as int),
            DataValue::UInt64(Some(v)) => decimal_text(*v as nat),
            DataValue::Utf8(Some(s)) => s@,
            _ => "NULL"@,
        }
    }

    /// Writes the value as it stands in a column name.
    pub fn render(&self) -> (s: String)
        ensures
            s@ == self.spec_render(),
    {
        match self {
            DataValue::Boolean(Some(b)) => if *b {
                "true".to_owned()
            } else {
                "false".to_owned()
            },
            DataValue::Int64(Some(v)) => signed_string(*v),
            DataValue::UInt64(Some(v)) => decimal_string(*v),
            DataValue::Utf8(Some(s)) => s.clone(),
            _ => "NULL".to_owned(),
        }
    }

    /// The type of the value.
    pub open spec fn spec_data_type(&self) -> DataType {
        match self {
            DataValue::Null => DataType::Null,
            DataValue::Boolean(_) => DataType::Boolean,
            DataValue::Int64(_) => DataType::Int64,
            DataValue::UInt64(_) => DataType::UInt64,
            DataValue::Utf8(_) => DataType::Utf8,
        }
    }

    /// The type of the value.
    pub fn data_type(&self) -> (t: DataType)
        ensures
            t == self.spec_data_type(),
    {
        match self {
            DataValue::Null => DataType::Null,
            DataValue::Boolean(_) => DataType::Boolean,
            DataValue::Int64(_) => DataType::Int64,
            DataValue::UInt64(_) => DataType::UInt64,
            DataValue::Utf8(_) => DataType::Utf8,
        }
    }
}

impl Clone for DataValue {
    fn clone(&self) -> (r: Self)
        ensures
            r == *self,
    {
        match self {
            DataValue::Null => DataValue::Null,
            DataValue::Boolean(v) => DataValue::Boolean(*v),
            DataValue::Int64(v) => DataValue::Int64(*v),
            DataValue::UInt64(v) => DataValue::UInt64(*v),
            DataValue::Utf8(v) => match v {
                Some(s) => DataValue::Utf8(Some(s.clone())),
                None => DataValue::Utf8(None),
            },
        }
    }
}

/// A named, typed column of a schema.
#[derive(Debug, Clone, PartialEq, Eq)]
pub struct DataField {
    pub name: String,
    pub data_type: DataType,
    pub nullable: bool,
}

impl DataField {
    /// The field called `name` of the given type.
    pub fn new(name: &str, data_type: DataType, nullable: bool) -> (f: DataField)
        ensures
            f.name@ == name@,
            f.data_type == data_type,
            f.nullable == nullable,
    {
        DataField { name: name.to_owned(), data_type, nullable }
    }

    /// The field's name.
    pub fn name(&self) -> (n: &String)
        ensures
            n == &self.name,
    {
        &self.name
    }

    /// The type of the field's values.
    pub fn data_type(&self) -> (t: DataType)
        ensures
            t == self.data_type,
    {
        self.data_type
    }

    /// Whether the field may hold nulls.
    pub fn is_nullable(&self) -> (b: bool)
        ensures
            b == self.nullable,
    {
        self.nullable
    }
}

/// The position of the first of `names` that equals `name`, looking from
/// index `start` on.
pub open spec fn first_position_from(names: Seq<Seq<char>>, name: Seq<char>, start: int) -> Option<int>
    decreases names.len() - start,
{
    if start < 0 || start >= names.len() {
        None
    } else if names[start] == name {
        Some(start)
    } else {
        first_position_from(names, name, start + 1)
    }
}

/// The position of the first of `names` that equals `name`.
pub open spec fn first_position(names: Seq<Seq<char>>, name: Seq<char>) -> Option<int> {
    first_position_from(names, name, 0)
}

/// What `first_position` finds is in range and names `name`; nothing before it does.
pub proof fn lemma_first_position(names: Seq<Seq<char>>, name: Seq<char>, start: int)
    requires
        0 <= start,
    ensures
        match first_position_from(names, name, start) {
            Some(i) => start <= i < names.len() && names[i] == name && forall|j: int|
                start <= j < i ==> names[j] != name,
            None => forall|j: int| start <= j < names.len() ==> names[j] != name,
        },
    decreases names.len() - start,
{
    if start < names.len() && names[start] != name {
        lemma_first_position(names, name, start + 1);
    }
}

/// An ordered list of fields.
#[derive(Debug, Clone, PartialEq, Eq)]
pub struct DataSchema {
    pub fields: Vec<DataField>,
}

/// A schema shared between its users.
pub type DataSchemaRef = Arc<DataSchema>;

impl DataSchema {
    /// The schema of the given fields.
    pub fn new(fields: Vec<DataField>) -> (s: DataSchema)
        ensures
            s.fields == fields,
    {
        DataSchema { fields }
    }

    /// The names of the fields, in order.
    pub open spec fn names(&self) -> Seq<Seq<char>> {
        Seq::new(self.fields@.len(), |i: int| self.fields@[i].name@)
    }

    /// The type of the first field called `name`.
    pub open spec fn spec_type_of(&self, name: Seq<char>) -> Option<DataType> {
        match first_position(self.names(), name) {
            Some(i) => Some(self.fields@[i].data_type),
            None => None,
        }
    }

    /// The schema's fields, in order.
    pub fn fields(&self) -> (f: &Vec<DataField>)
        ensures
            f == &self.fields,
    {
        &self.fields
    }

    /// The position of the first field called `name`, or `FieldNotFound`.
    pub fn index_of(&self, name: &str) -> (r: Result<usize, ErrorCodes>)
        ensures
            match r {
                Ok(i) => first_position(self.names(), name@) == Some(i as int),
                Err(e) => e == ErrorCodes::FieldNotFound && first_position(self.names(), name@)
                    is None,
            },
    {
        let target: String = name.to_owned();
        let mut i: usize = 0;
        while i < self.fields.len()
            invariant
                i <= self.fields.len(),
                target@ == name@,
                first_position(self.names(), name@) == first_position_from(
                    self.names(),
                    name@,
                    i as int,
                ),
            decreases self.fields.len() - i,
        {
            if self.fields[i].name == target {
                return Ok(i);
            }
            i = i + 1;
        }
        Err(ErrorCodes::FieldNotFound)
    }

    /// The first field called `name`, or `FieldNotFound`.
    pub fn field_with_name(&self, name: &str) -> (r: Result<&DataField, ErrorCodes>)
        ensures
            match r {
                Ok(f) => first_position(self.names(), name@) matches Some(i) && *f
                    == self.fields@[i],
                Err(e) => e == ErrorCodes::FieldNotFound && first_position(self.names(), name@)
                    is None,
            },
    {
        match self.index_of(name) {
            Ok(i) => {
                proof {
                    lemma_first_position(self.names(), name@, 0);
                }
                Ok(&self.fields[i])
            },
            Err(e) => Err(e),
        }
    }
}

/// Another handle on the value that `shared` points to.
///
/// Trusted: this is `Arc::clone`, which hands out a pointer to the very
/// allocation it was given, so what the result points to is what `shared`
/// points to.
#[verifier::external_body]
pub(crate) fn share<T>(shared: &Arc<T>) -> (r: Arc<T>)
    ensures
        r == *shared,
{
    shared.clone()
}

} // verus!
