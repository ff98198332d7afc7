//! Plain values into protocol values, and back where the shape matches.

use super::{Error, Incrementable, Value, ValueView};
use vstd::prelude::*;

verus! {

impl From<&str> for Value {
    fn from(text: &str) -> (value: Value) {
        Value::String(text.to_owned())
    }
}

impl vstd::std_specs::convert::FromSpecImpl<&str> for Value {
    /// Nothing is claimed of `from` here: `Value::text` states what it gives.
    open spec fn obeys_from_spec() -> bool {
        false
    }

    open spec fn from_spec(text: &str) -> Value {
        Value::Nil
    }
}

impl From<bool> for Value {
    fn from(flag: bool) -> (value: Value) {
        Value::Bool(flag)
    }
}

impl vstd::std_specs::convert::FromSpecImpl<bool> for Value {
    open spec fn obeys_from_spec() -> bool {
        true
    }

    open spec fn from_spec(flag: bool) -> Value {
        Value::Bool(flag)
    }
}

impl From<i32> for Value {
    fn from(n: i32) -> (value: Value) {
        Value::Int(n)
    }
}

impl vstd::std_specs::convert::FromSpecImpl<i32> for Value {
    open spec fn obeys_from_spec() -> bool {
        true
    }

    open spec fn from_spec(n: i32) -> Value {
        Value::Int(n)
    }
}

impl From<u32> for Value {
    fn from(n: u32) -> (value: Value) {
        Value::Nat(n)
    }
}

impl vstd::std_specs::convert::FromSpecImpl<u32> for Value {
    open spec fn obeys_from_spec() -> bool {
        true
    }

    open spec fn from_spec(n: u32) -> Value {
        Value::Nat(n)
    }
}

impl Value {
    /// The text as a protocol value.
    pub fn text(text: &str) -> (value: Value)
        ensures
            value@ == ValueView::String(text@),
    {
        Value::String(text.to_owned())
    }

    /// The bounded number that this value is, or `TypeError`.
    pub fn into_inc(self) -> (r: Result<Incrementable, Error>)
        ensures
            r == match self {
                Value::Inc(inc) => Ok::<Incrementable, Error>(inc),
                _ => Err::<Incrementable, Error>(Error::TypeError),
            },
    {
        match self {
            Value::Inc(inc) => Ok(inc),
            _ => Err(Error::TypeError),
        }
    }

    /// The signed number that this value is, or `TypeError`.
    pub fn into_int(self) -> (r: Result<i32, Error>)
        ensures
            r == match self {
                Value::Int(n) => Ok::<i32, Error>(n),
                _ => Err::<i32, Error>(Error::TypeError),
            },
    {
        match self {
            Value::Int(n) => Ok(n),
            _ => Err(Error::TypeError),
        }
    }

    /// The truth value that this value is, or `TypeError`.
    pub fn into_bool(self) -> (r: Result<bool, Error>)
        ensures
            r == match self {
                Value::Bool(flag) => Ok::<bool, Error>(flag),
                _ => Err::<bool, Error>(Error::TypeError),
            },
    {
        match self {
            Value::Bool(flag) => Ok(flag),
            _ => Err(Error::TypeError),
        }
    }

    /// The unsigned number that this value is, or `TypeError`.
    pub fn into_nat(self) -> (r: Result<u32, Error>)
        ensures
            r == match self {
                Value::Nat(n) => Ok::<u32, Error>(n),
                _ => Err::<u32, Error>(Error::TypeError),
            },
    {
        match self {
            Value::Nat(n) => Ok(n),
            _ => Err(Error::TypeError),
        }
    }

    /// The text that this value is, or `TypeError`.
    pub fn into_string(self) -> (r: Result<String, Error>)
        ensures
            r == match self {
                Value::String(text) => Ok::<String, Error>(text),
                _ => Err::<String, Error>(Error::TypeError),
            },
    {
        match self {
            Value::String(text) => Ok(text),
            _ => Err(Error::TypeError),
        }
    }

    /// The list that this value is, or `TypeError`.
    pub fn into_set(self) -> (r: Result<Vec<Value>, Error>)
        ensures
            r == match self {
                Value::List(items) => Ok::<Vec<Value>, Error>(items),
                _ => Err::<Vec<Value>, Error>(Error::TypeError),
            },
    {
        match self {
            Value::List(items) => Ok(items),
            _ => Err(Error::TypeError),
        }
    }
}

impl vstd::std_specs::convert::TryFromSpecImpl<Value> for Incrementable {
    open spec fn obeys_try_from_spec() -> bool {
        true
    }

    open spec fn try_from_spec(value: Value) -> Result<Incrementable, Error> {
        match value {
            Value::Inc(inner) => Ok(inner),
            _ => Err(Error::TypeError),
        }
    }
}

impl TryFrom<Value> for Incrementable {
    type Error = Error;

    fn try_from(value: Value) -> (r: Result<Incrementable, Error>) {
        value.into_inc()
    }
}

impl vstd::std_specs::convert::TryFromSpecImpl<Value> for i32 {
    open spec fn obeys_try_from_spec() -> bool {
        true
    }

    open spec fn try_from_spec(value: Value) -> Result<i32, Error> {
        match value {
            Value::Int(inner) => Ok(inner),
            _ => Err(Error::TypeError),
        }
    }
}

impl TryFrom<Value> for i32 {
    type Error = Error;

    fn try_from(value: Value) -> (r: Result<i32, Error>) {
        value.into_int()
    }
}

impl vstd::std_specs::convert::TryFromSpecImpl<Value> for bool {
    open spec fn obeys_try_from_spec() -> bool {
        true
    }

    open spec fn try_from_spec(value: Value) -> Result<bool, Error> {
        match value {
            Value::Bool(inner) => Ok(inner),
            _ => Err(Error::TypeError),
        }
    }
}

impl TryFrom<Value> for bool {
    type Error = Error;

    fn try_from(value: Value) -> (r: Result<bool, Error>) {
        value.into_bool()
    }
}

impl vstd::std_specs::convert::TryFromSpecImpl<Value> for u32 {
    open spec fn obeys_try_from_spec() -> bool {
        true
    }

    open spec fn try_from_spec(value: Value) -> Result<u32, Error> {
        match value {
            Value::Nat(inner) => Ok(inner),
            _ => Err(Error::TypeError),
        }
    }
}

impl TryFrom<Value> for u32 {
    type Error = Error;

    fn try_from(value: Value) -> (r: Result<u32, Error>) {
        value.into_nat()
    }
}

impl vstd::std_specs::convert::TryFromSpecImpl<Value> for String {
    open spec fn obeys_try_from_spec() -> bool {
        true
    }

    open spec fn try_from_spec(value: Value) -> Result<String, Error> {
        match value {
            Value::String(inner) => Ok(inner),
            _ => Err(Error::TypeError),
        }
    }
}

impl TryFrom<Value> for String {
    type Error = Error;

    fn try_from(value: Value) -> (r: Result<String, Error>) {
        value.into_string()
    }
}

impl vstd::std_specs::convert::TryFromSpecImpl<Value> for Vec<Value> {
    open spec fn obeys_try_from_spec() -> bool {
        true
    }

    open spec fn try_from_spec(value: Value) -> Result<Vec<Value>, Error> {
        match value {
            Value::List(inner) => Ok(inner),
            _ => Err(Error::TypeError),
        }
    }
}

impl TryFrom<Value> for Vec<Value> {
    type Error = Error;

    fn try_from(value: Value) -> (r: Result<Vec<Value>, Error>) {
        value.into_set()
    }
}

} // verus!
