//! The values, commands and errors of the remote cache protocol.

pub mod codec;
pub mod contract;
pub mod convert;
pub mod frame;
pub mod mux;
pub mod wire;

use vstd::prelude::*;

verus! {

broadcast use vstd::std_specs::vec::group_vec_axioms;

/// Bounds and creation flag that an increment may carry.
#[derive(Debug, Clone, Copy, PartialEq, Eq, Structural)]
pub struct IncrementOpts {
    pub lower_limit: Option<i32>,
    pub upper_limit: Option<i32>,
    pub create: Option<bool>,
}

/// A number with the bounds it must stay within.
#[derive(Debug, Clone, Copy, PartialEq, Eq, Structural)]
pub struct Incrementable {
    pub value: i32,
    pub lower_limit: Option<i32>,
    pub upper_limit: Option<i32>,
}

/// What the remote cache refuses a command with.
#[derive(Debug, Clone, Copy, PartialEq, Eq, Structural)]
pub enum Error {
    LimitReached,
    TypeError,
    NotFound,
}

impl Error {
    /// The text that names the refusal.
    pub open spec fn spec_message(self) -> Seq<char> {
        match self {
            Error::LimitReached => "Limit reached"@,
            Error::TypeError => "Type error"@,
            Error::NotFound => "Not found"@,
        }
    }

    /// The text that names the refusal.
    pub fn message(&self) -> (text: String)
        ensures
            text@ == self.spec_message(),
    {
        match self {
            Error::LimitReached => "Limit reached".to_owned(),
            Error::TypeError => "Type error".to_owned(),
            Error::NotFound => "Not found".to_owned(),
        }
    }
}

/// A value as it is stored in the remote cache and carried on the wire.
#[derive(Debug)]
pub enum Value {
    Nil,
    String(String),
    Nat(u32),
    Int(i32),
    Bool(bool),
    Inc(Incrementable),
    Bin(Vec<u8>),
    List(Vec<Value>),
}

/// What a `Value` holds, as mathematical values.
pub enum ValueView {
    Nil,
    String(Seq<char>),
    Nat(u32),
    Int(i32),
    Bool(bool),
    Inc(Incrementable),
    Bin(Seq<u8>),
    List(Seq<ValueView>),
}

/// The mathematical value that `v` holds.
pub open spec fn view_of(v: Value) -> ValueView
    decreases v, 0nat,
{
    match v {
        Value::Nil => ValueView::Nil,
        Value::String(text) => ValueView::String(text@),
        Value::Nat(n) => ValueView::Nat(n),
        Value::Int(n) => ValueView::Int(n),
        Value::Bool(b) => ValueView::Bool(b),
        Value::Inc(inc) => ValueView::Inc(inc),
        Value::Bin(bytes) => ValueView::Bin(bytes@),
        Value::List(items) => ValueView::List(views_of(items@)),
    }
}

/// The mathematical values that `items` hold, in their order.
pub open spec fn views_of(items: Seq<Value>) -> Seq<ValueView>
    decreases items, items.len(),
{
    if items.len() == 0 {
        Seq::empty()
    } else {
        views_of(items.drop_last()).push(view_of(items.last()))
    }
}

impl View for Value {
    type V = ValueView;

    open spec fn view(&self) -> ValueView {
        view_of(*self)
    }
}

/// `views_of` keeps the length and maps each item to its view.
pub proof fn lemma_views_of(items: Seq<Value>)
    ensures
        views_of(items).len() == items.len(),
        forall|i: int| 0 <= i < items.len() ==> #[trigger] views_of(items)[i] == items[i]@,
    decreases items.len(),
{
    if items.len() > 0 {
        lemma_views_of(items.drop_last());
    }
}

/// A command of the remote cache, each with the key it works on.
#[derive(Debug)]
pub enum MonaeicacheCommand<'a> {
    Put(&'a str, Value),
    Get(&'a str),
    Remove(&'a str),
    Increment(&'a str, i32, Option<IncrementOpts>),
    AddToSet(&'a str, Value, Option<usize>),
}

/// What a command holds, as mathematical values.
pub enum CommandView {
    Put(Seq<char>, ValueView),
    Get(Seq<char>),
    Remove(Seq<char>),
    Increment(Seq<char>, i32, Option<IncrementOpts>),
    AddToSet(Seq<char>, ValueView, Option<usize>),
}

impl<'a> View for MonaeicacheCommand<'a> {
    type V = CommandView;

    open spec fn view(&self) -> CommandView {
        match *self {
            MonaeicacheCommand::Put(key, value) => CommandView::Put(key@, value@),
            MonaeicacheCommand::Get(key) => CommandView::Get(key@),
            MonaeicacheCommand::Remove(key) => CommandView::Remove(key@),
            MonaeicacheCommand::Increment(key, delta, opts) => CommandView::Increment(
                key@,
                delta,
                opts,
            ),
            MonaeicacheCommand::AddToSet(key, value, max_size) => CommandView::AddToSet(
                key@,
                value@,
                max_size,
            ),
        }
    }
}

impl Value {
    pub fn is_none(&self) -> (r: bool)
        ensures
            r == (*self is Nil),
    {
        match self {
            Value::Nil => true,
            _ => false,
        }
    }

    pub fn as_str(&self) -> (r: Option<&String>)
        ensures
            match r {
                Some(text) => *self == Value::String(*text),
                None => !(*self is String),
            },
    {
        match self {
            Value::String(text) => Some(text),
            _ => None,
        }
    }

    pub fn as_set(&self) -> (r: Option<&Vec<Value>>)
        ensures
            match r {
                Some(items) => *self == Value::List(*items),
                None => !(*self is List),
            },
    {
        match self {
            Value::List(items) => Some(items),
            _ => None,
        }
    }

    pub fn as_set_mut(&mut self) -> (r: Option<&mut Vec<Value>>)
        ensures
            match r {
                Some(items) => {
                    &&& *old(self) == Value::List(*items)
                    &&& *final(self) == Value::List(*final(items))
                },
                None => !(*old(self) is List) && *final(self) == *old(self),
            },
    {
        match self {
            Value::List(items) => Some(items),
            _ => None,
        }
    }

    pub fn as_inc_mut(&mut self) -> (r: Option<&mut Incrementable>)
        ensures
            match r {
                Some(inc) => {
                    &&& *old(self) == Value::Inc(*inc)
                    &&& *final(self) == Value::Inc(*final(inc))
                },
                None => !(*old(self) is Inc) && *final(self) == *old(self),
            },
    {
        match self {
            Value::Inc(inc) => Some(inc),
            _ => None,
        }
    }

    pub fn as_inc(&self) -> (r: Option<&Incrementable>)
        ensures
            match r {
                Some(inc) => *self == Value::Inc(*inc),
                None => !(*self is Inc),
            },
    {
        match self {
            Value::Inc(inc) => Some(inc),
            _ => None,
        }
    }
}

} // verus!
