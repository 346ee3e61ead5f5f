use vstd::prelude::*;

verus! {

/// A datum of the syntax tree.
///
/// `Float` keeps the literal's text, which has been checked against the
/// decimal floating-point grammar; turning it into a machine float is left
/// to the consumer of the tree.
#[derive(Debug)]
pub enum Value {
    Int(i32),
    Float(String),
    String(String),
    Boolean(bool),
    List(Vec<Value>),
    Variable(String),
    Call { name: String, args: Vec<Value> },
}

/// One top-level instruction.
#[derive(Debug)]
pub enum Statements {
    Define { name: String, value: Value },
    Call { name: String, args: Vec<Value> },
}

/// The mathematical model of a [`Value`].
pub enum ValueModel {
    Int(int),
    Float(Seq<char>),
    Str(Seq<char>),
    Boolean(bool),
    List(Seq<ValueModel>),
    Variable(Seq<char>),
    Call { name: Seq<char>, args: Seq<ValueModel> },
}

/// The mathematical model of a [`Statements`].
pub enum StatementModel {
    Define { name: Seq<char>, value: ValueModel },
    Call { name: Seq<char>, args: Seq<ValueModel> },
}

/// The models of a sequence of values, element by element.
pub open spec fn values_model(s: Seq<Value>) -> Seq<ValueModel>
    decreases s,
{
    if s.len() == 0 {
        Seq::empty()
    } else {
        values_model(s.drop_last()).push(s.last().model())
    }
}

impl Value {
    pub open spec fn model(self) -> ValueModel
        decreases self,
    {
        match self {
            Value::Int(i) => ValueModel::Int(i as int),
            Value::Float(t) => ValueModel::Float(t@),
            Value::String(t) => ValueModel::Str(t@),
            Value::Boolean(b) => ValueModel::Boolean(b),
            Value::List(items) => ValueModel::List(values_model(items@)),
            Value::Variable(t) => ValueModel::Variable(t@),
            Value::Call { name, args } => ValueModel::Call { name: name@, args: values_model(args@) },
        }
    }
}

impl Statements {
    pub open spec fn model(self) -> StatementModel {
        match self {
            Statements::Define { name, value } => StatementModel::Define { name: name@, value: value.model() },
            Statements::Call { name, args } => StatementModel::Call { name: name@, args: values_model(args@) },
        }
    }
}

/// The models of a sequence of statements, element by element.
pub open spec fn statements_model(s: Seq<Statements>) -> Seq<StatementModel> {
    s.map_values(|st: Statements| st.model())
}

} // verus!
