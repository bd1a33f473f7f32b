//! The document tree that the tree minifier reads.
use vstd::prelude::*;

verus! {

/// A whole document: its definitions, in source order.
#[derive(Debug, PartialEq)]
pub struct Document {
    pub definitions: Vec<Definition>,
}

#[derive(Debug, PartialEq)]
pub enum Definition {
    Operation(OperationDefinition),
    Fragment(FragmentDefinition),
}

#[derive(Debug, PartialEq)]
pub enum OperationDefinition {
    /// The shorthand query form: a bare selection set.
    SelectionSet(SelectionSet),
    Query(Operation),
    Mutation(Operation),
    Subscription(Operation),
}

/// The body of a query, mutation or subscription.
#[derive(Debug, PartialEq)]
pub struct Operation {
    pub name: Option<String>,
    pub variable_definitions: Vec<VariableDefinition>,
    pub directives: Vec<Directive>,
    pub selection_set: SelectionSet,
}

#[derive(Debug, PartialEq)]
pub struct FragmentDefinition {
    pub name: String,
    pub type_condition: TypeCondition,
    pub directives: Vec<Directive>,
    pub selection_set: SelectionSet,
}

#[derive(Debug, PartialEq)]
pub struct SelectionSet {
    pub items: Vec<Selection>,
}

#[derive(Debug, PartialEq)]
pub enum Selection {
    Field(Field),
    FragmentSpread(FragmentSpread),
    InlineFragment(InlineFragment),
}

#[derive(Debug, PartialEq)]
pub struct Field {
    pub alias: Option<String>,
    pub name: String,
    pub arguments: Vec<(String, Value)>,
    pub directives: Vec<Directive>,
    pub selection_set: SelectionSet,
}

#[derive(Debug, PartialEq)]
pub struct FragmentSpread {
    pub fragment_name: String,
    pub directives: Vec<Directive>,
}

#[derive(Debug, PartialEq)]
pub struct InlineFragment {
    pub type_condition: Option<TypeCondition>,
    pub directives: Vec<Directive>,
    pub selection_set: SelectionSet,
}

#[derive(Debug, PartialEq)]
pub enum TypeCondition {
    On(String),
}

#[derive(Debug, PartialEq)]
pub struct VariableDefinition {
    pub name: String,
    pub var_type: Type,
    pub default_value: Option<Value>,
}

#[derive(Debug, PartialEq)]
pub enum Type {
    NamedType(String),
    ListType(Box<Type>),
    NonNullType(Box<Type>),
}

#[derive(Debug, PartialEq)]
pub struct Directive {
    pub name: String,
    pub arguments: Vec<(String, Value)>,
}

#[derive(Debug, PartialEq)]
pub enum Value {
    Variable(String),
    Int(i64),
    /// A float, held as its canonical decimal text (the shortest text that
    /// reads back as the same double, as Rust's `f64` formatting gives it).
    Float(String),
    /// The decoded string value.
    String(String),
    Boolean(bool),
    Null,
    Enum(String),
    List(Vec<Value>),
    /// Name and value pairs, in source order.
    Object(Vec<(String, Value)>),
}

} // verus!
