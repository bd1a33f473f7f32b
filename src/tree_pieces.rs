//! What the tree minifier emits for each construct, as a sequence of pieces.
use vstd::prelude::*;
use crate::ast::{
    Definition, Directive, Document, Field, FragmentDefinition, Operation, OperationDefinition,
    Selection, SelectionSet, Type, TypeCondition, Value, VariableDefinition,
};
use crate::pieces::{punct, word, Piece};
use crate::text::{int_text, quoted};

verus! {

pub open spec fn opt_name_pieces(name: Option<String>) -> Seq<Piece> {
    match name {
        Some(n) => seq![word(n@)],
        None => seq![],
    }
}

pub open spec fn value_pieces(v: Value) -> Seq<Piece>
    decreases v,
{
    match v {
        Value::Variable(n) => seq![punct("$"@), word(n@)],
        Value::Int(i) => seq![word(int_text(i as int))],
        Value::Float(t) => seq![word(t@)],
        Value::String(s) => seq![word(quoted(s@))],
        Value::Boolean(b) => seq![word(
            if b {
                "true"@
            } else {
                "false"@
            },
        )],
        Value::Null => seq![word("null"@)],
        Value::Enum(n) => seq![word(n@)],
        Value::List(items) => seq![punct("["@)] + values_pieces(items@) + seq![punct("]"@)],
        Value::Object(fields) => seq![punct("{"@)] + pairs_pieces(fields@) + seq![punct("}"@)],
    }
}

/// The values one after another, with no separator of their own.
pub open spec fn values_pieces(s: Seq<Value>) -> Seq<Piece>
    decreases s,
{
    if s.len() == 0 {
        seq![]
    } else {
        values_pieces(s.drop_last()) + value_pieces(s.last())
    }
}

/// Each pair as `name:value`, one after another.
pub open spec fn pairs_pieces(s: Seq<(String, Value)>) -> Seq<Piece>
    decreases s,
{
    if s.len() == 0 {
        seq![]
    } else {
        pairs_pieces(s.drop_last()) + seq![word(s.last().0@), punct(":"@)] + value_pieces(
            s.last().1,
        )
    }
}

/// An argument list in parentheses; nothing at all when it is empty.
pub open spec fn arguments_pieces(args: Seq<(String, Value)>) -> Seq<Piece> {
    if args.len() == 0 {
        seq![]
    } else {
        seq![punct("("@)] + pairs_pieces(args) + seq![punct(")"@)]
    }
}

pub open spec fn type_pieces(t: Type) -> Seq<Piece>
    decreases t,
{
    match t {
        Type::NamedType(n) => seq![word(n@)],
        Type::ListType(inner) => seq![punct("["@)] + type_pieces(*inner) + seq![punct("]"@)],
        Type::NonNullType(inner) => type_pieces(*inner) + seq![punct("!"@)],
    }
}

pub open spec fn directive_pieces(d: Directive) -> Seq<Piece> {
    seq![punct("@"@), word(d.name@)] + arguments_pieces(d.arguments@)
}

pub open spec fn directives_pieces(s: Seq<Directive>) -> Seq<Piece>
    decreases s.len(),
{
    if s.len() == 0 {
        seq![]
    } else {
        directives_pieces(s.drop_last()) + directive_pieces(s.last())
    }
}

pub open spec fn variable_definition_pieces(v: VariableDefinition) -> Seq<Piece> {
    seq![punct("$"@), word(v.name@), punct(":"@)] + type_pieces(v.var_type) + match v.default_value {
        Some(d) => seq![punct("="@)] + value_pieces(d),
        None => seq![],
    }
}

pub open spec fn variable_definition_list_pieces(s: Seq<VariableDefinition>) -> Seq<Piece>
    decreases s.len(),
{
    if s.len() == 0 {
        seq![]
    } else {
        variable_definition_list_pieces(s.drop_last()) + variable_definition_pieces(s.last())
    }
}

/// Variable definitions in parentheses; nothing at all when there are none.
pub open spec fn variable_definitions_pieces(s: Seq<VariableDefinition>) -> Seq<Piece> {
    if s.len() == 0 {
        seq![]
    } else {
        seq![punct("("@)] + variable_definition_list_pieces(s) + seq![punct(")"@)]
    }
}

pub open spec fn type_condition_pieces(tc: TypeCondition) -> Seq<Piece> {
    match tc {
        TypeCondition::On(n) => seq![word("on"@), word(n@)],
    }
}

pub open spec fn alias_pieces(alias: Option<String>) -> Seq<Piece> {
    match alias {
        Some(a) => seq![word(a@), punct(":"@)],
        None => seq![],
    }
}

pub open spec fn opt_type_condition_pieces(tc: Option<TypeCondition>) -> Seq<Piece> {
    match tc {
        Some(tc) => type_condition_pieces(tc),
        None => seq![],
    }
}

/// A field without its selection set: alias, name, arguments, directives.
pub open spec fn field_head_pieces(f: Field) -> Seq<Piece> {
    alias_pieces(f.alias) + seq![word(f.name@)] + arguments_pieces(f.arguments@) + directives_pieces(f.directives@)
}

pub open spec fn selection_set_pieces(set: SelectionSet) -> Seq<Piece>
    decreases set,
{
    seq![punct("{"@)] + selections_pieces(set.items@) + seq![punct("}"@)]
}

pub open spec fn selections_pieces(s: Seq<Selection>) -> Seq<Piece>
    decreases s,
{
    if s.len() == 0 {
        seq![]
    } else {
        selections_pieces(s.drop_last()) + selection_pieces(s.last())
    }
}

/// A field emits its selection set only when the set has items.
pub open spec fn selection_pieces(sel: Selection) -> Seq<Piece>
    decreases sel,
{
    match sel {
        Selection::Field(f) => field_head_pieces(f) + if f.selection_set.items@.len() == 0 {
            seq![]
        } else {
            selection_set_pieces(f.selection_set)
        },
        Selection::FragmentSpread(fs) => seq![punct("..."@), word(fs.fragment_name@)]
            + directives_pieces(fs.directives@),
        Selection::InlineFragment(i) => seq![punct("..."@)] + opt_type_condition_pieces(i.type_condition)
            + directives_pieces(i.directives@) + selection_set_pieces(i.selection_set),
    }
}

/// An operation after its keyword: name, variables, directives, selections.
pub open spec fn operation_body_pieces(o: Operation) -> Seq<Piece> {
    opt_name_pieces(o.name) + variable_definitions_pieces(o.variable_definitions@)
        + directives_pieces(o.directives@) + selection_set_pieces(o.selection_set)
}

pub open spec fn operation_pieces(op: OperationDefinition) -> Seq<Piece> {
    match op {
        OperationDefinition::SelectionSet(set) => selection_set_pieces(set),
        OperationDefinition::Query(o) => seq![word("query"@)] + operation_body_pieces(o),
        OperationDefinition::Mutation(o) => seq![word("mutation"@)] + operation_body_pieces(o),
        OperationDefinition::Subscription(o) => seq![word("subscription"@)]
            + operation_body_pieces(o),
    }
}

pub open spec fn fragment_pieces(f: FragmentDefinition) -> Seq<Piece> {
    seq![word("fragment"@), word(f.name@)] + type_condition_pieces(f.type_condition)
        + directives_pieces(f.directives@) + selection_set_pieces(f.selection_set)
}

pub open spec fn definition_pieces(d: Definition) -> Seq<Piece> {
    match d {
        Definition::Operation(op) => operation_pieces(op),
        Definition::Fragment(f) => fragment_pieces(f),
    }
}

pub open spec fn definitions_pieces(s: Seq<Definition>) -> Seq<Piece>
    decreases s.len(),
{
    if s.len() == 0 {
        seq![]
    } else {
        definitions_pieces(s.drop_last()) + definition_pieces(s.last())
    }
}

/// Everything a document emits, definition after definition.
pub open spec fn document_pieces(doc: Document) -> Seq<Piece> {
    definitions_pieces(doc.definitions@)
}

/// A field with no sub-selections emits its head alone, which never ends in
/// a closing brace: no empty `{}` follows it. A field with sub-selections
/// emits them in braces after its head.
pub proof fn lemma_leaf_field_elision(f: Field)
    ensures
        f.selection_set.items@.len() == 0 ==> selection_pieces(Selection::Field(f))
            == field_head_pieces(f),
        f.selection_set.items@.len() == 0 ==> selection_pieces(Selection::Field(f)).last()
            != punct("}"@),
        f.selection_set.items@.len() > 0 ==> selection_pieces(Selection::Field(f))
            == field_head_pieces(f) + selection_set_pieces(f.selection_set),
{
    reveal_strlit("}");
    reveal_strlit(")");
    assert(")"@[0] != "}"@[0]);
    let head = field_head_pieces(f);
    assert(head + Seq::<Piece>::empty() =~= head);
    let base = alias_pieces(f.alias) + seq![word(f.name@)];
    let args = arguments_pieces(f.arguments@);
    let dirs = directives_pieces(f.directives@);
    if f.directives@.len() > 0 {
        let d = f.directives@.last();
        let dp = directive_pieces(d);
        assert(dirs.last() == dp.last());
        if d.arguments@.len() > 0 {
            assert(dp.last() == punct(")"@));
        } else {
            assert(dp =~= seq![punct("@"@), word(d.name@)]);
        }
        assert(head.last() == dirs.last());
    } else {
        assert(dirs =~= Seq::<Piece>::empty());
        if f.arguments@.len() > 0 {
            assert(args.last() == punct(")"@));
            assert(head.last() == args.last());
        } else {
            assert(head.last() == word(f.name@));
        }
    }
    assert(head.last() != punct("}"@));
}

} // verus!
