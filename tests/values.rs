use query_minify::ast::{
    Definition, Directive, Document, Field, FragmentSpread, InlineFragment, Operation,
    OperationDefinition, Selection, SelectionSet, Type, TypeCondition, Value, VariableDefinition,
};
use query_minify::query::minify_query;
use query_minify::tree::minify_document;

fn shorthand(items: Vec<Selection>) -> Document {
    Document {
        definitions: vec![Definition::Operation(OperationDefinition::SelectionSet(SelectionSet {
            items,
        }))],
    }
}

fn field_with(name: &str, arguments: Vec<(String, Value)>, items: Vec<Selection>) -> Selection {
    Selection::Field(Field {
        alias: None,
        name: name.to_string(),
        arguments,
        directives: vec![],
        selection_set: SelectionSet { items },
    })
}

fn with_value(value: Value) -> String {
    minify_document(&shorthand(vec![field_with("f", vec![("a".to_string(), value)], vec![])]))
}

#[test]
fn string_escapes_named_controls() {
    let s = "\u{8}\u{c}\r\n\t\"\\".to_string();
    assert_eq!(with_value(Value::String(s)), "{f(a:\"\\b\\f\\r\\n\\t\\\"\\\\\")}");
}

#[test]
fn string_escapes_other_controls_as_hex() {
    let s = "\u{0}\u{1}\u{1f}\u{7f}\u{9f}".to_string();
    assert_eq!(with_value(Value::String(s)), "{f(a:\"\\u0000\\u0001\\u001f\\u007f\\u009f\")}");
}

#[test]
fn string_keeps_non_ascii_text() {
    let s = "héllo wörld ✓ /".to_string();
    assert_eq!(with_value(Value::String(s)), "{f(a:\"héllo wörld ✓ /\")}");
}

#[test]
fn block_string_value_is_requoted() {
    let s = "block string uses \"\"\"".to_string();
    assert_eq!(with_value(Value::String(s)), "{f(a:\"block string uses \\\"\\\"\\\"\")}");
}

#[test]
fn string_after_word_gets_a_space() {
    let list = Value::List(vec![
        Value::Int(1),
        Value::String("x".to_string()),
        Value::String("y".to_string()),
        Value::Variable("v".to_string()),
        Value::String(String::new()),
    ]);
    assert_eq!(with_value(list), "{f(a:[1 \"x\" \"y\"$v \"\"])}");
}

#[test]
fn ints_in_decimal() {
    assert_eq!(with_value(Value::Int(0)), "{f(a:0)}");
    assert_eq!(with_value(Value::Int(-42)), "{f(a:-42)}");
    assert_eq!(with_value(Value::Int(1234567890)), "{f(a:1234567890)}");
    assert_eq!(with_value(Value::Int(i64::MAX)), "{f(a:9223372036854775807)}");
    assert_eq!(with_value(Value::Int(i64::MIN)), "{f(a:-9223372036854775808)}");
}

#[test]
fn floats_booleans_null_enums() {
    let list = Value::List(vec![
        Value::Float(0.5f64.to_string()),
        Value::Float(1e100f64.to_string()),
        Value::Boolean(true),
        Value::Boolean(false),
        Value::Null,
        Value::Enum("MOBILE".to_string()),
    ]);
    assert_eq!(
        with_value(list),
        "{f(a:[0.5 10000000000000000000000000000000000000000000000000000000000000000000000000000000000000000000000000000 true false null MOBILE])}"
    );
}

#[test]
fn empty_list_and_object() {
    assert_eq!(with_value(Value::List(vec![])), "{f(a:[])}");
    assert_eq!(with_value(Value::Object(vec![])), "{f(a:{})}");
}

#[test]
fn object_keeps_pair_order_and_duplicates() {
    let obj = Value::Object(vec![
        ("b".to_string(), Value::Int(1)),
        ("a".to_string(), Value::Object(vec![("c".to_string(), Value::Null)])),
        ("b".to_string(), Value::Int(2)),
    ]);
    assert_eq!(with_value(obj), "{f(a:{b:1 a:{c:null}b:2})}");
}

#[test]
fn leaf_field_has_no_braces() {
    let doc = shorthand(vec![field_with("a", vec![], vec![]), field_with("b", vec![], vec![])]);
    assert_eq!(minify_document(&doc), "{a b}");
}

#[test]
fn inline_fragment_keeps_empty_selection_set() {
    let doc = shorthand(vec![Selection::InlineFragment(InlineFragment {
        type_condition: None,
        directives: vec![],
        selection_set: SelectionSet { items: vec![] },
    })]);
    assert_eq!(minify_document(&doc), "{...{}}");
}

#[test]
fn fragment_spread_with_directives() {
    let doc = shorthand(vec![Selection::FragmentSpread(FragmentSpread {
        fragment_name: "frag".to_string(),
        directives: vec![
            Directive { name: "a".to_string(), arguments: vec![] },
            Directive {
                name: "b".to_string(),
                arguments: vec![("if".to_string(), Value::Boolean(true))],
            },
        ],
    })]);
    assert_eq!(minify_document(&doc), "{...frag@a@b(if:true)}");
}

#[test]
fn alias_and_nested_types() {
    let doc = Document {
        definitions: vec![Definition::Operation(OperationDefinition::Subscription(Operation {
            name: None,
            variable_definitions: vec![VariableDefinition {
                name: "x".to_string(),
                var_type: Type::NonNullType(Box::new(Type::ListType(Box::new(Type::NonNullType(
                    Box::new(Type::NamedType("Int".to_string())),
                ))))),
                default_value: Some(Value::List(vec![Value::Int(1)])),
            }],
            directives: vec![],
            selection_set: SelectionSet {
                items: vec![Selection::Field(Field {
                    alias: Some("b".to_string()),
                    name: "a".to_string(),
                    arguments: vec![],
                    directives: vec![],
                    selection_set: SelectionSet { items: vec![] },
                })],
            },
        }))],
    };
    assert_eq!(minify_document(&doc), "subscription($x:[Int!]!=[1]){b:a}");
}

#[test]
fn query_with_variable_default_enum() {
    let doc = Document {
        definitions: vec![Definition::Operation(OperationDefinition::Query(Operation {
            name: Some("Foo".to_string()),
            variable_definitions: vec![VariableDefinition {
                name: "site".to_string(),
                var_type: Type::NamedType("Site".to_string()),
                default_value: Some(Value::Enum("MOBILE".to_string())),
            }],
            directives: vec![],
            selection_set: SelectionSet { items: vec![field_with("field", vec![], vec![])] },
        }))],
    };
    let source = "query Foo($site: Site = MOBILE) { field }";
    assert_eq!(minify_document(&doc), "query Foo($site:Site=MOBILE){field}");
    assert_eq!(minify_query(source).unwrap(), minify_document(&doc));
}

#[test]
fn definitions_join_by_adjacency_rule() {
    let doc = Document {
        definitions: vec![
            Definition::Operation(OperationDefinition::SelectionSet(SelectionSet {
                items: vec![field_with("a", vec![], vec![])],
            })),
            Definition::Fragment(query_minify::ast::FragmentDefinition {
                name: "F".to_string(),
                type_condition: TypeCondition::On("T".to_string()),
                directives: vec![],
                selection_set: SelectionSet { items: vec![field_with("b", vec![], vec![])] },
            }),
        ],
    };
    assert_eq!(minify_document(&doc), "{a}fragment F on T{b}");
}

#[test]
fn empty_document_is_empty() {
    assert_eq!(minify_document(&Document { definitions: vec![] }), "");
}
