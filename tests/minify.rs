use query_minify::ast::{
    Definition, Directive, Document, Field, FragmentDefinition, FragmentSpread, InlineFragment,
    Operation, OperationDefinition, Selection, SelectionSet, Type, TypeCondition, Value,
    VariableDefinition,
};
use query_minify::query::minify_query;
use query_minify::tree::minify_document;

fn set(items: Vec<Selection>) -> SelectionSet {
    SelectionSet { items }
}

fn field(name: &str, arguments: Vec<(String, Value)>, items: Vec<Selection>) -> Selection {
    Selection::Field(Field {
        alias: None,
        name: name.to_string(),
        arguments,
        directives: vec![],
        selection_set: set(items),
    })
}

fn leaf(name: &str) -> Selection {
    field(name, vec![], vec![])
}

fn arg(name: &str, value: Value) -> (String, Value) {
    (name.to_string(), value)
}

fn var(name: &str) -> Value {
    Value::Variable(name.to_string())
}

fn named(name: &str) -> Type {
    Type::NamedType(name.to_string())
}

fn var_def(name: &str, var_type: Type, default_value: Option<Value>) -> VariableDefinition {
    VariableDefinition { name: name.to_string(), var_type, default_value }
}

fn query_doc(name: Option<&str>, vars: Vec<VariableDefinition>, items: Vec<Selection>) -> Document {
    Document {
        definitions: vec![Definition::Operation(OperationDefinition::Query(Operation {
            name: name.map(|n| n.to_string()),
            variable_definitions: vars,
            directives: vec![],
            selection_set: set(items),
        }))],
    }
}

const SOME_QUERY: &str = "
        query SomeQuery($foo: String!, $bar: String) {
            someField(foo: $foo, bar: $bar) {
                a
                b {
                    ... on B {
                        c
                        d
                    }
                }
            }
        }
        ";

fn some_query_doc() -> Document {
    query_doc(
        Some("SomeQuery"),
        vec![
            var_def("foo", Type::NonNullType(Box::new(named("String"))), None),
            var_def("bar", named("String"), None),
        ],
        vec![field(
            "someField",
            vec![arg("foo", var("foo")), arg("bar", var("bar"))],
            vec![
                leaf("a"),
                field(
                    "b",
                    vec![],
                    vec![Selection::InlineFragment(InlineFragment {
                        type_condition: Some(TypeCondition::On("B".to_string())),
                        directives: vec![],
                        selection_set: set(vec![leaf("c"), leaf("d")]),
                    })],
                ),
            ],
        )],
    )
}

#[test]
fn strip_ignored_characters() {
    let source = SOME_QUERY;
    let minified = minify_query(source.to_string().as_str()).expect("minification failed");
    assert_eq!(
        &minified,
        "query SomeQuery($foo:String!$bar:String){someField(foo:$foo bar:$bar){a b{...on B{c d}}}}"
    );
}

#[test]
fn unexpected_token() {
    let source = "
        query foo {
            bar;
        }
        ";
    let minified = minify_query(source.to_string().as_str());
    assert!(minified.is_err());
    assert_eq!(
        minified.unwrap_err().to_string(),
        "query minify error: Unexpected unexpected character ';'"
    );
}

#[test]
fn minify_document_test() {
    let doc = some_query_doc();
    let minified_doc = minify_document(&doc);
    let minified_query = minify_query(SOME_QUERY).expect("minification failed");
    assert_eq!(minified_doc, minified_query);
}

#[test]
fn minify_document_complex() {
    let source = r#"
        mutation DoSomething($input: UpdateInput! = { a: 1, b: "foo" }) @opt(level: 1) {
            updateItem(id: "123", data: $input) {
                id
                ... on Item {
                    name
                    tags
                }
                ...FragmentName
            }
        }
        fragment FragmentName on Item {
            owner {
                id
                email
            }
        }
        "#;
    let doc = Document {
        definitions: vec![
            Definition::Operation(OperationDefinition::Mutation(Operation {
                name: Some("DoSomething".to_string()),
                variable_definitions: vec![var_def(
                    "input",
                    Type::NonNullType(Box::new(named("UpdateInput"))),
                    Some(Value::Object(vec![
                        arg("a", Value::Int(1)),
                        arg("b", Value::String("foo".to_string())),
                    ])),
                )],
                directives: vec![Directive {
                    name: "opt".to_string(),
                    arguments: vec![arg("level", Value::Int(1))],
                }],
                selection_set: set(vec![field(
                    "updateItem",
                    vec![arg("id", Value::String("123".to_string())), arg("data", var("input"))],
                    vec![
                        leaf("id"),
                        Selection::InlineFragment(InlineFragment {
                            type_condition: Some(TypeCondition::On("Item".to_string())),
                            directives: vec![],
                            selection_set: set(vec![leaf("name"), leaf("tags")]),
                        }),
                        Selection::FragmentSpread(FragmentSpread {
                            fragment_name: "FragmentName".to_string(),
                            directives: vec![],
                        }),
                    ],
                )]),
            })),
            Definition::Fragment(FragmentDefinition {
                name: "FragmentName".to_string(),
                type_condition: TypeCondition::On("Item".to_string()),
                directives: vec![],
                selection_set: set(vec![field("owner", vec![], vec![leaf("id"), leaf("email")])]),
            }),
        ],
    };
    let minified_doc = minify_document(&doc);
    let minified_query = minify_query(source).expect("minification failed");
    assert_eq!(minified_doc, minified_query);
    assert_eq!(
        minified_doc,
        "mutation DoSomething($input:UpdateInput!={a:1 b:\"foo\"})@opt(level:1){updateItem(id:\"123\" data:$input){id...on Item{name tags}...FragmentName}}fragment FragmentName on Item{owner{id email}}"
    );
}
