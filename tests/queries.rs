use query_minify::query::minify_query;

fn minified(source: &str) -> String {
    minify_query(source).unwrap()
}

#[test]
fn test_minify_directive_args() {
    let source = "query {\n  node @dir(a: 1, b: \"2\", c: true, d: false, e: null)\n}\n";
    assert_eq!(minified(source), "query{node@dir(a:1 b:\"2\" c:true d:false e:null)}");
}

#[test]
fn test_minify_directive_args_multiline() {
    let source = "query {\n  node @dir(\n    a: 1,\n    b: \"2\",\n    c: true,\n    d: false,\n    e: null\n  )\n}\n";
    assert_eq!(minified(source), "query{node@dir(a:1 b:\"2\" c:true d:false e:null)}");
}

#[test]
fn test_minify_fragment() {
    let source = "fragment frag on Friend {\n  node\n}\n";
    assert_eq!(minified(source), "fragment frag on Friend{node}");
}

#[test]
fn test_minify_fragment_spread() {
    let source = "query {\n  node {\n    id\n    ...something\n  }\n}\n";
    assert_eq!(minified(source), "query{node{id...something}}");
}

#[test]
fn test_minify_inline_fragment() {
    let source = "query {\n  node {\n    id\n    ... on User {\n      name\n    }\n  }\n}\n";
    assert_eq!(minified(source), "query{node{id...on User{name}}}");
}

#[test]
fn test_minify_inline_fragment_dir() {
    let source =
        "query {\n  node {\n    id\n    ... on User @defer {\n      name\n    }\n  }\n}\n";
    assert_eq!(minified(source), "query{node{id...on User@defer{name}}}");
}

const KITCHEN_SINK: &str = r#"# Copyright (c) 2015-present, Facebook, Inc.
#
# This source code is licensed under the MIT license found in the
# LICENSE file in the root directory of this source tree.

query queryName($foo: ComplexType, $site: Site = MOBILE) {
  whoever123is: node(id: [123, 456]) {
    id ,
    ... on User @defer {
      field2 {
        id ,
        alias: field1(first:10, after:$foo,) @include(if: $foo) {
          id,
          ...frag
        }
      }
    }
    ... @skip(unless: $foo) {
      id
    }
    ... {
      id
    }
  }
}

mutation likeStory {
  like(story: 123) @defer {
    story {
      id
    }
  }
}

subscription StoryLikeSubscription($input: StoryLikeSubscribeInput) {
  storyLikeSubscribe(input: $input) {
    story {
      likers {
        count
      }
      likeSentence {
        text
      }
    }
  }
}

fragment frag on Friend {
  foo(size: $size, bar: $b, obj: {key: "value", block: """

      block string uses \"""

  """})
}

{
  unnamed(truthy: true, falsey: false, nullish: null),
  query
}
"#;

#[test]
fn test_minify_kitchen_sink() {
    let expected = "query queryName($foo:ComplexType$site:Site=MOBILE){whoever123is:node(id:[123 456]){id...on User@defer{field2{id alias:field1(first:10 after:$foo)@include(if:$foo){id...frag}}}...@skip(unless:$foo){id}...{id}}}mutation likeStory{like(story:123)@defer{story{id}}}subscription StoryLikeSubscription($input:StoryLikeSubscribeInput){storyLikeSubscribe(input:$input){story{likers{count}likeSentence{text}}}}fragment frag on Friend{foo(size:$size bar:$b obj:{key:\"value\" block:\"\"\"\n\n      block string uses \\\"\"\"\n\n  \"\"\"})}{unnamed(truthy:true falsey:false nullish:null)query}";
    assert_eq!(minified(KITCHEN_SINK), expected);
}

#[test]
fn test_minify_kitchen_sink_canonical() {
    let source = r#"query queryName($foo: ComplexType, $site: Site = MOBILE) {
  whoever123is: node(id: [123, 456]) {
    id
    ... on User @defer {
      field2 {
        id
        alias: field1(first: 10, after: $foo) @include(if: $foo) {
          id
          ...frag
        }
      }
    }
    ... @skip(unless: $foo) {
      id
    }
    ... {
      id
    }
  }
}

mutation likeStory {
  like(story: 123) @defer {
    story {
      id
    }
  }
}

subscription StoryLikeSubscription($input: StoryLikeSubscribeInput) {
  storyLikeSubscribe(input: $input) {
    story {
      likers {
        count
      }
      likeSentence {
        text
      }
    }
  }
}

fragment frag on Friend {
  foo(size: $size, bar: $b, obj: {block: "block string uses \"\"\"", key: "value"})
}

{
  unnamed(truthy: true, falsey: false, nullish: null)
  query
}
"#;
    let expected = r#"query queryName($foo:ComplexType$site:Site=MOBILE){whoever123is:node(id:[123 456]){id...on User@defer{field2{id alias:field1(first:10 after:$foo)@include(if:$foo){id...frag}}}...@skip(unless:$foo){id}...{id}}}mutation likeStory{like(story:123)@defer{story{id}}}subscription StoryLikeSubscription($input:StoryLikeSubscribeInput){storyLikeSubscribe(input:$input){story{likers{count}likeSentence{text}}}}fragment frag on Friend{foo(size:$size bar:$b obj:{block:"block string uses \"\"\"" key:"value"})}{unnamed(truthy:true falsey:false nullish:null)query}"#;
    assert_eq!(minified(source), expected);
}

#[test]
fn test_minify_minimal() {
    assert_eq!(minified("{\n  a\n}\n"), "{a}");
}

#[test]
fn test_minify_minimal_mutation() {
    assert_eq!(minified("mutation {\n  notify\n}\n"), "mutation{notify}");
}

#[test]
fn test_minify_minimal_query() {
    assert_eq!(minified("query {\n  node\n}\n"), "query{node}");
}

#[test]
fn test_minify_mutation_directive() {
    assert_eq!(minified("mutation @directive {\n  node\n}\n"), "mutation@directive{node}");
}

#[test]
fn test_minify_mutation_nameless_vars() {
    let source = "mutation($first: Int, $second: Int) {\n  field1(first: $first)\n  field2(second: $second)\n}\n";
    assert_eq!(
        minified(source),
        "mutation($first:Int$second:Int){field1(first:$first)field2(second:$second)}"
    );
}

#[test]
fn test_minify_named_query() {
    assert_eq!(minified("query Foo {\n  field\n}\n"), "query Foo{field}");
}

#[test]
fn test_minify_nested_selection() {
    assert_eq!(minified("query {\n  node {\n    id\n  }\n}\n"), "query{node{id}}");
}

#[test]
fn test_minify_query_aliases() {
    assert_eq!(minified("query {\n  an_alias: node\n}\n"), "query{an_alias:node}");
}

#[test]
fn test_minify_query_arguments() {
    assert_eq!(minified("query {\n  node(id: 1)\n}\n"), "query{node(id:1)}");
}

#[test]
fn test_minify_query_arguments_multiline() {
    let source = "query {\n  node(\n    id: 1\n  )\n  node(\n    id: 1,\n    one: 3\n  )\n}\n";
    assert_eq!(minified(source), "query{node(id:1)node(id:1 one:3)}");
}

#[test]
fn test_minify_query_array_argument_multiline() {
    let source = "query {\n  node(\n    id: [\n      5,\n      6,\n      7\n    ]\n  )\n}\n";
    assert_eq!(minified(source), "query{node(id:[5 6 7])}");
}

#[test]
fn test_minify_query_directive() {
    assert_eq!(minified("query @directive {\n  node\n}\n"), "query@directive{node}");
}

#[test]
fn test_minify_query_list_argument() {
    let source = "query {\n  node(id: 1, list: [123, 456])\n}\n";
    assert_eq!(minified(source), "query{node(id:1 list:[123 456])}");
}

#[test]
fn test_minify_query_nameless_vars() {
    let source = "query($first: Int, $second: Int) {\n  field1(first: $first)\n  field2(second: $second)\n}\n";
    assert_eq!(
        minified(source),
        "query($first:Int$second:Int){field1(first:$first)field2(second:$second)}"
    );
}

const MULTIPLE_FIELDS: &str = "query($houseId: String!, $streetNumber: Int!) {\n  house(id: $houseId) {\n    id\n    name\n    lat\n    lng\n  }\n  street(number: $streetNumber) {\n    id\n  }\n  houseStreet(id: $houseId, number: $streetNumber) {\n    id\n  }\n}\n";

#[test]
fn test_minify_query_nameless_vars_multiple_fields() {
    assert_eq!(
        minified(MULTIPLE_FIELDS),
        "query($houseId:String!$streetNumber:Int!){house(id:$houseId){id name lat lng}street(number:$streetNumber){id}houseStreet(id:$houseId number:$streetNumber){id}}"
    );
}

#[test]
fn test_minify_query_nameless_vars_multiple_fields_canonical() {
    let source = "query ($houseId: String!, $streetNumber: Int!) {\n  house(id: $houseId) {\n    id\n    name\n    lat\n    lng\n  }\n  street(number: $streetNumber) {\n    id\n  }\n  houseStreet(id: $houseId, number: $streetNumber) {\n    id\n  }\n}\n";
    assert_eq!(
        minified(source),
        "query($houseId:String!$streetNumber:Int!){house(id:$houseId){id name lat lng}street(number:$streetNumber){id}houseStreet(id:$houseId number:$streetNumber){id}}"
    );
}

#[test]
fn test_minify_query_object_argument() {
    let source = "query {\n  node(id: 1, obj: {key1: 123, key2: 456})\n}\n";
    assert_eq!(minified(source), "query{node(id:1 obj:{key1:123 key2:456})}");
}

#[test]
fn test_minify_query_object_argument_multiline() {
    let source = "query {\n  node(\n    id: 1,\n    obj: {\n      key1: 123,\n      key2: 456\n    }\n  )\n}\n";
    assert_eq!(minified(source), "query{node(id:1 obj:{key1:123 key2:456})}");
}

#[test]
fn test_minify_query_var_default_float() {
    let source = "query Foo($site: Float = 0.5) {\n  field\n}\n";
    assert_eq!(minified(source), "query Foo($site:Float=0.5){field}");
}

#[test]
fn test_minify_query_var_default_list() {
    let source = "query Foo($site: [Int] = [123, 456]) {\n  field\n}\n";
    assert_eq!(minified(source), "query Foo($site:[Int]=[123 456]){field}");
}

#[test]
fn test_minify_query_var_default_object() {
    let source = "query Foo($site: Site = {url: null}) {\n  field\n}\n";
    assert_eq!(minified(source), "query Foo($site:Site={url:null}){field}");
}

#[test]
fn test_minify_query_var_default_string() {
    let source = "query Foo($site: String = \"string\") {\n  field\n}\n";
    assert_eq!(minified(source), "query Foo($site:String=\"string\"){field}");
}

#[test]
fn test_minify_query_var_defaults() {
    let source = "query Foo($site: Site = MOBILE) {\n  field\n}\n";
    assert_eq!(minified(source), "query Foo($site:Site=MOBILE){field}");
}

#[test]
fn test_minify_query_vars() {
    let source = "query Foo($arg: SomeType) {\n  field\n}\n";
    assert_eq!(minified(source), "query Foo($arg:SomeType){field}");
}

#[test]
fn test_minify_string_literal() {
    assert_eq!(minified("query {\n  node(id: \"hello\")\n}\n"), "query{node(id:\"hello\")}");
}

#[test]
fn test_minify_subscription_directive() {
    assert_eq!(
        minified("subscription @directive {\n  node\n}\n"),
        "subscription@directive{node}"
    );
}

#[test]
fn test_minify_triple_quoted_literal() {
    let source = "query {\n  node(id: \"\"\"\n    Hello,\n      world!\n  \"\"\")\n}\n";
    assert_eq!(minified(source), "query{node(id:\"\"\"\n    Hello,\n      world!\n  \"\"\")}");
}
