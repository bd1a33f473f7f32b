//! The tree minifier: a depth-first walk of a document that emits each
//! construct's pieces, joined by the adjacency rule.
use vstd::prelude::*;
use crate::ast::{
    Definition, Directive, Document, FragmentDefinition, Operation, OperationDefinition, Selection,
    SelectionSet, Type, TypeCondition, Value, VariableDefinition,
};
use crate::pieces::{
    gap, last_word, lemma_last_word_concat, lemma_render_concat, lemma_render_one, punct, render, render_from, word,
    Piece,
};
use crate::text::{push_char, write_int, write_quoted};
use crate::tree_pieces::{
    alias_pieces, opt_type_condition_pieces,
    arguments_pieces, definition_pieces, definitions_pieces, directive_pieces, directives_pieces,
    document_pieces, field_head_pieces, fragment_pieces, opt_name_pieces, operation_body_pieces,
    operation_pieces, pairs_pieces, selection_pieces, selection_set_pieces, selections_pieces,
    type_condition_pieces, type_pieces, value_pieces, values_pieces, variable_definition_list_pieces,
    variable_definition_pieces, variable_definitions_pieces,
};

verus! {

/// The output buffer, and whether the last piece written was word-like.
pub(crate) struct Minifier {
    pub(crate) buf: String,
    pub(crate) last_was_non_punctuator: bool,
}

/// `after` is `before` with the pieces `ps` written.
pub(crate) open spec fn emitted(before: Minifier, after: Minifier, ps: Seq<Piece>) -> bool {
    &&& after.buf@ == before.buf@ + render_from(before.last_was_non_punctuator, ps)
    &&& after.last_was_non_punctuator == last_word(before.last_was_non_punctuator, ps)
}

proof fn lemma_emitted_nothing(m: Minifier)
    ensures
        emitted(m, m, seq![]),
{
    assert(m.buf@ + render_from(m.last_was_non_punctuator, seq![]) =~= m.buf@);
}

proof fn lemma_emitted_then(a: Minifier, b: Minifier, c: Minifier, p: Seq<Piece>, q: Seq<Piece>)
    requires
        emitted(a, b, p),
        emitted(b, c, q),
    ensures
        emitted(a, c, p + q),
{
    lemma_render_concat(a.last_was_non_punctuator, p, q);
    lemma_last_word_concat(a.last_was_non_punctuator, p, q);
    assert(c.buf@ =~= a.buf@ + render_from(a.last_was_non_punctuator, p + q));
}

impl Minifier {
    fn new() -> (m: Self)
        ensures
            m.buf@ == Seq::<char>::empty(),
            !m.last_was_non_punctuator,
    {
        Minifier { buf: String::new(), last_was_non_punctuator: false }
    }

    fn write_non_punctuator(&mut self, s: &str)
        ensures
            emitted(*old(self), *final(self), seq![word(s@)]),
    {
        proof {
            lemma_render_one(self.last_was_non_punctuator, word(s@));
        }
        if self.last_was_non_punctuator {
            push_char(&mut self.buf, ' ');
        }
        self.buf.append(s);
        self.last_was_non_punctuator = true;
        assert(self.buf@ =~= old(self).buf@ + (gap(old(self).last_was_non_punctuator, word(s@))
            + s@));
    }

    fn write_punctuator(&mut self, s: &str)
        ensures
            emitted(*old(self), *final(self), seq![punct(s@)]),
    {
        proof {
            lemma_render_one(self.last_was_non_punctuator, punct(s@));
            assert(gap(self.last_was_non_punctuator, punct(s@)) =~= Seq::<char>::empty());
        }
        self.buf.append(s);
        self.last_was_non_punctuator = false;
        assert(self.buf@ =~= old(self).buf@ + Seq::<char>::empty() + s@);
    }

    fn write_document(&mut self, doc: &Document)
        ensures
            emitted(*old(self), *final(self), document_pieces(*doc)),
    {
        let ghost start = *self;
        proof {
            lemma_emitted_nothing(start);
        }
        let mut i: usize = 0;
        while i < doc.definitions.len()
            invariant
                i <= doc.definitions.len(),
                emitted(start, *self, definitions_pieces(doc.definitions@.take(i as int))),
            decreases doc.definitions.len() - i,
        {
            let ghost mid = *self;
            self.write_definition(&doc.definitions[i]);
            proof {
                let t = doc.definitions@.take(i + 1);
                assert(t.drop_last() =~= doc.definitions@.take(i as int));
                lemma_emitted_then(
                    start,
                    mid,
                    *self,
                    definitions_pieces(doc.definitions@.take(i as int)),
                    definition_pieces(doc.definitions@[i as int]),
                );
            }
            i = i + 1;
        }
        assert(doc.definitions@.take(i as int) =~= doc.definitions@);
    }

    fn write_definition(&mut self, def: &Definition)
        ensures
            emitted(*old(self), *final(self), definition_pieces(*def)),
    {
        match def {
            Definition::Operation(op) => self.write_operation(op),
            Definition::Fragment(frag) => self.write_fragment(frag),
        }
    }

    fn write_operation(&mut self, op: &OperationDefinition)
        ensures
            emitted(*old(self), *final(self), operation_pieces(*op)),
    {
        let ghost s0 = *self;
        match op {
            OperationDefinition::SelectionSet(set) => self.write_selection_set(set),
            OperationDefinition::Query(q) => {
                self.write_non_punctuator("query");
                let ghost s1 = *self;
                self.write_operation_body(q);
                proof {
                    lemma_emitted_then(s0, s1, *self, seq![word("query"@)], operation_body_pieces(*q));
                }
            },
            OperationDefinition::Mutation(m) => {
                self.write_non_punctuator("mutation");
                let ghost s1 = *self;
                self.write_operation_body(m);
                proof {
                    lemma_emitted_then(s0, s1, *self, seq![word("mutation"@)], operation_body_pieces(*m));
                }
            },
            OperationDefinition::Subscription(s) => {
                self.write_non_punctuator("subscription");
                let ghost s1 = *self;
                self.write_operation_body(s);
                proof {
                    lemma_emitted_then(
                        s0,
                        s1,
                        *self,
                        seq![word("subscription"@)],
                        operation_body_pieces(*s),
                    );
                }
            },
        }
    }

    /// Writes what follows an operation's keyword.
    fn write_operation_body(&mut self, o: &Operation)
        ensures
            emitted(*old(self), *final(self), operation_body_pieces(*o)),
    {
        let ghost s1 = *self;
        let ghost name_ps = opt_name_pieces(o.name);
        if let Some(name) = &o.name {
            self.write_non_punctuator(name.as_str());
        } else {
            proof {
                lemma_emitted_nothing(s1);
            }
        }
        let ghost s2 = *self;
        self.write_variable_definitions(&o.variable_definitions);
        let ghost s3 = *self;
        self.write_directives(&o.directives);
        let ghost s4 = *self;
        self.write_selection_set(&o.selection_set);
        proof {
            let v = variable_definitions_pieces(o.variable_definitions@);
            let d = directives_pieces(o.directives@);
            let ss = selection_set_pieces(o.selection_set);
            lemma_emitted_then(s1, s2, s3, name_ps, v);
            lemma_emitted_then(s1, s3, s4, name_ps + v, d);
            lemma_emitted_then(s1, s4, *self, name_ps + v + d, ss);
        }
    }

    fn write_fragment(&mut self, frag: &FragmentDefinition)
        ensures
            emitted(*old(self), *final(self), fragment_pieces(*frag)),
    {
        let ghost s0 = *self;
        self.write_non_punctuator("fragment");
        let ghost s1 = *self;
        self.write_non_punctuator(frag.name.as_str());
        let ghost s2 = *self;
        self.write_type_condition(&frag.type_condition);
        let ghost s3 = *self;
        self.write_directives(&frag.directives);
        let ghost s4 = *self;
        self.write_selection_set(&frag.selection_set);
        proof {
            let k = seq![word("fragment"@)];
            let n = seq![word(frag.name@)];
            let tc = type_condition_pieces(frag.type_condition);
            let d = directives_pieces(frag.directives@);
            let ss = selection_set_pieces(frag.selection_set);
            lemma_emitted_then(s0, s1, s2, k, n);
            lemma_emitted_then(s0, s2, s3, k + n, tc);
            lemma_emitted_then(s0, s3, s4, k + n + tc, d);
            lemma_emitted_then(s0, s4, *self, k + n + tc + d, ss);
            assert(k + n + tc + d + ss =~= fragment_pieces(*frag));
        }
    }

    fn write_selection_set(&mut self, set: &SelectionSet)
        ensures
            emitted(*old(self), *final(self), selection_set_pieces(*set)),
        decreases set,
    {
        let ghost start = *self;
        self.write_punctuator("{");
        let ghost open = seq![punct("{"@)];
        let mut i: usize = 0;
        while i < set.items.len()
            invariant
                i <= set.items.len(),
                emitted(start, *self, open + selections_pieces(set.items@.take(i as int))),
            decreases set.items.len() - i,
        {
            let ghost mid = *self;
            self.write_selection(&set.items[i]);
            proof {
                let t = set.items@.take(i + 1);
                assert(t.drop_last() =~= set.items@.take(i as int));
                let before = selections_pieces(set.items@.take(i as int));
                let item = selection_pieces(set.items@[i as int]);
                lemma_emitted_then(start, mid, *self, open + before, item);
                assert(open + before + item =~= open + selections_pieces(t));
            }
            i = i + 1;
        }
        let ghost mid = *self;
        self.write_punctuator("}");
        proof {
            assert(set.items@.take(i as int) =~= set.items@);
            let all = selections_pieces(set.items@);
            lemma_emitted_then(start, mid, *self, open + all, seq![punct("}"@)]);
            assert(open + all + seq![punct("}"@)] =~= selection_set_pieces(*set));
        }
    }

    fn write_selection(&mut self, selection: &Selection)
        ensures
            emitted(*old(self), *final(self), selection_pieces(*selection)),
        decreases selection,
    {
        let ghost s0 = *self;
        match selection {
            Selection::Field(f) => {
                let ghost alias_ps = alias_pieces(f.alias);
                if let Some(alias) = &f.alias {
                    self.write_non_punctuator(alias.as_str());
                    let ghost m = *self;
                    self.write_punctuator(":");
                    proof {
                        lemma_emitted_then(s0, m, *self, seq![word(alias@)], seq![punct(":"@)]);
                        assert(seq![word(alias@)] + seq![punct(":"@)] =~= alias_ps);
                    }
                } else {
                    proof {
                        lemma_emitted_nothing(s0);
                    }
                }
                let ghost s1 = *self;
                self.write_non_punctuator(f.name.as_str());
                let ghost s2 = *self;
                self.write_arguments(&f.arguments);
                let ghost s3 = *self;
                self.write_directives(&f.directives);
                let ghost s4 = *self;
                let ghost n = seq![word(f.name@)];
                let ghost a = arguments_pieces(f.arguments@);
                let ghost d = directives_pieces(f.directives@);
                proof {
                    lemma_emitted_then(s0, s1, s2, alias_ps, n);
                    lemma_emitted_then(s0, s2, s3, alias_ps + n, a);
                    lemma_emitted_then(s0, s3, s4, alias_ps + n + a, d);
                    assert(alias_ps + n + a + d =~= field_head_pieces(*f));
                }
                if f.selection_set.items.len() > 0 {
                    self.write_selection_set(&f.selection_set);
                    proof {
                        lemma_emitted_then(
                            s0,
                            s4,
                            *self,
                            field_head_pieces(*f),
                            selection_set_pieces(f.selection_set),
                        );
                    }
                } else {
                    assert(field_head_pieces(*f) + Seq::<Piece>::empty() =~= field_head_pieces(
                        *f,
                    ));
                }
            },
            Selection::FragmentSpread(fs) => {
                self.write_punctuator("...");
                let ghost s1 = *self;
                self.write_non_punctuator(fs.fragment_name.as_str());
                let ghost s2 = *self;
                self.write_directives(&fs.directives);
                proof {
                    let p = seq![punct("..."@)];
                    let n = seq![word(fs.fragment_name@)];
                    lemma_emitted_then(s0, s1, s2, p, n);
                    lemma_emitted_then(s0, s2, *self, p + n, directives_pieces(fs.directives@));
                    assert(p + n + directives_pieces(fs.directives@) =~= selection_pieces(
                        *selection,
                    ));
                }
            },
            Selection::InlineFragment(ifrag) => {
                self.write_punctuator("...");
                let ghost s1 = *self;
                let ghost tc_ps = opt_type_condition_pieces(ifrag.type_condition);
                if let Some(tc) = &ifrag.type_condition {
                    self.write_type_condition(tc);
                } else {
                    proof {
                        lemma_emitted_nothing(s1);
                    }
                }
                let ghost s2 = *self;
                self.write_directives(&ifrag.directives);
                let ghost s3 = *self;
                self.write_selection_set(&ifrag.selection_set);
                proof {
                    let p = seq![punct("..."@)];
                    let d = directives_pieces(ifrag.directives@);
                    let ss = selection_set_pieces(ifrag.selection_set);
                    lemma_emitted_then(s0, s1, s2, p, tc_ps);
                    lemma_emitted_then(s0, s2, s3, p + tc_ps, d);
                    lemma_emitted_then(s0, s3, *self, p + tc_ps + d, ss);
                    assert(p + tc_ps + d + ss =~= selection_pieces(*selection));
                }
            },
        }
    }

    fn write_type_condition(&mut self, tc: &TypeCondition)
        ensures
            emitted(*old(self), *final(self), type_condition_pieces(*tc)),
    {
        match tc {
            TypeCondition::On(name) => {
                let ghost s0 = *self;
                self.write_non_punctuator("on");
                let ghost s1 = *self;
                self.write_non_punctuator(name.as_str());
                proof {
                    lemma_emitted_then(s0, s1, *self, seq![word("on"@)], seq![word(name@)]);
                    assert(seq![word("on"@)] + seq![word(name@)] =~= type_condition_pieces(*tc));
                }
            },
        }
    }

    fn write_variable_definitions(&mut self, vars: &Vec<VariableDefinition>)
        ensures
            emitted(*old(self), *final(self), variable_definitions_pieces(vars@)),
    {
        let ghost start = *self;
        if vars.len() == 0 {
            proof {
                lemma_emitted_nothing(start);
            }
            return ;
        }
        self.write_punctuator("(");
        let ghost open = seq![punct("("@)];
        let mut i: usize = 0;
        while i < vars.len()
            invariant
                i <= vars.len(),
                emitted(start, *self, open + variable_definition_list_pieces(vars@.take(i as int))),
            decreases vars.len() - i,
        {
            let ghost mid = *self;
            self.write_variable_definition(&vars[i]);
            proof {
                let t = vars@.take(i + 1);
                assert(t.drop_last() =~= vars@.take(i as int));
                let before = variable_definition_list_pieces(vars@.take(i as int));
                let item = variable_definition_pieces(vars@[i as int]);
                lemma_emitted_then(start, mid, *self, open + before, item);
                assert(open + before + item =~= open + variable_definition_list_pieces(t));
            }
            i = i + 1;
        }
        let ghost mid = *self;
        self.write_punctuator(")");
        proof {
            assert(vars@.take(i as int) =~= vars@);
            let all = variable_definition_list_pieces(vars@);
            lemma_emitted_then(start, mid, *self, open + all, seq![punct(")"@)]);
            assert(open + all + seq![punct(")"@)] =~= variable_definitions_pieces(vars@));
        }
    }

    fn write_variable_definition(&mut self, var: &VariableDefinition)
        ensures
            emitted(*old(self), *final(self), variable_definition_pieces(*var)),
    {
        let ghost s0 = *self;
        self.write_punctuator("$");
        let ghost s1 = *self;
        self.write_non_punctuator(var.name.as_str());
        let ghost s2 = *self;
        self.write_punctuator(":");
        let ghost s3 = *self;
        self.write_type(&var.var_type);
        let ghost s4 = *self;
        let ghost head = seq![punct("$"@), word(var.name@), punct(":"@)];
        let ghost t = type_pieces(var.var_type);
        proof {
            lemma_emitted_then(s0, s1, s2, seq![punct("$"@)], seq![word(var.name@)]);
            lemma_emitted_then(
                s0,
                s2,
                s3,
                seq![punct("$"@)] + seq![word(var.name@)],
                seq![punct(":"@)],
            );
            assert(seq![punct("$"@)] + seq![word(var.name@)] + seq![punct(":"@)] =~= head);
            lemma_emitted_then(s0, s3, s4, head, t);
        }
        if let Some(def) = &var.default_value {
            self.write_punctuator("=");
            let ghost s5 = *self;
            self.write_value(def);
            proof {
                lemma_emitted_then(s0, s4, s5, head + t, seq![punct("="@)]);
                lemma_emitted_then(s0, s5, *self, head + t + seq![punct("="@)], value_pieces(*def));
                assert(head + t + seq![punct("="@)] + value_pieces(*def)
                    =~= variable_definition_pieces(*var));
            }
        } else {
            assert(head + t + Seq::<Piece>::empty() =~= variable_definition_pieces(*var));
        }
    }

    fn write_type(&mut self, ty: &Type)
        ensures
            emitted(*old(self), *final(self), type_pieces(*ty)),
        decreases ty,
    {
        let ghost s0 = *self;
        match ty {
            Type::NamedType(name) => self.write_non_punctuator(name.as_str()),
            Type::ListType(inner) => {
                self.write_punctuator("[");
                let ghost s1 = *self;
                self.write_type(inner);
                let ghost s2 = *self;
                self.write_punctuator("]");
                proof {
                    let i = type_pieces(**inner);
                    lemma_emitted_then(s0, s1, s2, seq![punct("["@)], i);
                    lemma_emitted_then(s0, s2, *self, seq![punct("["@)] + i, seq![punct("]"@)]);
                }
            },
            Type::NonNullType(inner) => {
                self.write_type(inner);
                let ghost s1 = *self;
                self.write_punctuator("!");
                proof {
                    lemma_emitted_then(s0, s1, *self, type_pieces(**inner), seq![punct("!"@)]);
                }
            },
        }
    }

    fn write_directives(&mut self, dirs: &Vec<Directive>)
        ensures
            emitted(*old(self), *final(self), directives_pieces(dirs@)),
    {
        let ghost start = *self;
        proof {
            lemma_emitted_nothing(start);
        }
        let mut i: usize = 0;
        while i < dirs.len()
            invariant
                i <= dirs.len(),
                emitted(start, *self, directives_pieces(dirs@.take(i as int))),
            decreases dirs.len() - i,
        {
            let dir = &dirs[i];
            let ghost s0 = *self;
            self.write_punctuator("@");
            let ghost s1 = *self;
            self.write_non_punctuator(dir.name.as_str());
            let ghost s2 = *self;
            self.write_arguments(&dir.arguments);
            proof {
                let before = directives_pieces(dirs@.take(i as int));
                let at = seq![punct("@"@)];
                let n = seq![word(dir.name@)];
                let a = arguments_pieces(dir.arguments@);
                lemma_emitted_then(s0, s1, s2, at, n);
                lemma_emitted_then(s0, s2, *self, at + n, a);
                assert(at + n + a =~= directive_pieces(*dir));
                lemma_emitted_then(start, s0, *self, before, directive_pieces(*dir));
                let t = dirs@.take(i + 1);
                assert(t.drop_last() =~= dirs@.take(i as int));
            }
            i = i + 1;
        }
        assert(dirs@.take(i as int) =~= dirs@);
    }

    fn write_arguments(&mut self, args: &Vec<(String, Value)>)
        ensures
            emitted(*old(self), *final(self), arguments_pieces(args@)),
    {
        let ghost start = *self;
        if args.len() == 0 {
            proof {
                lemma_emitted_nothing(start);
            }
            return ;
        }
        self.write_punctuator("(");
        let ghost s1 = *self;
        self.write_pairs(args);
        let ghost s2 = *self;
        self.write_punctuator(")");
        proof {
            let o = seq![punct("("@)];
            let p = pairs_pieces(args@);
            lemma_emitted_then(start, s1, s2, o, p);
            lemma_emitted_then(start, s2, *self, o + p, seq![punct(")"@)]);
        }
    }

    /// Writes each pair as `name:value`, with no separator of its own.
    fn write_pairs(&mut self, pairs: &Vec<(String, Value)>)
        ensures
            emitted(*old(self), *final(self), pairs_pieces(pairs@)),
        decreases pairs,
    {
        let ghost start = *self;
        proof {
            lemma_emitted_nothing(start);
        }
        let mut i: usize = 0;
        while i < pairs.len()
            invariant
                i <= pairs.len(),
                emitted(start, *self, pairs_pieces(pairs@.take(i as int))),
            decreases pairs.len() - i,
        {
            let ghost s0 = *self;
            let pair = &pairs[i];
            self.write_non_punctuator(pair.0.as_str());
            let ghost s1 = *self;
            self.write_punctuator(":");
            let ghost s2 = *self;
            assert(decreases_to!(pairs => pairs[i as int]));
            self.write_value(&pair.1);
            proof {
                let before = pairs_pieces(pairs@.take(i as int));
                let n = seq![word(pair.0@)];
                let c = seq![punct(":"@)];
                let v = value_pieces(pair.1);
                lemma_emitted_then(s0, s1, s2, n, c);
                assert(n + c =~= seq![word(pair.0@), punct(":"@)]);
                lemma_emitted_then(s0, s2, *self, n + c, v);
                lemma_emitted_then(start, s0, *self, before, n + c + v);
                let t = pairs@.take(i + 1);
                assert(t.drop_last() =~= pairs@.take(i as int));
                assert(before + (n + c + v) =~= pairs_pieces(t));
            }
            i = i + 1;
        }
        assert(pairs@.take(i as int) =~= pairs@);
    }

    fn write_value(&mut self, val: &Value)
        ensures
            emitted(*old(self), *final(self), value_pieces(*val)),
        decreases val,
    {
        let ghost s0 = *self;
        match val {
            Value::Variable(name) => {
                self.write_punctuator("$");
                let ghost s1 = *self;
                self.write_non_punctuator(name.as_str());
                proof {
                    lemma_emitted_then(s0, s1, *self, seq![punct("$"@)], seq![word(name@)]);
                    assert(seq![punct("$"@)] + seq![word(name@)] =~= value_pieces(*val));
                }
            },
            Value::Int(n) => {
                proof {
                    lemma_render_one(s0.last_was_non_punctuator, word(crate::text::int_text(*n as int)));
                }
                if self.last_was_non_punctuator {
                    push_char(&mut self.buf, ' ');
                }
                write_int(&mut self.buf, *n);
                self.last_was_non_punctuator = true;
                assert(self.buf@ =~= s0.buf@ + render_from(s0.last_was_non_punctuator, value_pieces(*val)));
            },
            Value::Float(text) => self.write_non_punctuator(text.as_str()),
            Value::String(s) => {
                proof {
                    lemma_render_one(s0.last_was_non_punctuator, word(crate::text::quoted(s@)));
                }
                if self.last_was_non_punctuator {
                    push_char(&mut self.buf, ' ');
                }
                write_quoted(&mut self.buf, s.as_str());
                self.last_was_non_punctuator = true;
                assert(self.buf@ =~= s0.buf@ + render_from(s0.last_was_non_punctuator, value_pieces(*val)));
            },
            Value::Boolean(b) => self.write_non_punctuator(
                if *b {
                    "true"
                } else {
                    "false"
                },
            ),
            Value::Null => self.write_non_punctuator("null"),
            Value::Enum(name) => self.write_non_punctuator(name.as_str()),
            Value::List(items) => {
                self.write_punctuator("[");
                let ghost open = seq![punct("["@)];
                let mut i: usize = 0;
                while i < items.len()
                    invariant
                        i <= items.len(),
                        *val == Value::List(*items),
                        emitted(s0, *self, open + values_pieces(items@.take(i as int))),
                    decreases items.len() - i,
                {
                    let ghost mid = *self;
                    proof {
                        assert(decreases_to!(*val => val->List_0));
                        assert(decreases_to!(val->List_0 => val->List_0[i as int]));
                    }
                    self.write_value(&items[i]);
                    proof {
                        let t = items@.take(i + 1);
                        assert(t.drop_last() =~= items@.take(i as int));
                        let before = values_pieces(items@.take(i as int));
                        let item = value_pieces(items@[i as int]);
                        lemma_emitted_then(s0, mid, *self, open + before, item);
                        assert(open + before + item =~= open + values_pieces(t));
                    }
                    i = i + 1;
                }
                let ghost mid = *self;
                self.write_punctuator("]");
                proof {
                    assert(items@.take(i as int) =~= items@);
                    let all = values_pieces(items@);
                    lemma_emitted_then(s0, mid, *self, open + all, seq![punct("]"@)]);
                }
            },
            Value::Object(fields) => {
                self.write_punctuator("{");
                let ghost s1 = *self;
                self.write_pairs(fields);
                let ghost s2 = *self;
                self.write_punctuator("}");
                proof {
                    let o = seq![punct("{"@)];
                    let p = pairs_pieces(fields@);
                    lemma_emitted_then(s0, s1, s2, o, p);
                    lemma_emitted_then(s0, s2, *self, o + p, seq![punct("}"@)]);
                }
            },
        }
    }
}

/// Minifies a document tree: the text of its pieces joined by the adjacency
/// rule.
pub fn minify_document(doc: &Document) -> (r: String)
    ensures
        r@ == render(document_pieces(*doc)),
{
    let mut minifier = Minifier::new();
    minifier.write_document(doc);
    assert(minifier.buf@ =~= render(document_pieces(*doc)));
    minifier.buf
}

} // verus!
