//! Reading minified text back: the tokens that minified text lexes to.
use vstd::prelude::*;
use crate::lexer::{
    block_end, digits_end, has_float_mark, is_digit, is_ignored, is_name_char, is_number_char, lex,
    lex_from, lex_step, name_end, number_end, number_ok, skip_from, string_end, token_at,
    triple_quote_at, Kind, Lexeme,
};
use crate::pieces::{gap, lemma_render_front, render, render_from};
use crate::query::{lexeme_piece, lexeme_pieces};

verus! {

/// `r` holds the characters `s[a..e]` shifted by `d`.
pub open spec fn same_chars(s: Seq<char>, r: Seq<char>, a: int, e: int, d: int) -> bool {
    &&& 0 <= a <= e <= s.len()
    &&& 0 <= a + d
    &&& e + d <= r.len()
    &&& forall|m: int| a <= m < e ==> #[trigger] s[m] == r[m + d]
}

proof fn lemma_name_bounds(s: Seq<char>, a: int)
    requires
        0 <= a <= s.len(),
    ensures
        a <= name_end(s, a) <= s.len(),
    decreases s.len() - a,
{
    if a < s.len() && is_name_char(s[a]) {
        lemma_name_bounds(s, a + 1);
    }
}

proof fn lemma_name_local(s: Seq<char>, r: Seq<char>, a: int, e: int, d: int)
    requires
        name_end(s, a) == e,
        same_chars(s, r, a, e, d),
        e + d == r.len() || !is_name_char(r[e + d]),
    ensures
        name_end(r, a + d) == e + d,
    decreases e - a,
{
    if a < e {
        assert(s[a] == r[a + d]);
        lemma_name_local(s, r, a + 1, e, d);
    }
}

proof fn lemma_number_bounds(s: Seq<char>, a: int, dot: bool, exp: bool, after_exp: bool)
    requires
        0 <= a <= s.len(),
    ensures
        a <= number_end(s, a, dot, exp, after_exp) <= s.len(),
    decreases s.len() - a,
{
    if a < s.len() {
        lemma_number_bounds(s, a + 1, dot, exp, false);
        lemma_number_bounds(s, a + 1, dot, true, true);
        lemma_number_bounds(s, a + 1, true, exp, false);
    }
}

proof fn lemma_number_local(
    s: Seq<char>,
    r: Seq<char>,
    a: int,
    e: int,
    d: int,
    dot: bool,
    exp: bool,
    after_exp: bool,
)
    requires
        number_end(s, a, dot, exp, after_exp) == e,
        same_chars(s, r, a, e, d),
        e + d == r.len() || !is_number_char(r[e + d]),
    ensures
        number_end(r, a + d, dot, exp, after_exp) == e + d,
    decreases e - a,
{
    if a < e {
        let c = s[a];
        assert(c == r[a + d]);
        if is_digit(c) {
            lemma_number_local(s, r, a + 1, e, d, dot, exp, false);
        } else if (c == 'e' || c == 'E') && !exp {
            lemma_number_local(s, r, a + 1, e, d, dot, true, true);
        } else if c == '.' && !dot && !exp {
            lemma_number_local(s, r, a + 1, e, d, true, exp, false);
        } else {
            lemma_number_local(s, r, a + 1, e, d, dot, exp, false);
        }
    }
}

proof fn lemma_digits_bounds(s: Seq<char>, k: int, e: int)
    requires
        0 <= k <= e,
    ensures
        k <= digits_end(s, k, e) <= e,
    decreases e - k,
{
    if k < e {
        lemma_digits_bounds(s, k + 1, e);
    }
}

/// Whether a number is well formed depends on its characters alone.
proof fn lemma_number_ok_local(s: Seq<char>, r: Seq<char>, j: int, e: int, d: int)
    requires
        0 <= j < e,
        same_chars(s, r, j, e, d),
    ensures
        number_ok(s, j, e) == number_ok(r, j + d, e + d),
{
    // the characters before `j` play no part: compare from a common origin
    let s2 = s.subrange(j, e);
    let r2 = r.subrange(j + d, e + d);
    assert(s2 =~= r2);
    lemma_number_ok_shift(s, s2, j, e);
    lemma_number_ok_shift(r, r2, j + d, e + d);
}

proof fn lemma_digits_shift(s: Seq<char>, t: Seq<char>, j: int, k: int, e: int)
    requires
        0 <= j <= k,
        j <= e <= s.len(),
        t == s.subrange(j, e),
    ensures
        digits_end(s, k, e) == digits_end(t, k - j, e - j) + j,
    decreases e - k,
{
    if k < e {
        assert(t[k - j] == s[k]);
        lemma_digits_shift(s, t, j, k + 1, e);
    }
}

proof fn lemma_number_ok_shift(s: Seq<char>, t: Seq<char>, j: int, e: int)
    requires
        0 <= j < e <= s.len(),
        t == s.subrange(j, e),
    ensures
        number_ok(s, j, e) == number_ok(t, 0, e - j),
{
    let a = if s[j] == '-' {
        j + 1
    } else {
        j
    };
    assert(t[0] == s[j]);
    lemma_digits_shift(s, t, j, a, e);
    lemma_digits_bounds(s, a, e);
    let i = digits_end(s, a, e);
    lemma_digits_shift(s, t, j, i + 1, e);
    let fraction = i < e && s[i] == '.';
    let f = if fraction {
        digits_end(s, i + 1, e)
    } else {
        i
    };
    if i < e {
        assert(t[i - j] == s[i]);
    }
    if a < e {
        assert(t[a - j] == s[a]);
    }
    if fraction {
        lemma_digits_bounds(s, i + 1, e);
    }
    if f < e {
        assert(t[f - j] == s[f]);
        if f + 1 < e {
            assert(t[f + 1 - j] == s[f + 1]);
        }
        lemma_digits_shift(s, t, j, f + 1, e);
        lemma_digits_shift(s, t, j, f + 2, e);
    }
}

proof fn lemma_float_mark_local(s: Seq<char>, r: Seq<char>, a: int, e: int, d: int)
    requires
        same_chars(s, r, a, e, d),
    ensures
        has_float_mark(s, a, e) == has_float_mark(r, a + d, e + d),
    decreases e - a,
{
    if a < e {
        assert(s[a] == r[a + d]);
        lemma_float_mark_local(s, r, a + 1, e, d);
    }
}

proof fn lemma_string_bounds(s: Seq<char>, a: int)
    requires
        0 <= a,
        string_end(s, a) is Some,
    ensures
        a < string_end(s, a)->0 <= s.len(),
    decreases s.len() - a,
{
    if s[a] == '\\' {
        lemma_string_bounds(s, a + 2);
    } else if s[a] != '"' {
        lemma_string_bounds(s, a + 1);
    }
}

proof fn lemma_string_local(s: Seq<char>, r: Seq<char>, a: int, e: int, d: int)
    requires
        string_end(s, a) == Some(e),
        same_chars(s, r, a, e, d),
    ensures
        string_end(r, a + d) == Some(e + d),
    decreases s.len() - a,
{
    lemma_string_bounds(s, a);
    assert(s[a] == r[a + d]);
    if s[a] == '\\' {
        lemma_string_bounds(s, a + 2);
        assert(s[a + 1] == r[a + 1 + d]);
        lemma_string_local(s, r, a + 2, e, d);
    } else if s[a] != '"' {
        lemma_string_local(s, r, a + 1, e, d);
    }
}

proof fn lemma_block_bounds(s: Seq<char>, a: int)
    requires
        0 <= a,
        block_end(s, a) is Some,
    ensures
        a + 3 <= block_end(s, a)->0 <= s.len(),
    decreases s.len() - a,
{
    if !triple_quote_at(s, a) {
        if s[a] == '\\' && triple_quote_at(s, a + 1) {
            lemma_block_bounds(s, a + 4);
        } else {
            lemma_block_bounds(s, a + 1);
        }
    }
}

proof fn lemma_block_local(s: Seq<char>, r: Seq<char>, a: int, e: int, d: int)
    requires
        block_end(s, a) == Some(e),
        same_chars(s, r, a, e, d),
    ensures
        block_end(r, a + d) == Some(e + d),
    decreases s.len() - a,
{
    lemma_block_bounds(s, a);
    assert(s[a] == r[a + d] && s[a + 1] == r[a + 1 + d] && s[a + 2] == r[a + 2 + d]);
    if !triple_quote_at(s, a) {
        if s[a] == '\\' && triple_quote_at(s, a + 1) {
            lemma_block_bounds(s, a + 4);
            lemma_block_local(s, r, a + 4, e, d);
        } else {
            lemma_block_bounds(s, a + 1);
            assert(s[a + 3] == r[a + 3 + d]);
            lemma_block_local(s, r, a + 1, e, d);
        }
    }
}

proof fn lemma_token_bounds(s: Seq<char>, j: int)
    requires
        0 <= j < s.len(),
        token_at(s, j) is Ok,
    ensures
        j < token_at(s, j)->Ok_0.1 <= s.len(),
{
    let c = s[j];
    if j + 1 <= s.len() {
        lemma_name_bounds(s, j + 1);
        lemma_number_bounds(s, j + 1, false, false, false);
    }
    if c == '"' {
        if triple_quote_at(s, j) {
            lemma_block_bounds(s, j + 3);
        } else {
            lemma_string_bounds(s, j + 1);
        }
    }
}

/// What may follow a token of kind `kind` that ends at `k` in `r` without
/// joining it.
pub open spec fn ends_token(kind: Kind, r: Seq<char>, k: int) -> bool {
    k == r.len() || ((kind == Kind::Name ==> !is_name_char(r[k])) && ((kind == Kind::IntValue
        || kind == Kind::FloatValue) ==> !is_number_char(r[k])) && (kind == Kind::StringValue
        ==> r[k] != '"'))
}

/// The token that starts at `j` in `s` is read the same wherever its
/// characters stand, as long as what follows does not extend it.
proof fn lemma_token_local(s: Seq<char>, r: Seq<char>, j: int, d: int)
    requires
        0 <= j < s.len(),
        token_at(s, j) is Ok,
        same_chars(s, r, j, token_at(s, j)->Ok_0.1, d),
        ends_token(token_at(s, j)->Ok_0.0, r, token_at(s, j)->Ok_0.1 + d),
    ensures
        token_at(r, j + d) == (match token_at(s, j) {
            Ok((kind, e)) => Ok::<(Kind, int), crate::lexer::LexError>((kind, e + d)),
            Err(err) => Err(err),
        }),
{
    lemma_token_bounds(s, j);
    let e = token_at(s, j)->Ok_0.1;
    let c = s[j];
    assert(c == r[j + d]);
    if c == '.' {
        assert(s[j + 1] == r[j + 1 + d] && s[j + 2] == r[j + 2 + d]);
    } else if crate::lexer::is_name_start(c) {
        lemma_name_local(s, r, j + 1, e, d);
    } else if c == '-' || crate::lexer::is_digit(c) {
        lemma_number_local(s, r, j + 1, e, d, false, false, false);
        lemma_float_mark_local(s, r, j, e, d);
        lemma_number_ok_local(s, r, j, e, d);
    } else if c == '"' {
        if triple_quote_at(s, j) {
            lemma_block_bounds(s, j + 3);
            assert(s[j + 1] == r[j + 1 + d] && s[j + 2] == r[j + 2 + d]);
            lemma_block_local(s, r, j + 3, e, d);
        } else {
            lemma_string_bounds(s, j + 1);
            if e > j + 2 {
                assert(s[j + 1] == r[j + 1 + d] && s[j + 2] == r[j + 2 + d]);
            } else {
                assert(s[j + 1] == r[j + 1 + d]);
            }
            lemma_string_local(s, r, j + 1, e, d);
        }
    }
}

proof fn lemma_skip_bounds(s: Seq<char>, j: int, in_comment: bool)
    requires
        0 <= j <= s.len(),
    ensures
        j <= skip_from(s, j, in_comment) <= s.len(),
    decreases s.len() - j,
{
    if j < s.len() {
        lemma_skip_bounds(s, j + 1, !(s[j] == '\n' || s[j] == '\r'));
        lemma_skip_bounds(s, j + 1, false);
        lemma_skip_bounds(s, j + 1, true);
    }
}

/// A token read on its own: its text is exactly one token of its kind.
pub open spec fn standalone(t: Lexeme) -> bool {
    t.text.len() > 0 && token_at(t.text, 0) == Ok::<(Kind, int), crate::lexer::LexError>(
        (t.kind, t.text.len() as int),
    )
}

proof fn lemma_lexemes_standalone(s: Seq<char>, i: int)
    requires
        0 <= i <= s.len(),
        lex_from(s, i) is Ok,
    ensures
        forall|k: int|
            0 <= k < lex_from(s, i)->Ok_0.len() ==> standalone(#[trigger] lex_from(s, i)->Ok_0[k]),
    decreases s.len() - i,
{
    let j = skip_from(s, i, false);
    lemma_skip_bounds(s, i, false);
    if j < s.len() {
        lemma_token_bounds(s, j);
        let (kind, e) = token_at(s, j)->Ok_0;
        let text = s.subrange(j, e);
        lemma_token_local(s, text, j, -j);
        lemma_lexemes_standalone(s, e);
        let rest = lex_from(s, e)->Ok_0;
        let t = Lexeme { kind, text };
        assert(lex_from(s, i)->Ok_0 == seq![t] + rest);
        assert forall|k: int| 0 <= k < lex_from(s, i)->Ok_0.len() implies standalone(
            #[trigger] lex_from(s, i)->Ok_0[k],
        ) by {
            if k > 0 {
                assert(lex_from(s, i)->Ok_0[k] == rest[k - 1]);
            }
        }
    }
}

pub open spec fn is_number(kind: Kind) -> bool {
    kind == Kind::IntValue || kind == Kind::FloatValue
}

/// No number token is directly followed by a `...` token.
pub open spec fn no_spread_after_number(ts: Seq<Lexeme>) -> bool {
    forall|k: int|
        #![trigger ts[k]]
        0 <= k < ts.len() - 1 && is_number(ts[k].kind) ==> ts[k + 1].text != seq!['.', '.', '.']
}

/// A character that may follow a token of kind `kind` without joining it.
pub open spec fn may_follow(kind: Kind, c: char) -> bool {
    &&& kind == Kind::Name ==> !is_name_char(c)
    &&& is_number(kind) ==> !is_number_char(c)
    &&& kind == Kind::StringValue ==> c != '"'
}

/// Between two tokens of minified text stands what may follow the first.
proof fn lemma_follower(t0: Lexeme, t1: Lexeme)
    requires
        standalone(t0),
        standalone(t1),
        is_number(t0.kind) ==> t1.text != seq!['.', '.', '.'],
    ensures
        may_follow(
            t0.kind,
            (gap(lexeme_piece(t0).word, lexeme_piece(t1)) + t1.text)[0],
        ),
{
    let g = gap(lexeme_piece(t0).word, lexeme_piece(t1));
    if g.len() == 0 {
        assert((g + t1.text)[0] == t1.text[0]);
        if t1.text[0] == '.' && is_number(t0.kind) {
            assert(t1.text =~= seq!['.', '.', '.']);
        }
    } else {
        assert((g + t1.text)[0] == ' ');
    }
}

/// Where minified text resumes after a gap of at most one space: at the
/// next token.
proof fn lemma_skip_gap(r: Seq<char>, a: int, g: Seq<char>, t: Lexeme)
    requires
        0 <= a,
        a + g.len() < r.len(),
        g.len() == 0 || g == seq![' '],
        forall|m: int| 0 <= m < g.len() ==> #[trigger] r[a + m] == g[m],
        standalone(t),
        r[a + g.len()] == t.text[0],
    ensures
        skip_from(r, a, false) == a + g.len(),
{
    lemma_token_start(t.text, 0);
    let k = a + g.len();
    assert(!is_ignored(r[k]) && r[k] != '#');
    assert(skip_from(r, k, false) == k);
    if g.len() > 0 {
        assert(r[a + 0] == g[0]);
        assert(is_ignored(r[a]));
        assert(skip_from(r, a, false) == skip_from(r, a + 1, false));
    }
}

proof fn lemma_token_start(s: Seq<char>, j: int)
    requires
        0 <= j < s.len(),
        token_at(s, j) is Ok,
    ensures
        !is_ignored(s[j]),
        s[j] != '#',
{
}

proof fn lemma_lex_head(r: Seq<char>, a: int, j: int, t: Lexeme, rest: Seq<Lexeme>)
    requires
        0 <= a <= j,
        j < r.len(),
        skip_from(r, a, false) == j,
        token_at(r, j) == Ok::<(Kind, int), crate::lexer::LexError>((t.kind, j + t.text.len())),
        j + t.text.len() <= r.len(),
        t.text.len() > 0,
        r.subrange(j, j + t.text.len()) == t.text,
        lex_from(r, j + t.text.len()) == Ok::<Seq<Lexeme>, crate::lexer::LexError>(rest),
    ensures
        lex_from(r, a) == Ok::<Seq<Lexeme>, crate::lexer::LexError>(seq![t] + rest),
{
    assert(lex_step(r, a) == Ok::<Option<(Lexeme, int)>, crate::lexer::LexError>(
        Some((t, j + t.text.len())),
    ));
}

proof fn lemma_rest_conditions(ts: Seq<Lexeme>)
    requires
        ts.len() > 0,
        forall|k: int| 0 <= k < ts.len() ==> standalone(#[trigger] ts[k]),
        no_spread_after_number(ts),
    ensures
        forall|k: int| 0 <= k < ts.skip(1).len() ==> standalone(#[trigger] ts.skip(1)[k]),
        no_spread_after_number(ts.skip(1)),
{
    let rest = ts.skip(1);
    assert forall|k: int| 0 <= k < rest.len() implies standalone(#[trigger] rest[k]) by {
        assert(rest[k] == ts[k + 1]);
    }
    assert forall|k: int|
        #![trigger rest[k]]
        0 <= k < rest.len() - 1 && is_number(rest[k].kind) implies rest[k + 1].text != seq![
            '.',
            '.',
            '.',
        ] by {
        assert(rest[k] == ts[k + 1]);
        assert(rest[k + 1] == ts[k + 2]);
    }
}

proof fn lemma_pieces_front(ts: Seq<Lexeme>)
    requires
        ts.len() > 0,
    ensures
        lexeme_pieces(ts)[0] == lexeme_piece(ts[0]),
        lexeme_pieces(ts).skip(1) == lexeme_pieces(ts.skip(1)),
        lexeme_pieces(ts).len() == ts.len(),
{
    assert(lexeme_pieces(ts).skip(1) =~= lexeme_pieces(ts.skip(1)));
}

/// The text after a token of minified text starts with what may follow it.
proof fn lemma_tail_follows(t0: Lexeme, rest: Seq<Lexeme>)
    requires
        standalone(t0),
        forall|k: int| 0 <= k < rest.len() ==> standalone(#[trigger] rest[k]),
        rest.len() > 0 && is_number(t0.kind) ==> rest[0].text != seq!['.', '.', '.'],
    ensures
        ({
            let tail = render_from(lexeme_piece(t0).word, lexeme_pieces(rest));
            tail.len() == 0 || may_follow(t0.kind, tail[0])
        }),
{
    let w = lexeme_piece(t0).word;
    let tail = render_from(w, lexeme_pieces(rest));
    if rest.len() == 0 {
        assert(lexeme_pieces(rest).len() == 0);
    } else {
        let t1 = rest[0];
        lemma_pieces_front(rest);
        lemma_render_front(w, lexeme_pieces(rest));
        assert(standalone(t1));
        lemma_follower(t0, t1);
        let head = gap(w, lexeme_piece(t1)) + t1.text;
        assert(tail[0] == head[0]);
    }
}

/// Lexing minified text at a gap before a token gives that token, then
/// whatever the text after it lexes to.
proof fn lemma_step(x: Seq<char>, g: Seq<char>, t0: Lexeme, tail: Seq<char>, rest: Seq<Lexeme>)
    requires
        g.len() == 0 || g == seq![' '],
        standalone(t0),
        tail.len() == 0 || may_follow(t0.kind, tail[0]),
        lex_from(x + g + t0.text + tail, (x + g + t0.text).len() as int) == Ok::<
            Seq<Lexeme>,
            crate::lexer::LexError,
        >(rest),
    ensures
        lex_from(x + g + t0.text + tail, x.len() as int) == Ok::<
            Seq<Lexeme>,
            crate::lexer::LexError,
        >(seq![t0] + rest),
{
    let r = x + g + t0.text + tail;
    let j = (x.len() + g.len()) as int;
    let len0 = t0.text.len() as int;
    assert forall|m: int| 0 <= m < g.len() implies #[trigger] r[x.len() + m] == g[m] by {}
    assert forall|m: int| 0 <= m < len0 implies #[trigger] t0.text[m] == r[m + j] by {}
    assert(r[j] == t0.text[0]);
    lemma_skip_gap(r, x.len() as int, g, t0);
    if tail.len() > 0 {
        assert(r[j + len0] == tail[0]);
    }
    assert(ends_token(t0.kind, r, j + len0));
    lemma_token_local(t0.text, r, 0, j);
    assert(r.subrange(j, j + len0) =~= t0.text);
    lemma_lex_head(r, x.len() as int, j, t0, rest);
}

proof fn lemma_assoc(x: Seq<char>, g: Seq<char>, t: Seq<char>, tail: Seq<char>)
    ensures
        x + (g + t + tail) == x + g + t + tail,
{
    assert(x + (g + t + tail) =~= x + g + t + tail);
}

proof fn lemma_cons_skip(ts: Seq<Lexeme>)
    requires
        ts.len() > 0,
    ensures
        seq![ts[0]] + ts.skip(1) == ts,
{
    assert(seq![ts[0]] + ts.skip(1) =~= ts);
}

#[verifier::spinoff_prover]
proof fn lemma_relex(ts: Seq<Lexeme>, b: bool, x: Seq<char>)
    requires
        forall|k: int| 0 <= k < ts.len() ==> standalone(#[trigger] ts[k]),
        no_spread_after_number(ts),
    ensures
        lex_from(x + render_from(b, lexeme_pieces(ts)), x.len() as int) == Ok::<
            Seq<Lexeme>,
            crate::lexer::LexError,
        >(ts),
    decreases ts.len(),
{
    if ts.len() == 0 {
        assert(lexeme_pieces(ts).len() == 0);
        assert(x + render_from(b, lexeme_pieces(ts)) =~= x);
        assert(ts =~= seq![]);
    } else {
        let t0 = ts[0];
        let rest = ts.skip(1);
        let first = lexeme_piece(t0);
        lemma_rest_conditions(ts);
        lemma_pieces_front(ts);
        lemma_render_front(b, lexeme_pieces(ts));
        let g = gap(b, first);
        let tail = render_from(first.word, lexeme_pieces(rest));
        let x2 = x + g + t0.text;
        lemma_relex(rest, first.word, x2);
        assert(standalone(t0));
        if rest.len() > 0 {
            assert(rest[0] == ts[1]);
        }
        lemma_tail_follows(t0, rest);
        lemma_step(x, g, t0, tail, rest);
        lemma_assoc(x, g, t0.text, tail);
        lemma_cons_skip(ts);
    }
}

/// Minified text reads back as exactly the tokens it was made of, so
/// minifying it again gives it unchanged. The one exception is a number
/// directly followed by `...`, which minified text would join into one
/// token.
pub proof fn lemma_minify_idempotent(s: Seq<char>)
    requires
        lex(s) is Ok,
        no_spread_after_number(lex(s)->Ok_0),
    ensures
        lex(render(lexeme_pieces(lex(s)->Ok_0))) == lex(s),
        render(lexeme_pieces(lex(render(lexeme_pieces(lex(s)->Ok_0)))->Ok_0)) == render(
            lexeme_pieces(lex(s)->Ok_0),
        ),
{
    let ts = lex(s)->Ok_0;
    lemma_lexemes_standalone(s, 0);
    lemma_relex(ts, false, seq![]);
    assert(seq![] + render(lexeme_pieces(ts)) =~= render(lexeme_pieces(ts)));
}

} // verus!
