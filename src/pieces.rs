//! The shared model of minified output: a sequence of pieces, each either
//! word-like or a punctuator, joined by the adjacency rule.
use vstd::prelude::*;

verus! {

/// One emitted fragment of output text.
pub struct Piece {
    pub word: bool,
    pub text: Seq<char>,
}

pub open spec fn word(text: Seq<char>) -> Piece {
    Piece { word: true, text }
}

pub open spec fn punct(text: Seq<char>) -> Piece {
    Piece { word: false, text }
}

/// Whether the last piece emitted was word-like, starting from `prev`.
pub open spec fn last_word(prev: bool, ps: Seq<Piece>) -> bool {
    if ps.len() == 0 {
        prev
    } else {
        ps.last().word
    }
}

/// The separator placed before `p`: one space exactly when both `p` and the
/// piece before it are word-like.
pub open spec fn gap(prev: bool, p: Piece) -> Seq<char> {
    if prev && p.word {
        seq![' ']
    } else {
        seq![]
    }
}

/// The text of `ps` joined by the adjacency rule, after output whose last
/// piece was word-like exactly when `prev` holds.
pub open spec fn render_from(prev: bool, ps: Seq<Piece>) -> Seq<char>
    decreases ps.len(),
{
    if ps.len() == 0 {
        seq![]
    } else {
        let init = ps.drop_last();
        render_from(prev, init) + gap(last_word(prev, init), ps.last()) + ps.last().text
    }
}

/// The text of `ps` joined by the adjacency rule.
pub open spec fn render(ps: Seq<Piece>) -> Seq<char> {
    render_from(false, ps)
}

pub proof fn lemma_last_word_concat(prev: bool, a: Seq<Piece>, b: Seq<Piece>)
    ensures
        last_word(prev, a + b) == last_word(last_word(prev, a), b),
{
    if b.len() > 0 {
        assert((a + b).last() == b.last());
    } else {
        assert(a + b =~= a);
    }
}

/// Rendering distributes over concatenation, carrying the word-like state.
pub proof fn lemma_render_concat(prev: bool, a: Seq<Piece>, b: Seq<Piece>)
    ensures
        render_from(prev, a + b) == render_from(prev, a) + render_from(last_word(prev, a), b),
    decreases b.len(),
{
    if b.len() == 0 {
        assert(a + b =~= a);
        assert(render_from(prev, a) + render_from(last_word(prev, a), b) =~= render_from(prev, a));
    } else {
        let ab = a + b;
        let bi = b.drop_last();
        assert(ab.drop_last() =~= a + bi);
        assert(ab.last() == b.last());
        lemma_render_concat(prev, a, bi);
        lemma_last_word_concat(prev, a, bi);
        let l = last_word(prev, a);
        assert(render_from(l, b) == render_from(l, bi) + gap(last_word(l, bi), b.last())
            + b.last().text);
        assert(render_from(prev, ab) =~= render_from(prev, a) + render_from(l, b));
    }
}

pub proof fn lemma_render_one(prev: bool, p: Piece)
    ensures
        render_from(prev, seq![p]) == gap(prev, p) + p.text,
{
    assert(seq![p].drop_last() =~= Seq::<Piece>::empty());
    assert(render_from(prev, Seq::<Piece>::empty()) + gap(prev, p) + p.text =~= gap(prev, p)
        + p.text);
}

/// Rendering from the front: the first piece, then the rest.
pub proof fn lemma_render_front(prev: bool, ps: Seq<Piece>)
    requires
        ps.len() > 0,
    ensures
        render_from(prev, ps) == gap(prev, ps[0]) + ps[0].text + render_from(ps[0].word, ps.skip(1)),
{
    let first = seq![ps[0]];
    assert(first + ps.skip(1) =~= ps);
    lemma_render_concat(prev, first, ps.skip(1));
    lemma_render_one(prev, ps[0]);
}

/// Fragment by fragment, a fragment is preceded by exactly one space when it
/// and the fragment before it are both word-like, and by nothing otherwise;
/// the first fragment is preceded by nothing.
pub proof fn lemma_adjacency(ps: Seq<Piece>, i: int)
    requires
        0 <= i < ps.len(),
    ensures
        i == 0 ==> render(ps.take(1)) == ps[0].text,
        i > 0 ==> render(ps.take(i + 1)) == render(ps.take(i)) + (if ps[i - 1].word
            && ps[i].word {
            seq![' ']
        } else {
            seq![]
        }) + ps[i].text,
{
    let t = ps.take(i + 1);
    assert(t.drop_last() =~= ps.take(i));
    assert(t.last() == ps[i]);
    if i == 0 {
        assert(render_from(false, t.drop_last()) =~= seq![]);
        assert(render(t) =~= ps[0].text);
    } else {
        assert(ps.take(i).last() == ps[i - 1]);
    }
}

} // verus!
