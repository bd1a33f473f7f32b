//! The token-stream minifier: re-tokenizes source text and joins the tokens'
//! exact text by the adjacency rule, without building a tree.
use vstd::prelude::*;
use crate::lexer::{lex, lex_from, Kind, LexError, Lexeme, TokenStream};
use crate::pieces::{gap, last_word, render, render_from, Piece};
use crate::text::push_char;

verus! {

broadcast use vstd::string::group_string_axioms;

/// Error minifying a query: the tokenizer's description of what it could
/// not read.
#[derive(Debug)]
pub struct MinifyError(pub String);

impl MinifyError {
    /// The error's display text.
    pub fn to_string(&self) -> (r: String)
        ensures
            r@ == "query minify error: "@ + self.0@,
    {
        let mut r = String::from_str("query minify error: ");
        r.append(self.0.as_str());
        r
    }
}

/// What `Debug` formatting writes for a character.
pub uninterp spec fn char_debug(c: char) -> Seq<char>;

/// Relies on `char`'s `Debug` formatting, which depends on the character
/// alone: it is quoted in single quotes and escaped.
#[verifier::external_body]
fn debug_char(c: char) -> (r: String)
    ensures
        r@ == char_debug(c),
{
    format!("{:?}", c)
}

/// Relies on combine's `easy::Error::Unexpected` with an owned message,
/// whose `Display` writes "Unexpected " and then the message.
#[verifier::external_body]
fn unexpected_text(msg: &str) -> (r: String)
    ensures
        r@ == "Unexpected "@ + msg@,
{
    combine::easy::Error::<char, String>::Unexpected(combine::easy::Info::Owned(msg.to_string())).to_string()
}

/// The tokenizer's description of a lexical error.
pub open spec fn lex_error_text(e: LexError) -> Seq<char> {
    match e {
        LexError::UnexpectedChar(c) => "unexpected character "@ + char_debug(c),
        LexError::UnsupportedInt => "unsupported integer"@,
        LexError::UnsupportedFloat => "unsupported float"@,
        LexError::BareDot => "bare dot '.' is not supported, only \"...\""@,
        LexError::UnterminatedString => "unterminated string value"@,
        LexError::UnterminatedBlockString => "unterminated block string value"@,
    }
}

/// The message that a lexical error is reported with.
pub open spec fn error_message(e: LexError) -> Seq<char> {
    "Unexpected "@ + lex_error_text(e)
}

pub fn lex_error_message(e: LexError) -> (r: String)
    ensures
        r@ == error_message(e),
{
    let text = match e {
        LexError::UnexpectedChar(c) => {
            let mut t = String::from_str("unexpected character ");
            let d = debug_char(c);
            t.append(d.as_str());
            t
        },
        LexError::UnsupportedInt => String::from_str("unsupported integer"),
        LexError::UnsupportedFloat => String::from_str("unsupported float"),
        LexError::BareDot => String::from_str("bare dot '.' is not supported, only \"...\""),
        LexError::UnterminatedString => String::from_str("unterminated string value"),
        LexError::UnterminatedBlockString => String::from_str("unterminated block string value"),
    };
    unexpected_text(text.as_str())
}

/// A token as a piece of output: word-like unless it is a punctuator.
pub open spec fn lexeme_piece(t: Lexeme) -> Piece {
    Piece { word: t.kind != Kind::Punctuator, text: t.text }
}

pub open spec fn lexeme_pieces(ts: Seq<Lexeme>) -> Seq<Piece> {
    ts.map_values(|t: Lexeme| lexeme_piece(t))
}

/// `done` followed by whatever `rest` holds, or the error of `rest`.
pub open spec fn after(done: Seq<Lexeme>, rest: Result<Seq<Lexeme>, LexError>) -> Result<
    Seq<Lexeme>,
    LexError,
> {
    match rest {
        Ok(ts) => Ok(done + ts),
        Err(e) => Err(e),
    }
}

/// Minifies source text: on success, the tokens' text joined by the
/// adjacency rule; on a lexical error, that error's message.
pub fn minify_query(source: &str) -> (r: Result<String, MinifyError>)
    ensures
        match lex(source@) {
            Ok(tokens) => r matches Ok(s) && s@ == render(lexeme_pieces(tokens)),
            Err(e) => r matches Err(err) && err.0@ == error_message(e),
        },
{
    let mut stream = TokenStream::new(source);
    let mut out = String::new();
    let mut prev_was_non_punctuator = false;
    let ghost mut done: Seq<Lexeme> = seq![];
    assert(after(done, lex_from(source@, 0)) =~= lex_from(source@, 0)) by {
        match lex_from(source@, 0) {
            Ok(ts) => assert(done + ts =~= ts),
            Err(_) => {},
        }
    }
    assert(out@ =~= render(lexeme_pieces(done)));
    loop
        invariant
            stream.wf(),
            stream.source() == source@,
            0 <= stream.offset() <= source@.len(),
            lex(source@) == after(done, lex_from(source@, stream.offset())),
            out@ == render(lexeme_pieces(done)),
            prev_was_non_punctuator == last_word(false, lexeme_pieces(done)),
        decreases source@.len() - stream.offset(),
    {
        let ghost off = stream.offset();
        match stream.next_token() {
            Ok(Some(token)) => {
                let is_non_punctuator = token.kind != Kind::Punctuator;
                let ghost before = out@;
                if prev_was_non_punctuator && is_non_punctuator {
                    push_char(&mut out, ' ');
                }
                out.append(token.value.as_str());
                prev_was_non_punctuator = is_non_punctuator;
                proof {
                    let t = token@;
                    let e = stream.offset();
                    let ps = lexeme_pieces(done);
                    let ps2 = lexeme_pieces(done.push(t));
                    assert(ps2.drop_last() =~= ps);
                    assert(ps2.last() == lexeme_piece(t));
                    assert(out@ =~= render_from(false, ps) + gap(last_word(false, ps), lexeme_piece(t))
                        + t.text);
                    assert(lex_from(source@, off) == after(seq![t], lex_from(source@, e)));
                    match lex_from(source@, e) {
                        Ok(rest) => {
                            assert(done + (seq![t] + rest) =~= done.push(t) + rest);
                        },
                        Err(_) => {},
                    }
                    done = done.push(t);
                }
            },
            Ok(None) => {
                proof {
                    assert(done + seq![] =~= done);
                }
                return Ok(out);
            },
            Err(e) => {
                let message = lex_error_message(e);
                return Err(MinifyError(message));
            },
        }
    }
}

} // verus!
