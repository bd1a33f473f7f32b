//! The tokenizer that feeds the token-stream minifier: it splits source text
//! into punctuators, names, numbers and string literals, and drops whitespace,
//! commas and comments.
use vstd::prelude::*;
use crate::text::{chars_of, push_char};

verus! {

#[derive(Clone, Copy, Debug, PartialEq, Eq, Structural)]
pub enum Kind {
    Punctuator,
    Name,
    IntValue,
    FloatValue,
    StringValue,
    BlockString,
}

/// A classified token and its exact source text.
#[derive(Debug, PartialEq)]
pub struct Token {
    pub kind: Kind,
    pub value: String,
}

#[derive(Clone, Copy, Debug, PartialEq, Eq, Structural)]
pub enum LexError {
    /// A character that starts no token.
    UnexpectedChar(char),
    /// A malformed integer.
    UnsupportedInt,
    /// A malformed float.
    UnsupportedFloat,
    /// A `.` that is not part of `...`.
    BareDot,
    /// A quoted string with no closing quote on its line.
    UnterminatedString,
    /// A block string with no closing `"""`.
    UnterminatedBlockString,
}

/// Characters that separate tokens and mean nothing: white space, line
/// breaks, commas and the byte order mark.
pub open spec fn is_ignored(c: char) -> bool {
    c == '\u{feff}' || c == '\t' || c == ' ' || c == '\r' || c == '\n' || c == ','
}

pub open spec fn is_single_punct(c: char) -> bool {
    c == '!' || c == '$' || c == '(' || c == ')' || c == ':' || c == '=' || c == '@' || c == '['
        || c == ']' || c == '{' || c == '}' || c == '|' || c == '&'
}

pub open spec fn is_name_start(c: char) -> bool {
    c == '_' || ('a' <= c && c <= 'z') || ('A' <= c && c <= 'Z')
}

pub open spec fn is_digit(c: char) -> bool {
    '0' <= c && c <= '9'
}

pub open spec fn is_name_char(c: char) -> bool {
    is_name_start(c) || is_digit(c)
}

pub open spec fn is_number_char(c: char) -> bool {
    is_digit(c) || c == '.' || c == 'e' || c == 'E' || c == '+' || c == '-'
}

/// Where the next token can start at or after `j`: ignored characters are
/// skipped, and so is a comment from `#` to the end of its line.
pub open spec fn skip_from(cs: Seq<char>, j: int, in_comment: bool) -> int
    decreases cs.len() - j,
{
    if j < 0 || j >= cs.len() {
        j
    } else if in_comment {
        skip_from(cs, j + 1, !(cs[j] == '\n' || cs[j] == '\r'))
    } else if is_ignored(cs[j]) {
        skip_from(cs, j + 1, false)
    } else if cs[j] == '#' {
        skip_from(cs, j + 1, true)
    } else {
        j
    }
}

/// The end of the run of name characters from `j`.
pub open spec fn name_end(cs: Seq<char>, j: int) -> int
    decreases cs.len() - j,
{
    if j < 0 || j >= cs.len() || !is_name_char(cs[j]) {
        j
    } else {
        name_end(cs, j + 1)
    }
}

/// The end of a number's characters from `k`: digits, one `.` before any
/// exponent mark, one exponent mark, and a sign right after that mark.
pub open spec fn number_end(cs: Seq<char>, k: int, dot: bool, exp: bool, after_exp: bool) -> int
    decreases cs.len() - k,
{
    if k < 0 || k >= cs.len() {
        k
    } else {
        let c = cs[k];
        if is_digit(c) {
            number_end(cs, k + 1, dot, exp, false)
        } else if (c == 'e' || c == 'E') && !exp {
            number_end(cs, k + 1, dot, true, true)
        } else if c == '.' && !dot && !exp {
            number_end(cs, k + 1, true, exp, false)
        } else if (c == '+' || c == '-') && after_exp {
            number_end(cs, k + 1, dot, exp, false)
        } else {
            k
        }
    }
}

/// The end of the run of digits from `k`, before `e`.
pub open spec fn digits_end(cs: Seq<char>, k: int, e: int) -> int
    decreases e - k,
{
    if k < 0 || k >= e || !is_digit(cs[k]) {
        k
    } else {
        digits_end(cs, k + 1, e)
    }
}

/// `cs[f..e]` is empty or an exponent: a mark, an optional sign, digits.
pub open spec fn exponent_ok(cs: Seq<char>, f: int, e: int) -> bool {
    if f >= e {
        true
    } else {
        let m = if f + 1 < e && (cs[f + 1] == '+' || cs[f + 1] == '-') {
            f + 2
        } else {
            f + 1
        };
        (cs[f] == 'e' || cs[f] == 'E') && m < digits_end(cs, m, e) && digits_end(cs, m, e) == e
    }
}

/// `cs[j..e]` is a well-formed number: an optional minus, an integer part
/// without leading zeros, an optional fraction, an optional exponent.
pub open spec fn number_ok(cs: Seq<char>, j: int, e: int) -> bool {
    let a = if cs[j] == '-' {
        j + 1
    } else {
        j
    };
    let i = digits_end(cs, a, e);
    let fraction = i < e && cs[i] == '.';
    let f = if fraction {
        digits_end(cs, i + 1, e)
    } else {
        i
    };
    &&& a < i
    &&& (cs[a] == '0' ==> i == a + 1)
    &&& (fraction ==> i + 1 < f)
    &&& exponent_ok(cs, f, e)
}

/// Whether a number in `cs[j..e]` has a fraction or an exponent.
pub open spec fn has_float_mark(cs: Seq<char>, j: int, e: int) -> bool
    decreases e - j,
{
    if j < 0 || j >= e {
        false
    } else {
        cs[j] == '.' || cs[j] == 'e' || cs[j] == 'E' || has_float_mark(cs, j + 1, e)
    }
}

/// The end of a quoted string whose body starts at `j`: just past the closing
/// quote, or `None` when the line or the input ends first.
pub open spec fn string_end(cs: Seq<char>, j: int) -> Option<int>
    decreases cs.len() - j,
{
    if j < 0 || j >= cs.len() {
        None
    } else if cs[j] == '"' {
        Some(j + 1)
    } else if cs[j] == '\\' {
        if j + 1 < cs.len() {
            string_end(cs, j + 2)
        } else {
            None
        }
    } else if cs[j] == '\n' || cs[j] == '\r' {
        None
    } else {
        string_end(cs, j + 1)
    }
}

pub open spec fn triple_quote_at(cs: Seq<char>, j: int) -> bool {
    0 <= j && j + 2 < cs.len() && cs[j] == '"' && cs[j + 1] == '"' && cs[j + 2] == '"'
}

/// The end of a block string whose body starts at `j`: just past the closing
/// `"""`, where `\"""` stands for three quotes; `None` when the input ends
/// first.
pub open spec fn block_end(cs: Seq<char>, j: int) -> Option<int>
    decreases cs.len() - j,
{
    if j < 0 || j >= cs.len() {
        None
    } else if triple_quote_at(cs, j) {
        Some(j + 3)
    } else if cs[j] == '\\' && triple_quote_at(cs, j + 1) {
        block_end(cs, j + 4)
    } else {
        block_end(cs, j + 1)
    }
}

/// The kind and end of the token that starts at `j`.
pub open spec fn token_at(cs: Seq<char>, j: int) -> Result<(Kind, int), LexError>
    recommends
        0 <= j < cs.len(),
{
    let c = cs[j];
    if is_single_punct(c) {
        Ok((Kind::Punctuator, j + 1))
    } else if c == '.' {
        if j + 2 < cs.len() && cs[j + 1] == '.' && cs[j + 2] == '.' {
            Ok((Kind::Punctuator, j + 3))
        } else {
            Err(LexError::BareDot)
        }
    } else if is_name_start(c) {
        Ok((Kind::Name, name_end(cs, j + 1)))
    } else if c == '-' || is_digit(c) {
        let e = number_end(cs, j + 1, false, false, false);
        let float = has_float_mark(cs, j, e);
        if number_ok(cs, j, e) {
            Ok((
                if float {
                    Kind::FloatValue
                } else {
                    Kind::IntValue
                },
                e,
            ))
        } else if float {
            Err(LexError::UnsupportedFloat)
        } else {
            Err(LexError::UnsupportedInt)
        }
    } else if c == '"' {
        if triple_quote_at(cs, j) {
            match block_end(cs, j + 3) {
                Some(e) => Ok((Kind::BlockString, e)),
                None => Err(LexError::UnterminatedBlockString),
            }
        } else {
            match string_end(cs, j + 1) {
                Some(e) => Ok((Kind::StringValue, e)),
                None => Err(LexError::UnterminatedString),
            }
        }
    } else {
        Err(LexError::UnexpectedChar(c))
    }
}

/// A token as text: its kind and its exact source characters.
pub struct Lexeme {
    pub kind: Kind,
    pub text: Seq<char>,
}

/// One step of the tokenizer from offset `i`: the next token and where it
/// ends, `None` at the end of input, or the error.
pub open spec fn lex_step(cs: Seq<char>, i: int) -> Result<Option<(Lexeme, int)>, LexError> {
    let j = skip_from(cs, i, false);
    if j >= cs.len() {
        Ok(None)
    } else {
        match token_at(cs, j) {
            Ok((kind, e)) => Ok(Some((Lexeme { kind, text: cs.subrange(j, e) }, e))),
            Err(err) => Err(err),
        }
    }
}

/// All tokens from offset `i` to the end of input, or the first error.
pub open spec fn lex_from(cs: Seq<char>, i: int) -> Result<Seq<Lexeme>, LexError>
    decreases cs.len() - i,
{
    match lex_step(cs, i) {
        Err(err) => Err(err),
        Ok(None) => Ok(seq![]),
        Ok(Some((t, e))) => if i < e <= cs.len() {
            match lex_from(cs, e) {
                Ok(rest) => Ok(seq![t] + rest),
                Err(err) => Err(err),
            }
        } else {
            // not reached: a token always ends past where it starts
            Ok(seq![])
        },
    }
}

/// All tokens of a source text, or the first error.
pub open spec fn lex(cs: Seq<char>) -> Result<Seq<Lexeme>, LexError> {
    lex_from(cs, 0)
}

impl View for Token {
    type V = Lexeme;

    open spec fn view(&self) -> Lexeme {
        Lexeme { kind: self.kind, text: self.value@ }
    }
}

fn skip_ignored(cs: &Vec<char>, i: usize) -> (r: usize)
    requires
        i <= cs.len(),
    ensures
        r == skip_from(cs@, i as int, false),
        i <= r <= cs.len(),
{
    let mut j = i;
    let mut in_comment = false;
    while j < cs.len()
        invariant
            i <= j <= cs.len(),
            skip_from(cs@, j as int, in_comment) == skip_from(cs@, i as int, false),
        decreases cs.len() - j,
    {
        let c = cs[j];
        if in_comment {
            in_comment = !(c == '\n' || c == '\r');
        } else if c == '\u{feff}' || c == '\t' || c == ' ' || c == '\r' || c == '\n' || c == ',' {
        } else if c == '#' {
            in_comment = true;
        } else {
            return j;
        }
        j = j + 1;
    }
    j
}

fn scan_name(cs: &Vec<char>, j: usize) -> (r: usize)
    requires
        j <= cs.len(),
    ensures
        r == name_end(cs@, j as int),
        j <= r <= cs.len(),
{
    let mut k = j;
    while k < cs.len()
        invariant
            j <= k <= cs.len(),
            name_end(cs@, k as int) == name_end(cs@, j as int),
        decreases cs.len() - k,
    {
        let c = cs[k];
        if !(c == '_' || ('a' <= c && c <= 'z') || ('A' <= c && c <= 'Z') || ('0' <= c && c
            <= '9')) {
            return k;
        }
        k = k + 1;
    }
    k
}

fn scan_number(cs: &Vec<char>, j: usize) -> (r: usize)
    requires
        j <= cs.len(),
    ensures
        r == number_end(cs@, j as int, false, false, false),
        j <= r <= cs.len(),
{
    let mut k = j;
    let mut dot = false;
    let mut exp = false;
    let mut after_exp = false;
    while k < cs.len()
        invariant
            j <= k <= cs.len(),
            number_end(cs@, k as int, dot, exp, after_exp) == number_end(
                cs@,
                j as int,
                false,
                false,
                false,
            ),
        decreases cs.len() - k,
    {
        let c = cs[k];
        if '0' <= c && c <= '9' {
            after_exp = false;
        } else if (c == 'e' || c == 'E') && !exp {
            exp = true;
            after_exp = true;
        } else if c == '.' && !dot && !exp {
            dot = true;
            after_exp = false;
        } else if (c == '+' || c == '-') && after_exp {
            after_exp = false;
        } else {
            return k;
        }
        k = k + 1;
    }
    k
}

fn scan_digits(cs: &Vec<char>, k: usize, e: usize) -> (r: usize)
    requires
        k <= e <= cs.len(),
    ensures
        r == digits_end(cs@, k as int, e as int),
        k <= r <= e,
{
    let mut i = k;
    while i < e
        invariant
            k <= i <= e <= cs.len(),
            digits_end(cs@, i as int, e as int) == digits_end(cs@, k as int, e as int),
        decreases e - i,
    {
        if !('0' <= cs[i] && cs[i] <= '9') {
            return i;
        }
        i = i + 1;
    }
    i
}

fn check_number(cs: &Vec<char>, j: usize, e: usize) -> (r: bool)
    requires
        j < e <= cs.len(),
    ensures
        r == number_ok(cs@, j as int, e as int),
{
    let a = if cs[j] == '-' {
        j + 1
    } else {
        j
    };
    let i = scan_digits(cs, a, e);
    if i == a || (cs[a] == '0' && i != a + 1) {
        return false;
    }
    let fraction = i < e && cs[i] == '.';
    let f = if fraction {
        scan_digits(cs, i + 1, e)
    } else {
        i
    };
    if fraction && f <= i + 1 {
        return false;
    }
    if f >= e {
        return true;
    }
    let m = if f + 1 < e && (cs[f + 1] == '+' || cs[f + 1] == '-') {
        f + 2
    } else {
        f + 1
    };
    let x = scan_digits(cs, m, e);
    (cs[f] == 'e' || cs[f] == 'E') && m < x && x == e
}

fn scan_float_mark(cs: &Vec<char>, j: usize, e: usize) -> (r: bool)
    requires
        j <= e <= cs.len(),
    ensures
        r == has_float_mark(cs@, j as int, e as int),
{
    let mut k = j;
    while k < e
        invariant
            j <= k <= e <= cs.len(),
            has_float_mark(cs@, k as int, e as int) == has_float_mark(cs@, j as int, e as int),
        decreases e - k,
    {
        if cs[k] == '.' || cs[k] == 'e' || cs[k] == 'E' {
            return true;
        }
        k = k + 1;
    }
    false
}

fn scan_string(cs: &Vec<char>, j: usize) -> (r: Option<usize>)
    requires
        j <= cs.len(),
    ensures
        match r {
            Some(e) => string_end(cs@, j as int) == Some(e as int) && j < e <= cs.len(),
            None => string_end(cs@, j as int) is None,
        },
{
    let mut k = j;
    while k < cs.len()
        invariant
            j <= k,
            string_end(cs@, k as int) == string_end(cs@, j as int),
        decreases cs.len() - k,
    {
        let c = cs[k];
        if c == '"' {
            return Some(k + 1);
        } else if c == '\\' {
            if k + 1 < cs.len() {
                k = k + 2;
            } else {
                return None;
            }
        } else if c == '\n' || c == '\r' {
            return None;
        } else {
            k = k + 1;
        }
    }
    None
}

fn triple_quote(cs: &Vec<char>, j: usize) -> (r: bool)
    ensures
        r == triple_quote_at(cs@, j as int),
{
    j < cs.len() && cs.len() - j > 2 && cs[j] == '"' && cs[j + 1] == '"' && cs[j + 2] == '"'
}

fn scan_block(cs: &Vec<char>, j: usize) -> (r: Option<usize>)
    requires
        j <= cs.len(),
    ensures
        match r {
            Some(e) => block_end(cs@, j as int) == Some(e as int) && j < e <= cs.len(),
            None => block_end(cs@, j as int) is None,
        },
{
    let mut k = j;
    while k < cs.len()
        invariant
            j <= k,
            block_end(cs@, k as int) == block_end(cs@, j as int),
        decreases cs.len() - k,
    {
        if triple_quote(cs, k) {
            return Some(k + 3);
        } else if cs[k] == '\\' && triple_quote(cs, k + 1) {
            k = k + 4;
        } else {
            k = k + 1;
        }
    }
    None
}

/// The kind and end of the token that starts at `j`.
fn scan_token(cs: &Vec<char>, j: usize) -> (r: Result<(Kind, usize), LexError>)
    requires
        j < cs.len(),
    ensures
        match r {
            Ok((k, e)) => token_at(cs@, j as int) == Ok::<(Kind, int), LexError>((k, e as int))
                && j < e <= cs.len(),
            Err(err) => token_at(cs@, j as int) == Err::<(Kind, int), LexError>(err),
        },
{
    let c = cs[j];
    if c == '!' || c == '$' || c == '(' || c == ')' || c == ':' || c == '=' || c == '@' || c == '['
        || c == ']' || c == '{' || c == '}' || c == '|' || c == '&' {
        Ok((Kind::Punctuator, j + 1))
    } else if c == '.' {
        if cs.len() - j > 2 && cs[j + 1] == '.' && cs[j + 2] == '.' {
            Ok((Kind::Punctuator, j + 3))
        } else {
            Err(LexError::BareDot)
        }
    } else if c == '_' || ('a' <= c && c <= 'z') || ('A' <= c && c <= 'Z') {
        Ok((Kind::Name, scan_name(cs, j + 1)))
    } else if c == '-' || ('0' <= c && c <= '9') {
        let e = scan_number(cs, j + 1);
        let float = scan_float_mark(cs, j, e);
        if check_number(cs, j, e) {
            Ok((
                if float {
                    Kind::FloatValue
                } else {
                    Kind::IntValue
                },
                e,
            ))
        } else if float {
            Err(LexError::UnsupportedFloat)
        } else {
            Err(LexError::UnsupportedInt)
        }
    } else if c == '"' {
        if triple_quote(cs, j) {
            match scan_block(cs, j + 3) {
                Some(e) => Ok((Kind::BlockString, e)),
                None => Err(LexError::UnterminatedBlockString),
            }
        } else {
            match scan_string(cs, j + 1) {
                Some(e) => Ok((Kind::StringValue, e)),
                None => Err(LexError::UnterminatedString),
            }
        }
    } else {
        Err(LexError::UnexpectedChar(c))
    }
}

/// The characters `cs[a..b]` as a string.
fn text_between(cs: &Vec<char>, a: usize, b: usize) -> (r: String)
    requires
        a <= b <= cs.len(),
    ensures
        r@ == cs@.subrange(a as int, b as int),
{
    let mut r = String::new();
    let mut k = a;
    while k < b
        invariant
            a <= k <= b <= cs.len(),
            r@ == cs@.subrange(a as int, k as int),
        decreases b - k,
    {
        push_char(&mut r, cs[k]);
        k = k + 1;
        assert(r@ =~= cs@.subrange(a as int, k as int));
    }
    r
}

/// Pulls tokens out of a source text one at a time.
pub struct TokenStream {
    chars: Vec<char>,
    off: usize,
}

impl TokenStream {
    /// The source text.
    pub closed spec fn source(&self) -> Seq<char> {
        self.chars@
    }

    /// How far into the source the stream has read.
    pub closed spec fn offset(&self) -> int {
        self.off as int
    }

    pub closed spec fn wf(&self) -> bool {
        self.off <= self.chars.len()
    }

    pub fn new(source: &str) -> (r: Self)
        ensures
            r.wf(),
            0 <= r.offset() <= r.source().len(),
            r.source() == source@,
            r.offset() == 0,
    {
        TokenStream { chars: chars_of(source), off: 0 }
    }

    /// The next token, `None` at the end of input, or the error that stops
    /// the stream.
    pub fn next_token(&mut self) -> (r: Result<Option<Token>, LexError>)
        requires
            old(self).wf(),
        ensures
            final(self).wf(),
            final(self).source() == old(self).source(),
            0 <= final(self).offset() <= final(self).source().len(),
            match lex_step(old(self).source(), old(self).offset()) {
                Err(err) => r == Err::<Option<Token>, LexError>(err),
                Ok(None) => r matches Ok(None),
                Ok(Some((t, e))) => r matches Ok(Some(tok)) && tok@ == t && final(self).offset()
                    == e && old(self).offset() < e,
            },
    {
        let j = skip_ignored(&self.chars, self.off);
        if j >= self.chars.len() {
            self.off = j;
            return Ok(None);
        }
        match scan_token(&self.chars, j) {
            Ok((kind, e)) => {
                let value = text_between(&self.chars, j, e);
                self.off = e;
                Ok(Some(Token { kind, value }))
            },
            Err(err) => Err(err),
        }
    }
}

} // verus!
