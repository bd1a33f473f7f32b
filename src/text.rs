//! Text primitives: characters of a string, string-literal escaping and
//! decimal integers.
use vstd::prelude::*;
use vstd::std_specs::iter::IteratorSpec;

verus! {

broadcast use {vstd::string::group_string_axioms, vstd::string::next_postcondition};

/// Relies on `String::push`: it appends one character.
#[verifier::external_body]
pub(crate) fn push_char(s: &mut String, c: char)
    ensures
        final(s)@ == old(s)@.push(c),
{
    s.push(c)
}

/// The characters of `s`, in order.
pub fn chars_of(s: &str) -> (r: Vec<char>)
    ensures
        r@ == s@,
{
    let mut it = s.chars();
    let mut r: Vec<char> = Vec::new();
    loop
        invariant
            r@ + it.remaining() == s@,
            it.decrease() is Some,
        ensures
            r@ == s@,
        decreases it.decrease()->0,
    {
        match it.next() {
            Some(c) => {
                r.push(c);
            },
            None => {
                assert(r@ + seq![] =~= r@);
                break ;
            },
        }
    }
    r
}

/// The lower-case hexadecimal digit of value `d` (also the decimal digit
/// when `d < 10`).
pub open spec fn hex_digit(d: int) -> char {
    seq!['0', '1', '2', '3', '4', '5', '6', '7', '8', '9', 'a', 'b', 'c', 'd', 'e', 'f'][d]
}

fn hex_char(d: u32) -> (c: char)
    requires
        d < 16,
    ensures
        c == hex_digit(d as int),
{
    let digits: Vec<char> = vec!['0', '1', '2', '3', '4', '5', '6', '7', '8', '9', 'a', 'b', 'c', 'd', 'e', 'f'];
    digits[d as usize]
}

/// The control characters: general category Cc.
pub open spec fn is_control(c: char) -> bool {
    c as u32 <= 0x1f || (0x7f <= c as u32 && c as u32 <= 0x9f)
}

pub fn char_is_control(c: char) -> (r: bool)
    ensures
        r == is_control(c),
{
    (c as u32) <= 0x1f || (0x7f <= (c as u32) && (c as u32) <= 0x9f)
}

/// How one character of a string value is written inside a double-quoted
/// literal.
pub open spec fn escape_char(c: char) -> Seq<char> {
    if c == '\u{8}' {
        seq!['\\', 'b']
    } else if c == '\u{c}' {
        seq!['\\', 'f']
    } else if c == '\r' {
        seq!['\\', 'r']
    } else if c == '\n' {
        seq!['\\', 'n']
    } else if c == '\t' {
        seq!['\\', 't']
    } else if c == '"' {
        seq!['\\', '"']
    } else if c == '\\' {
        seq!['\\', '\\']
    } else if is_control(c) {
        seq!['\\', 'u', '0', '0', hex_digit((c as u32 / 16) as int), hex_digit((c as u32 % 16) as int)]
    } else {
        seq![c]
    }
}

/// The escaped body of a string value.
pub open spec fn escape_str(s: Seq<char>) -> Seq<char>
    decreases s.len(),
{
    if s.len() == 0 {
        seq![]
    } else {
        escape_str(s.drop_last()) + escape_char(s.last())
    }
}

/// A string value written as a double-quoted literal.
pub open spec fn quoted(s: Seq<char>) -> Seq<char> {
    seq!['"'] + escape_str(s) + seq!['"']
}

/// Appends the escaped body of `s` to `buf`.
pub fn write_escaped(buf: &mut String, s: &str)
    ensures
        final(buf)@ == old(buf)@ + escape_str(s@),
{
    let cs = chars_of(s);
    let mut i: usize = 0;
    while i < cs.len()
        invariant
            cs@ == s@,
            i <= cs.len(),
            buf@ == old(buf)@ + escape_str(cs@.take(i as int)),
        decreases cs.len() - i,
    {
        let c = cs[i];
        let ghost before = buf@;
        if c == '\u{8}' {
            push_char(buf, '\\');
            push_char(buf, 'b');
        } else if c == '\u{c}' {
            push_char(buf, '\\');
            push_char(buf, 'f');
        } else if c == '\r' {
            push_char(buf, '\\');
            push_char(buf, 'r');
        } else if c == '\n' {
            push_char(buf, '\\');
            push_char(buf, 'n');
        } else if c == '\t' {
            push_char(buf, '\\');
            push_char(buf, 't');
        } else if c == '"' {
            push_char(buf, '\\');
            push_char(buf, '"');
        } else if c == '\\' {
            push_char(buf, '\\');
            push_char(buf, '\\');
        } else if char_is_control(c) {
            let code = c as u32;
            push_char(buf, '\\');
            push_char(buf, 'u');
            push_char(buf, '0');
            push_char(buf, '0');
            push_char(buf, hex_char(code / 16));
            push_char(buf, hex_char(code % 16));
            assert(buf@ =~= before + escape_char(c));
        } else {
            push_char(buf, c);
            assert(buf@ =~= before + escape_char(c));
        }
        assert(buf@ =~= before + escape_char(c));
        assert(cs@.take(i + 1).drop_last() =~= cs@.take(i as int));
        i = i + 1;
    }
    assert(cs@.take(i as int) =~= s@);
}

/// Appends `s` as a double-quoted literal to `buf`.
pub fn write_quoted(buf: &mut String, s: &str)
    ensures
        final(buf)@ == old(buf)@ + quoted(s@),
{
    push_char(buf, '"');
    write_escaped(buf, s);
    push_char(buf, '"');
    assert(buf@ =~= old(buf)@ + quoted(s@));
}

/// The value of a hexadecimal digit character.
pub open spec fn hex_value(c: char) -> int {
    let n = c as u32 as int;
    if '0' as u32 <= c as u32 && c as u32 <= '9' as u32 {
        n - '0' as u32
    } else if 'a' as u32 <= c as u32 && c as u32 <= 'f' as u32 {
        n - 'a' as u32 + 10
    } else if 'A' as u32 <= c as u32 && c as u32 <= 'F' as u32 {
        n - 'A' as u32 + 10
    } else {
        0
    }
}

/// The character with code point `n`.
pub open spec fn char_of(n: int) -> char {
    choose|c: char| #[trigger] (c as u32) == n
}

/// Decodes the body of a double-quoted string literal: each escape sequence
/// stands for the character it names, every other character for itself.
pub open spec fn unescape(t: Seq<char>) -> Seq<char>
    decreases t.len(),
{
    if t.len() == 0 {
        seq![]
    } else if t[0] == '\\' && t.len() >= 2 {
        let e = t[1];
        if e == 'u' && t.len() >= 6 {
            seq![char_of(
                4096 * hex_value(t[2]) + 256 * hex_value(t[3]) + 16 * hex_value(t[4]) + hex_value(
                    t[5],
                ),
            )] + unescape(t.skip(6))
        } else if e == 'b' || e == 'f' || e == 'n' || e == 'r' || e == 't' || e == '"' || e
            == '\\' || e == '/' {
            seq![
                if e == 'b' {
                    '\u{8}'
                } else if e == 'f' {
                    '\u{c}'
                } else if e == 'n' {
                    '\n'
                } else if e == 'r' {
                    '\r'
                } else if e == 't' {
                    '\t'
                } else {
                    e
                },
            ] + unescape(t.skip(2))
        } else {
            seq![t[0]] + unescape(t.skip(1))
        }
    } else {
        seq![t[0]] + unescape(t.skip(1))
    }
}

proof fn lemma_escape_concat(a: Seq<char>, b: Seq<char>)
    ensures
        escape_str(a + b) == escape_str(a) + escape_str(b),
    decreases b.len(),
{
    if b.len() == 0 {
        assert(a + b =~= a);
        assert(escape_str(a) + escape_str(b) =~= escape_str(a));
    } else {
        assert((a + b).drop_last() =~= a + b.drop_last());
        lemma_escape_concat(a, b.drop_last());
        assert(escape_str(a + b) =~= escape_str(a) + escape_str(b));
    }
}

proof fn lemma_unescape_char(c: char, rest: Seq<char>)
    ensures
        unescape(escape_char(c) + rest) == seq![c] + unescape(rest),
{
    let t = escape_char(c) + rest;
    if is_control(c) && c != '\u{8}' && c != '\u{c}' && c != '\r' && c != '\n' && c != '\t' {
        let code = c as u32;
        let hi = (code / 16) as int;
        let lo = (code % 16) as int;
        assert(t[2] == '0' && t[3] == '0' && t[4] == hex_digit(hi) && t[5] == hex_digit(lo));
        assert(hex_value(hex_digit(hi)) == hi);
        assert(hex_value(hex_digit(lo)) == lo);
        assert(hex_value('0') == 0);
        let n = 4096 * hex_value(t[2]) + 256 * hex_value(t[3]) + 16 * hex_value(t[4]) + hex_value(
            t[5],
        );
        assert(n == code as int);
        assert(char_of(n) as u32 == n) by {
            assert(c as u32 == n);
        }
        assert(char_of(n) == c);
        assert(t.skip(6) =~= rest);
    } else if escape_char(c).len() == 2 {
        assert(t.skip(2) =~= rest);
    } else {
        assert(t.skip(1) =~= rest);
    }
}

/// Decoding the body of the literal that a string value is written as
/// gives back exactly that string value.
pub proof fn lemma_escape_round_trip(s: Seq<char>)
    ensures
        unescape(quoted(s).subrange(1, quoted(s).len() - 1)) == s,
    decreases s.len(),
{
    assert(quoted(s).subrange(1, quoted(s).len() - 1) =~= escape_str(s));
    if s.len() > 0 {
        let rest = s.skip(1);
        assert(s =~= seq![s[0]] + rest);
        lemma_escape_concat(seq![s[0]], rest);
        assert(seq![s[0]].drop_last() =~= Seq::<char>::empty());
        assert(escape_str(seq![s[0]]) == escape_str(Seq::<char>::empty()) + escape_char(s[0]));
        assert(escape_str(seq![s[0]]) =~= escape_char(s[0]));
        lemma_unescape_char(s[0], escape_str(rest));
        lemma_escape_round_trip(rest);
        assert(quoted(rest).subrange(1, quoted(rest).len() - 1) =~= escape_str(rest));
    }
}

/// The decimal digits of `n`, most significant first, without leading zeros.
pub open spec fn decimal(n: nat) -> Seq<char>
    decreases n,
{
    if n < 10 {
        seq![hex_digit(n as int)]
    } else {
        decimal(n / 10).push(hex_digit((n % 10) as int))
    }
}

/// The decimal text of an integer: a minus sign for negatives, then the
/// digits of its magnitude.
pub open spec fn int_text(i: int) -> Seq<char> {
    if i < 0 {
        seq!['-'] + decimal((-i) as nat)
    } else {
        decimal(i as nat)
    }
}

fn write_decimal(buf: &mut String, n: u64)
    ensures
        final(buf)@ == old(buf)@ + decimal(n as nat),
    decreases n,
{
    if n < 10 {
        push_char(buf, hex_char(n as u32));
        assert(buf@ =~= old(buf)@ + decimal(n as nat));
    } else {
        write_decimal(buf, n / 10);
        push_char(buf, hex_char((n % 10) as u32));
        assert(buf@ =~= old(buf)@ + decimal(n as nat));
    }
}

/// Appends the decimal text of `i` to `buf`.
pub fn write_int(buf: &mut String, i: i64)
    ensures
        final(buf)@ == old(buf)@ + int_text(i as int),
{
    if i < 0 {
        push_char(buf, '-');
        let magnitude: u64 = ((-(i + 1)) as u64) + 1;
        write_decimal(buf, magnitude);
        assert(buf@ =~= old(buf)@ + int_text(i as int));
    } else {
        write_decimal(buf, i as u64);
    }
}

} // verus!
