//! Text: the few operations on strings that the snapshot and the renderer
//! need.
use vstd::prelude::*;

verus! {

/// The digit of value `d` in a radix of at most 16.
pub open spec fn digit(d: int) -> char {
    seq!['0', '1', '2', '3', '4', '5', '6', '7', '8', '9', 'a', 'b', 'c', 'd', 'e', 'f'][d]
}

/// `n` in decimal: its digits, most significant first, without leading
/// zeros.
pub open spec fn decimal(n: nat) -> Seq<char>
    decreases n,
{
    if n < 10 {
        seq![digit(n as int)]
    } else {
        decimal(n / 10).push(digit((n % 10) as int))
    }
}

/// The digits of `n` in radix 16, most significant first, without leading
/// zeros.
pub open spec fn hex_digits(n: nat) -> Seq<char>
    decreases n,
{
    if n < 16 {
        seq![digit(n as int)]
    } else {
        hex_digits(n / 16).push(digit((n % 16) as int))
    }
}

/// `n` in decimal, with a minus sign before a negative number.
pub open spec fn signed_decimal(n: int) -> Seq<char> {
    if n < 0 {
        seq!['-'] + decimal((-n) as nat)
    } else {
        decimal(n as nat)
    }
}

/// `n` in hexadecimal, after `0x`.
pub open spec fn hexadecimal(n: nat) -> Seq<char> {
    seq!['0', 'x'] + hex_digits(n)
}

/// What stands for `c` in escaped text.
pub open spec fn escaped_char(c: char) -> Seq<char> {
    if c == '&' {
        seq!['&', 'a', 'm', 'p', ';']
    } else if c == '<' {
        seq!['&', 'l', 't', ';']
    } else if c == '>' {
        seq!['&', 'g', 't', ';']
    } else {
        seq![c]
    }
}

/// `text` with every `&`, `<` and `>` replaced by `&amp;`, `&lt;` and `&gt;`.
pub open spec fn escaped(text: Seq<char>) -> Seq<char>
    decreases text.len(),
{
    if text.len() == 0 {
        seq![]
    } else {
        escaped(text.drop_last()) + escaped_char(text.last())
    }
}

/// The text that the standard debug formatting gives for the string `text`:
/// `text` between double quotes, with the characters that need it escaped.
pub uninterp spec fn debug_quoted(text: Seq<char>) -> Seq<char>;

/// The longest text that is shown whole.
pub const MAX_SHOWN: usize = 40;

/// How much is kept at either end of a text that is too long.
pub const KEPT: usize = 20;

/// What stands for the part left out of a text that is too long.
pub open spec fn elision() -> Seq<char> {
    seq!['[', '.', '.', '.', ']']
}

/// `text` if it has at most 40 characters; otherwise its first 20
/// characters, the elision marker and its last 20 characters.
pub open spec fn elided(text: Seq<char>) -> Seq<char> {
    if text.len() <= MAX_SHOWN {
        text
    } else {
        text.subrange(0, KEPT as int) + elision() + text.subrange(text.len() - KEPT, text.len() as int)
    }
}

/// A text of exactly 40 characters is shown whole; a longer one is cut down
/// to its first 20 characters, the elision marker and its last 20
/// characters, which makes 45.
pub proof fn law_elided_boundary(text: Seq<char>)
    ensures
        text.len() <= 40 ==> elided(text) == text,
        text.len() > 40 ==> elided(text) == text.subrange(0, 20) + elision() + text.subrange(
            text.len() - 20,
            text.len() as int,
        ),
        text.len() > 40 ==> elided(text).len() == 45,
{
}

/// `n` spaces.
pub open spec fn spaces(n: nat) -> Seq<char> {
    Seq::new(n, |i: int| ' ')
}

/// Appends `c` to `s`, with `String::push`.
#[verifier::external_body]
pub(crate) fn push_char(s: &mut String, c: char)
    ensures
        final(s)@ == old(s)@.push(c),
{
    s.push(c);
}

/// Escapes `text` for use as text in HTML, with `html_escape::encode_text`:
/// every `&`, `<` and `>` is replaced by its entity and everything else is
/// kept.
#[verifier::external_body]
pub(crate) fn escape_text(text: &str) -> (r: String)
    ensures
        r@ == escaped(text@),
{
    html_escape::encode_text(text).into_owned()
}

/// Formats `text` with `format!("{:?}", ..)`, that is with the standard
/// library's `Debug` for `str`: the text between double quotes, with escapes.
/// The result is a function of the characters of `text` alone.
#[verifier::external_body]
pub(crate) fn debug_quote(text: &str) -> (r: String)
    ensures
        r@ == debug_quoted(text@),
{
    format!("{:?}", text)
}

fn digit_of(d: u64) -> (c: char)
    requires
        d < 16,
    ensures
        c == digit(d as int),
{
    if d == 0 {
        '0'
    } else if d == 1 {
        '1'
    } else if d == 2 {
        '2'
    } else if d == 3 {
        '3'
    } else if d == 4 {
        '4'
    } else if d == 5 {
        '5'
    } else if d == 6 {
        '6'
    } else if d == 7 {
        '7'
    } else if d == 8 {
        '8'
    } else if d == 9 {
        '9'
    } else if d == 10 {
        'a'
    } else if d == 11 {
        'b'
    } else if d == 12 {
        'c'
    } else if d == 13 {
        'd'
    } else if d == 14 {
        'e'
    } else {
        'f'
    }
}

/// Appends `n` in decimal to `out`.
pub fn push_decimal_digits(out: &mut String, n: u64)
    ensures
        final(out)@ == old(out)@ + decimal(n as nat),
    decreases n,
{
    if n >= 10 {
        push_decimal_digits(out, n / 10);
        push_char(out, digit_of(n % 10));
        assert(out@ =~= old(out)@ + decimal(n as nat));
    } else {
        push_char(out, digit_of(n));
        assert(out@ =~= old(out)@ + decimal(n as nat));
    }
}

/// Appends the digits of `n` in radix 16 to `out`.
pub fn push_hex_digits(out: &mut String, n: u64)
    ensures
        final(out)@ == old(out)@ + hex_digits(n as nat),
    decreases n,
{
    if n >= 16 {
        push_hex_digits(out, n / 16);
        push_char(out, digit_of(n % 16));
        assert(out@ =~= old(out)@ + hex_digits(n as nat));
    } else {
        push_char(out, digit_of(n));
        assert(out@ =~= old(out)@ + hex_digits(n as nat));
    }
}

/// Appends `n` in decimal to `out`.
pub fn push_decimal(out: &mut String, n: usize)
    ensures
        final(out)@ == old(out)@ + decimal(n as nat),
{
    push_decimal_digits(out, n as u64);
}

/// `n` in decimal.
pub fn decimal_text(n: u64) -> (r: String)
    ensures
        r@ == decimal(n as nat),
{
    let mut out = String::new();
    push_decimal_digits(&mut out, n);
    assert(out@ =~= decimal(n as nat));
    out
}

/// `n` in decimal, with a minus sign before a negative number.
pub fn signed_decimal_text(n: i64) -> (r: String)
    ensures
        r@ == signed_decimal(n as int),
{
    let mut out = String::new();
    if n < 0 {
        push_char(&mut out, '-');
        let magnitude: u64 = (-(n + 1)) as u64 + 1;
        push_decimal_digits(&mut out, magnitude);
        assert(out@ =~= signed_decimal(n as int));
    } else {
        push_decimal_digits(&mut out, n as u64);
        assert(out@ =~= signed_decimal(n as int));
    }
    out
}

/// `n` in hexadecimal, after `0x`.
pub fn hexadecimal_text(n: u64) -> (r: String)
    ensures
        r@ == hexadecimal(n as nat),
{
    let mut out = String::new();
    push_char(&mut out, '0');
    push_char(&mut out, 'x');
    push_hex_digits(&mut out, n);
    assert(out@ =~= hexadecimal(n as nat));
    out
}

/// `text` if it has at most 40 characters; otherwise its first 20
/// characters, the elision marker and its last 20 characters.
pub fn elide(text: String) -> (r: String)
    ensures
        r@ == elided(text@),
{
    let n = text.as_str().unicode_len();
    if n <= MAX_SHOWN {
        text
    } else {
        let mut out = String::from_str(text.as_str().substring_char(0, KEPT));
        push_char(&mut out, '[');
        push_char(&mut out, '.');
        push_char(&mut out, '.');
        push_char(&mut out, '.');
        push_char(&mut out, ']');
        out.append(text.as_str().substring_char(n - KEPT, n));
        assert(out@ =~= elided(text@));
        out
    }
}

/// Appends `n` spaces to `out`.
pub fn push_spaces(out: &mut String, n: usize)
    ensures
        final(out)@ == old(out)@ + spaces(n as nat),
{
    let mut i: usize = 0;
    assert(out@ =~= old(out)@ + spaces(0));
    while i < n
        invariant
            i <= n,
            out@ == old(out)@ + spaces(i as nat),
        decreases n - i,
    {
        push_char(out, ' ');
        i += 1;
        assert(out@ =~= old(out)@ + spaces(i as nat));
    }
}

} // verus!
