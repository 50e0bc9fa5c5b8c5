//! Text as sequences of characters: the two conversions that the standard
//! library does, and decimal numbers.

use vstd::prelude::*;
use vstd::string::*;

verus! {

/// The characters of a string.
pub fn to_chars(s: &str) -> (r: Vec<char>)
    ensures
        r@ == s@,
{
    broadcast use vstd::string::group_string_axioms;

    let mut out: Vec<char> = Vec::new();
    for c in it: s.chars()
        invariant
            it.seq() == s@,
            out@ == it.seq().take(it.index()),
    {
        out.push(c);
        assert(it.seq().take(it.index() + 1) =~= it.seq().take(it.index()).push(c));
    }
    assert(s@.take(s@.len() as int) =~= s@);
    out
}

/// Appends a character to a string. Calls `String::push`, which puts the
/// character at the end of the string.
#[verifier::external_body]
fn push_char(s: &mut String, c: char)
    ensures
        final(s)@ == old(s)@.push(c),
{
    s.push(c);
}

/// The string of some characters.
pub fn from_chars(v: &Vec<char>) -> (r: String)
    ensures
        r@ == v@,
{
    let mut out = String::new();
    let mut i: usize = 0;
    assert(out@ =~= v@.take(0));
    while i < v.len()
        invariant
            i <= v@.len(),
            out@ == v@.take(i as int),
        decreases v@.len() - i,
    {
        push_char(&mut out, v[i]);
        assert(v@.take(i + 1) =~= v@.take(i as int).push(v@[i as int]));
        i = i + 1;
    }
    assert(v@.take(i as int) =~= v@);
    out
}

/// The character of a decimal digit.
pub open spec fn spec_digit(d: nat) -> char {
    if d == 0 {
        '0'
    } else if d == 1 {
        '1'
    } else if d == 2 {
        '2'
    } else if d == 3 {
        '3'
    } else if d == 4 {
        '4'
    } else if d == 5 {
        '5'
    } else if d == 6 {
        '6'
    } else if d == 7 {
        '7'
    } else if d == 8 {
        '8'
    } else {
        '9'
    }
}

/// A number in decimal digits, without leading zeros.
pub open spec fn spec_decimal(n: nat) -> Seq<char>
    decreases n,
{
    if n < 10 {
        seq![spec_digit(n)]
    } else {
        spec_decimal(n / 10).push(spec_digit(n % 10))
    }
}

fn digit(d: u128) -> (r: char)
    requires
        d < 10,
    ensures
        r == spec_digit(d as nat),
{
    if d == 0 {
        '0'
    } else if d == 1 {
        '1'
    } else if d == 2 {
        '2'
    } else if d == 3 {
        '3'
    } else if d == 4 {
        '4'
    } else if d == 5 {
        '5'
    } else if d == 6 {
        '6'
    } else if d == 7 {
        '7'
    } else if d == 8 {
        '8'
    } else {
        '9'
    }
}

/// Appends a number in decimal digits.
pub fn push_decimal(out: &mut Vec<char>, n: u128)
    ensures
        final(out)@ == old(out)@ + spec_decimal(n as nat),
    decreases n,
{
    if n < 10 {
        out.push(digit(n));
        assert(out@ =~= old(out)@ + spec_decimal(n as nat));
    } else {
        push_decimal(out, n / 10);
        out.push(digit(n % 10));
        assert(out@ =~= old(out)@ + spec_decimal(n as nat));
    }
}

/// Appends the characters of a string.
pub fn push_text(out: &mut Vec<char>, s: &str)
    ensures
        final(out)@ == old(out)@ + s@,
{
    let mut more = to_chars(s);
    out.append(&mut more);
}

/// A number with its sign in decimal digits.
pub open spec fn spec_signed_decimal(i: int) -> Seq<char> {
    if i < 0 {
        seq!['-'] + spec_decimal((-i) as nat)
    } else {
        spec_decimal(i as nat)
    }
}

/// Appends a number with its sign in decimal digits.
pub fn push_signed_decimal(out: &mut Vec<char>, i: i64)
    ensures
        final(out)@ == old(out)@ + spec_signed_decimal(i as int),
{
    if i < 0 {
        out.push('-');
        let ghost middle = out@;
        push_decimal(out, (-(i as i128)) as u128);
        assert(out@ =~= old(out)@ + spec_signed_decimal(i as int));
    } else {
        push_decimal(out, i as u128);
    }
}

/// Whether a character is white space: a blank, a tab, a line end, or
/// one of the other characters that Unicode counts as white space.
pub open spec fn spec_is_space(c: char) -> bool {
    let n = c as u32;
    (0x09 <= n <= 0x0d) || n == 0x20 || n == 0x85 || n == 0xa0 || n == 0x1680 || (0x2000 <= n
        <= 0x200a) || n == 0x2028 || n == 0x2029 || n == 0x202f || n == 0x205f || n == 0x3000
}

/// Whether a character is white space.
pub fn is_space(c: char) -> (r: bool)
    ensures
        r == spec_is_space(c),
{
    let n = c as u32;
    (0x09 <= n && n <= 0x0d) || n == 0x20 || n == 0x85 || n == 0xa0 || n == 0x1680 || (0x2000
        <= n && n <= 0x200a) || n == 0x2028 || n == 0x2029 || n == 0x202f || n == 0x205f || n
        == 0x3000
}

/// A text without the white space at its end.
pub open spec fn spec_trim_end(s: Seq<char>) -> Seq<char>
    decreases s.len(),
{
    if s.len() > 0 && spec_is_space(s.last()) {
        spec_trim_end(s.drop_last())
    } else {
        s
    }
}

/// Takes the white space at the end of a text away.
pub fn trim_end(out: &mut Vec<char>)
    ensures
        final(out)@ == spec_trim_end(old(out)@),
{
    loop
        invariant
            spec_trim_end(out@) == spec_trim_end(old(out)@),
        ensures
            out@ == spec_trim_end(old(out)@),
        decreases out@.len(),
    {
        if out.len() == 0 {
            break ;
        }
        if !is_space(out[out.len() - 1]) {
            break ;
        }
        let ghost before = out@;
        out.pop();
        assert(out@ =~= before.drop_last());
    }
}

/// The text `s` with `pad` behind each line feed.
pub open spec fn spec_padded(s: Seq<char>, pad: Seq<char>) -> Seq<char>
    decreases s.len(),
{
    if s.len() == 0 {
        Seq::empty()
    } else if s.last() == '\n' {
        spec_padded(s.drop_last(), pad).push('\n') + pad
    } else {
        spec_padded(s.drop_last(), pad).push(s.last())
    }
}

/// Appends the text `s` with `pad` behind each line feed.
pub fn push_padded(out: &mut Vec<char>, s: &Vec<char>, pad: &Vec<char>)
    ensures
        final(out)@ == old(out)@ + spec_padded(s@, pad@),
{
    let mut i: usize = 0;
    assert(out@ =~= old(out)@ + spec_padded(s@.take(0), pad@));
    while i < s.len()
        invariant
            i <= s@.len(),
            out@ == old(out)@ + spec_padded(s@.take(i as int), pad@),
        decreases s@.len() - i,
    {
        let c = s[i];
        let ghost before = out@;
        out.push(c);
        if c == '\n' {
            let mut j: usize = 0;
            while j < pad.len()
                invariant
                    j <= pad@.len(),
                    out@ == before.push(c) + pad@.take(j as int),
                decreases pad@.len() - j,
            {
                out.push(pad[j]);
                assert(out@ =~= before.push(c) + pad@.take(j + 1));
                j = j + 1;
            }
            assert(pad@.take(j as int) =~= pad@);
        }
        proof {
            assert(s@.take(i + 1).drop_last() =~= s@.take(i as int));
            assert(s@.take(i + 1).last() == c);
            assert(out@ =~= old(out)@ + spec_padded(s@.take(i + 1), pad@));
        }
        i = i + 1;
    }
    assert(s@.take(i as int) =~= s@);
}

/// Appends characters.
pub fn push_chars(out: &mut Vec<char>, s: &Vec<char>)
    ensures
        final(out)@ == old(out)@ + s@,
{
    let mut i: usize = 0;
    assert(out@ =~= old(out)@ + s@.take(0));
    while i < s.len()
        invariant
            i <= s@.len(),
            out@ == old(out)@ + s@.take(i as int),
        decreases s@.len() - i,
    {
        out.push(s[i]);
        assert(out@ =~= old(out)@ + s@.take(i + 1));
        i = i + 1;
    }
    assert(s@.take(i as int) =~= s@);
}

/// The text that bytes are in UTF-8, if they are UTF-8. Calls
/// `std::str::from_utf8`, which accepts exactly the byte strings that are
/// valid UTF-8 and hands back the bytes as a text.
#[verifier::external_body]
fn utf8_text(bytes: &[u8]) -> (r: Option<&str>)
    ensures
        match r {
            Some(s) => s.spec_bytes() == bytes@,
            None => !vstd::utf8::valid_utf8(bytes@),
        },
{
    std::str::from_utf8(bytes).ok()
}

/// The characters that bytes stand for in UTF-8, if they are UTF-8.
pub fn utf8_chars(bytes: &Vec<u8>) -> (r: Option<Vec<char>>)
    ensures
        match r {
            Some(v) => vstd::utf8::valid_utf8(bytes@) && v@ == vstd::utf8::decode_utf8(bytes@),
            None => !vstd::utf8::valid_utf8(bytes@),
        },
{
    match utf8_text(bytes.as_slice()) {
        Some(s) => {
            proof {
                vstd::utf8::encode_utf8_valid_utf8(s@);
                vstd::utf8::encode_utf8_decode_utf8(s@);
            }
            Some(to_chars(s))
        },
        None => None,
    }
}

/// The first `upto` of the texts `parts` with `sep` between them.
pub open spec fn spec_join(parts: Seq<Seq<char>>, upto: nat, sep: Seq<char>) -> Seq<char>
    decreases upto,
{
    if upto == 0 || upto > parts.len() {
        Seq::empty()
    } else if upto == 1 {
        parts[0]
    } else {
        spec_join(parts, (upto - 1) as nat, sep) + sep + parts[upto - 1]
    }
}

/// The views of texts, in order.
pub open spec fn texts_view(v: Seq<Vec<char>>) -> Seq<Seq<char>> {
    Seq::new(v.len(), |i: int| v[i]@)
}

/// Appends texts with `sep` between them.
pub fn push_joined(out: &mut Vec<char>, parts: &Vec<Vec<char>>, sep: &str)
    ensures
        final(out)@ == old(out)@ + spec_join(texts_view(parts@), parts@.len() as nat, sep@),
{
    let ghost texts = texts_view(parts@);
    let mut i: usize = 0;
    assert(out@ =~= old(out)@ + spec_join(texts, 0, sep@));
    while i < parts.len()
        invariant
            i <= parts@.len(),
            texts == texts_view(parts@),
            out@ == old(out)@ + spec_join(texts, i as nat, sep@),
        decreases parts@.len() - i,
    {
        if i > 0 {
            push_text(out, sep);
        }
        push_chars(out, &parts[i]);
        assert(out@ =~= old(out)@ + spec_join(texts, (i + 1) as nat, sep@));
        i = i + 1;
    }
}

} // verus!
