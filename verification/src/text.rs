//! Measuring text: how many bytes the UTF-8 form of a character and of a run
//! of characters takes, and the decimal digits of a number.

use vstd::prelude::*;
use vstd::string::StringExecFns;
use vstd::utf8::{encode_scalar, encode_utf8};

verus! {

/// Number of bytes in the UTF-8 form of `c`.
pub open spec fn utf8_width(c: char) -> nat {
    if (c as u32) < 0x80 {
        1
    } else if (c as u32) < 0x800 {
        2
    } else if (c as u32) < 0x10000 {
        3
    } else {
        4
    }
}

/// Number of bytes in the UTF-8 form of `chars`.
pub open spec fn utf8_len(chars: Seq<char>) -> nat
    decreases chars.len(),
{
    if chars.len() == 0 {
        0
    } else {
        utf8_width(chars[0]) + utf8_len(chars.drop_first())
    }
}

/// Byte offset at which the character of index `i` starts.
pub open spec fn byte_offset(chars: Seq<char>, i: int) -> nat {
    utf8_len(chars.take(i))
}

/// The measure agrees with the encoder: a character takes as many bytes as
/// its encoding has.
pub proof fn lemma_width_is_encoded_len(c: char)
    ensures
        encode_scalar(c as u32).len() == utf8_width(c),
{
    vstd::utf8::char_is_scalar(c);
}

/// A run of characters takes as many bytes as its encoding has.
pub proof fn lemma_len_is_encoded_len(chars: Seq<char>)
    ensures
        encode_utf8(chars).len() == utf8_len(chars),
    decreases chars.len(),
{
    if chars.len() > 0 {
        lemma_width_is_encoded_len(chars[0]);
        lemma_len_is_encoded_len(chars.drop_first());
    }
}

/// Lengths add up over concatenation.
pub proof fn lemma_utf8_len_concat(a: Seq<char>, b: Seq<char>)
    ensures
        utf8_len(a + b) == utf8_len(a) + utf8_len(b),
    decreases a.len(),
{
    if a.len() == 0 {
        assert(a + b =~= b);
    } else {
        assert((a + b).drop_first() =~= a.drop_first() + b);
        lemma_utf8_len_concat(a.drop_first(), b);
    }
}

/// No run of characters is shorter in bytes than in characters.
pub proof fn lemma_utf8_len_lower(chars: Seq<char>)
    ensures
        chars.len() <= utf8_len(chars),
    decreases chars.len(),
{
    if chars.len() > 0 {
        lemma_utf8_len_lower(chars.drop_first());
    }
}

/// Offsets grow with the index, by at least one byte for each character.
pub proof fn lemma_byte_offset_step(chars: Seq<char>, i: int, j: int)
    requires
        0 <= i <= j <= chars.len(),
    ensures
        byte_offset(chars, j) == byte_offset(chars, i) + utf8_len(chars.subrange(i, j)),
        byte_offset(chars, i) + (j - i) <= byte_offset(chars, j),
{
    assert(chars.take(j) =~= chars.take(i) + chars.subrange(i, j));
    lemma_utf8_len_concat(chars.take(i), chars.subrange(i, j));
    lemma_utf8_len_lower(chars.subrange(i, j));
}

/// Length of `text` in bytes.
pub fn byte_len(text: &str) -> (n: usize)
    ensures
        n == utf8_len(text@),
{
    proof {
        lemma_len_is_encoded_len(text@);
    }
    text.as_bytes().len()
}

/// `str::ends_with` for one character: whether the slice is not empty and
/// `c` is its last character.
#[verifier::external_body]
pub(crate) fn ends_with_char(s: &str, c: char) -> (r: bool)
    ensures
        r == (s@.len() > 0 && s@.last() == c),
{
    s.ends_with(c)
}

/// The form in which the `Debug` formatting of std writes a string: between
/// double quotes, with its escapes.
pub uninterp spec fn debug_form(s: Seq<char>) -> Seq<char>;

/// `{:?}` on a string slice: the slice in its `Debug` form.
#[verifier::external_body]
pub(crate) fn debug_quoted(s: &str) -> (r: String)
    ensures
        r@ == debug_form(s@),
{
    format!("{:?}", s)
}

/// Writes a labelled line: the label, a colon, the quoted text, and what
/// follows it, each parted from the next by a space.
pub fn labelled(label: &str, quoted: &str, tail: &str) -> (s: String)
    ensures
        s@ == label@ + ": "@ + quoted@ + " "@ + tail@,
{
    let mut s = String::from_str(label);
    s.append(": ");
    s.append(quoted);
    s.append(" ");
    s.append(tail);
    s
}

/// The character that writes the digit `d`.
pub open spec fn digit_char(d: nat) -> char {
    if d == 0 {
        '0'
    } else if d == 1 {
        '1'
    } else if d == 2 {
        '2'
    } else if d == 3 {
        '3'
    } else if d == 4 {
        '4'
    } else if d == 5 {
        '5'
    } else if d == 6 {
        '6'
    } else if d == 7 {
        '7'
    } else if d == 8 {
        '8'
    } else {
        '9'
    }
}

/// The decimal digits of `n`, most significant first, without leading zeros.
pub open spec fn decimal_chars(n: nat) -> Seq<char>
    decreases n,
{
    if n < 10 {
        seq![digit_char(n)]
    } else {
        decimal_chars(n / 10).push(digit_char(n % 10))
    }
}

fn digit_str(d: usize) -> (r: &'static str)
    requires
        d < 10,
    ensures
        r@ == seq![digit_char(d as nat)],
{
    proof {
        reveal_strlit("0");
        reveal_strlit("1");
        reveal_strlit("2");
        reveal_strlit("3");
        reveal_strlit("4");
        reveal_strlit("5");
        reveal_strlit("6");
        reveal_strlit("7");
        reveal_strlit("8");
        reveal_strlit("9");
    }
    let r = if d == 0 {
        "0"
    } else if d == 1 {
        "1"
    } else if d == 2 {
        "2"
    } else if d == 3 {
        "3"
    } else if d == 4 {
        "4"
    } else if d == 5 {
        "5"
    } else if d == 6 {
        "6"
    } else if d == 7 {
        "7"
    } else if d == 8 {
        "8"
    } else {
        "9"
    };
    assert(r@ =~= seq![digit_char(d as nat)]);
    r
}

/// Writes `n` in decimal.
pub fn decimal(n: usize) -> (s: String)
    ensures
        s@ == decimal_chars(n as nat),
    decreases n,
{
    if n < 10 {
        String::from_str(digit_str(n))
    } else {
        let mut s = decimal(n / 10);
        s.append(digit_str(n % 10));
        assert(s@ =~= decimal_chars(n as nat));
        s
    }
}

} // verus!
