//! Character classes used by the lexer, and the UTF-8 width of characters.

use vstd::prelude::*;

verus! {

/// Whether `unicode_ident::is_xid_start` holds of a character outside ASCII (the Unicode
/// `XID_Start` property there).
pub uninterp spec fn xid_start_beyond_ascii(c: char) -> bool;

/// Whether `unicode_ident::is_xid_continue` holds of a character outside ASCII (the Unicode
/// `XID_Continue` property there).
pub uninterp spec fn xid_continue_beyond_ascii(c: char) -> bool;

pub open spec fn is_ascii(c: char) -> bool {
    (c as u32) < 128
}

/// An ASCII letter.
pub open spec fn ascii_letter(c: char) -> bool {
    ('a' <= c && c <= 'z') || ('A' <= c && c <= 'Z')
}

/// Whether chumsky's `Char::is_ident_start` holds of `c`: Unicode `XID_Start` or `_`. Within
/// ASCII these are the letters and `_`.
pub open spec fn ident_start(c: char) -> bool {
    if is_ascii(c) {
        ascii_letter(c) || c == '_'
    } else {
        xid_start_beyond_ascii(c)
    }
}

/// Whether chumsky's `Char::is_ident_continue` holds of `c`: Unicode `XID_Continue`. Within
/// ASCII these are the letters, the digits and `_`.
pub open spec fn ident_continue(c: char) -> bool {
    if is_ascii(c) {
        ascii_letter(c) || ('0' <= c && c <= '9') || c == '_'
    } else {
        xid_continue_beyond_ascii(c)
    }
}

/// Whether chumsky's `Char::is_whitespace` holds of `c`: `char::is_whitespace`, the Unicode
/// `White_Space` property, which these 25 code points have.
pub open spec fn white_space(c: char) -> bool {
    ||| '\u{9}' <= c && c <= '\u{d}'
    ||| c == ' '
    ||| c == '\u{85}'
    ||| c == '\u{a0}'
    ||| c == '\u{1680}'
    ||| '\u{2000}' <= c && c <= '\u{200a}'
    ||| c == '\u{2028}'
    ||| c == '\u{2029}'
    ||| c == '\u{202f}'
    ||| c == '\u{205f}'
    ||| c == '\u{3000}'
}

/// Calls `chumsky::text::Char::is_ident_start` on a `char`, which is
/// `unicode_ident::is_xid_start(c) || c == '_'`. Within ASCII, unicode-ident's table holds
/// exactly the letters; beyond it the result is named `xid_start_beyond_ascii`.
#[verifier::external_body]
pub(crate) fn is_ident_start(c: char) -> (b: bool)
    ensures
        b == ident_start(c),
        !is_ascii(c) ==> b == xid_start_beyond_ascii(c),
{
    chumsky::text::Char::is_ident_start(&c)
}

/// Calls `chumsky::text::Char::is_ident_continue` on a `char`, which is
/// `unicode_ident::is_xid_continue(c)`. Within ASCII, unicode-ident's table holds exactly the
/// letters, the digits and `_`; beyond it the result is named `xid_continue_beyond_ascii`.
#[verifier::external_body]
pub(crate) fn is_ident_continue(c: char) -> (b: bool)
    ensures
        b == ident_continue(c),
        !is_ascii(c) ==> b == xid_continue_beyond_ascii(c),
{
    chumsky::text::Char::is_ident_continue(&c)
}

/// Calls `chumsky::text::Char::is_whitespace` on a `char`, which is
/// `char::is_whitespace(c)`: true exactly of the code points with the Unicode `White_Space`
/// property, as `white_space` lists them.
#[verifier::external_body]
pub(crate) fn is_white_space(c: char) -> (b: bool)
    ensures
        b == white_space(c),
{
    chumsky::text::Char::is_whitespace(&c)
}

/// A decimal digit, as `char::is_digit(c, 10)` defines it.
pub open spec fn decimal_digit(c: char) -> bool {
    '0' <= c && c <= '9'
}

pub fn is_decimal_digit(c: char) -> (b: bool)
    ensures
        b == decimal_digit(c),
{
    '0' <= c && c <= '9'
}

/// A character that may appear in an identifier token: an ASCII letter, `_` or `?`.
pub open spec fn ident_char(c: char) -> bool {
    ('a' <= c && c <= 'z') || ('A' <= c && c <= 'Z') || c == '_' || c == '?'
}

pub fn is_ident_char(c: char) -> (b: bool)
    ensures
        b == ident_char(c),
{
    ('a' <= c && c <= 'z') || ('A' <= c && c <= 'Z') || c == '_' || c == '?'
}

/// The number of bytes in the UTF-8 encoding of `c`.
pub open spec fn utf8_width(c: char) -> nat {
    let v = c as u32;
    if v <= 0x7f {
        1
    } else if v <= 0x7ff {
        2
    } else if v <= 0xffff {
        3
    } else {
        4
    }
}

pub fn char_utf8_width(c: char) -> (w: usize)
    ensures
        w == utf8_width(c),
{
    let v = c as u32;
    if v <= 0x7f {
        1
    } else if v <= 0x7ff {
        2
    } else if v <= 0xffff {
        3
    } else {
        4
    }
}

/// The number of bytes in the UTF-8 encoding of `s`.
pub open spec fn utf8_len(s: Seq<char>) -> nat
    decreases s.len(),
{
    if s.len() == 0 {
        0
    } else {
        utf8_width(s[0]) + utf8_len(s.drop_first())
    }
}

/// The byte offset of the character at index `i` of `s`.
pub open spec fn byte_offset(s: Seq<char>, i: int) -> nat {
    utf8_len(s.take(i))
}

pub proof fn lemma_utf8_len_concat(a: Seq<char>, b: Seq<char>)
    ensures
        utf8_len(a + b) == utf8_len(a) + utf8_len(b),
    decreases a.len(),
{
    if a.len() > 0 {
        assert((a + b).drop_first() =~= a.drop_first() + b);
        lemma_utf8_len_concat(a.drop_first(), b);
    } else {
        assert(a + b =~= b);
    }
}

/// `utf8_len` is the length of vstd's `encode_utf8`.
pub proof fn lemma_utf8_len_is_encoding_len(s: Seq<char>)
    ensures
        utf8_len(s) == vstd::utf8::encode_utf8(s).len(),
    decreases s.len(),
{
    if s.len() > 0 {
        vstd::utf8::char_is_scalar(s[0]);
        lemma_utf8_len_is_encoding_len(s.drop_first());
    }
}

/// The byte offset after index `i + 1` adds the width of `s[i]`.
pub proof fn lemma_byte_offset_step(s: Seq<char>, i: int)
    requires
        0 <= i < s.len(),
    ensures
        byte_offset(s, i + 1) == byte_offset(s, i) + utf8_width(s[i]),
{
    assert(s.take(i + 1) =~= s.take(i) + seq![s[i]]);
    lemma_utf8_len_concat(s.take(i), seq![s[i]]);
    assert(seq![s[i]].drop_first() =~= Seq::<char>::empty());
    assert(utf8_len(seq![s[i]]) == utf8_width(s[i])) by {
        reveal_with_fuel(utf8_len, 2);
    }
}

/// Byte offsets grow with the index and are bounded by the whole length.
pub proof fn lemma_byte_offset_mono(s: Seq<char>, i: int, j: int)
    requires
        0 <= i <= j <= s.len(),
    ensures
        byte_offset(s, i) <= byte_offset(s, j) <= utf8_len(s),
{
    assert(s.take(j) =~= s.take(i) + s.subrange(i, j));
    lemma_utf8_len_concat(s.take(i), s.subrange(i, j));
    assert(s =~= s.take(j) + s.skip(j));
    lemma_utf8_len_concat(s.take(j), s.skip(j));
}

} // verus!
