//! The lexer: source text to spanned tokens.

use std::ops::Range;
use vstd::prelude::*;
use crate::paint::{
    bright_blue, bright_blue_code, bright_green, bright_green_code, bright_red, bright_red_code,
    painted, white, white_code,
};
use crate::charclass::{
    ascii_letter, byte_offset, char_utf8_width, decimal_digit, ident_char, ident_continue, ident_start, is_ascii,
    is_decimal_digit, is_ident_char, is_ident_continue, is_ident_start, is_white_space,
    lemma_byte_offset_mono, lemma_byte_offset_step, lemma_utf8_len_is_encoding_len, utf8_len, white_space,
};

verus! {

/// A token of the language. Numbers and identifiers keep the source text they were read
/// from; a string keeps its contents with the escapes `\\`, `\"` and `\n` resolved.
#[derive(Debug, Clone, PartialEq)]
pub enum Token<'src> {
    Num(&'src str),
    Str(String),
    Ident(&'src str),
    Padding,

    KwEach,
    KwIn,
    KvWhile,
    KwEnd,
    KwOn,
    KwDo,
    KwIf,
    KwElse,
    KwElseIf,
    KwWhere,
    KwBy,
    KwOrderBy,
    KwAsc,
    KwDesc,
    KwSelect,
    KwExtract,
    KwUpdate,
    KwFrom,
    KwInsert,
    KwWith,
    KwInto,
    KwSend,
    KwLocal,

    OpMinus,
    OpNot,
    OpPlus,
    OpMul,
    OpDiv,
    OpMod,
    OpPow,
    OpLt,
    OpGt,
    OpEq,
    OpAnd,
    OpOr,
    OpTilde,
    OpAt,

    OpSplit,
    OpFuse,
    OpLike,
    OpDict,
    OpTake,
    OpDrop,
    OpComma,

    ParenOpen,
    ParenClose,
    SquareOpen,
    SquareClose,
    Dot,
    Colon,
}

/// A value with the byte range of the source text it came from.
pub type Spanned<T> = (T, Range<usize>);

/// The lexer found no token at the character whose byte range is `span`.
#[derive(Debug, PartialEq)]
pub struct LexError {
    pub span: Range<usize>,
}

// ---------------------------------------------------------------------------
// The token grammar.

/// The single-character operator that `c` is.
pub open spec fn op_token<'a>(c: char) -> Option<Token<'a>> {
    match c {
        '-' => Some(Token::OpMinus),
        '!' => Some(Token::OpNot),
        '+' => Some(Token::OpPlus),
        '*' => Some(Token::OpMul),
        '/' => Some(Token::OpDiv),
        '%' => Some(Token::OpMod),
        '^' => Some(Token::OpPow),
        '<' => Some(Token::OpLt),
        '>' => Some(Token::OpGt),
        '=' => Some(Token::OpEq),
        '&' => Some(Token::OpAnd),
        '|' => Some(Token::OpOr),
        '~' => Some(Token::OpTilde),
        '@' => Some(Token::OpAt),
        ',' => Some(Token::OpComma),
        _ => None,
    }
}

/// The single-character separator that `c` is.
pub open spec fn sep_token<'a>(c: char) -> Option<Token<'a>> {
    match c {
        '(' => Some(Token::ParenOpen),
        ')' => Some(Token::ParenClose),
        '[' => Some(Token::SquareOpen),
        ']' => Some(Token::SquareClose),
        '.' => Some(Token::Dot),
        ':' => Some(Token::Colon),
        _ => None,
    }
}

/// The keyword (or word operator) that the identifier `w` is.
pub open spec fn keyword_token<'a>(w: Seq<char>) -> Option<Token<'a>> {
    if w == seq!['e', 'a', 'c', 'h'] {
        Some(Token::KwEach)
    } else if w == seq!['i', 'n'] {
        Some(Token::KwIn)
    } else if w == seq!['w', 'h', 'i', 'l', 'e'] {
        Some(Token::KvWhile)
    } else if w == seq!['e', 'n', 'd'] {
        Some(Token::KwEnd)
    } else if w == seq!['o', 'n'] {
        Some(Token::KwOn)
    } else if w == seq!['d', 'o'] {
        Some(Token::KwDo)
    } else if w == seq!['i', 'f'] {
        Some(Token::KwIf)
    } else if w == seq!['e', 'l', 's', 'e'] {
        Some(Token::KwElse)
    } else if w == seq!['e', 'l', 's', 'e', 'i', 'f'] {
        Some(Token::KwElseIf)
    } else if w == seq!['w', 'h', 'e', 'r', 'e'] {
        Some(Token::KwWhere)
    } else if w == seq!['b', 'y'] {
        Some(Token::KwBy)
    } else if w == seq!['o', 'r', 'd', 'e', 'r', 'b', 'y'] {
        Some(Token::KwOrderBy)
    } else if w == seq!['a', 's', 'c'] {
        Some(Token::KwAsc)
    } else if w == seq!['d', 'e', 's', 'c'] {
        Some(Token::KwDesc)
    } else if w == seq!['s', 'e', 'l', 'e', 'c', 't'] {
        Some(Token::KwSelect)
    } else if w == seq!['e', 'x', 't', 'r', 'a', 'c', 't'] {
        Some(Token::KwExtract)
    } else if w == seq!['u', 'p', 'd', 'a', 't', 'e'] {
        Some(Token::KwUpdate)
    } else if w == seq!['f', 'r', 'o', 'm'] {
        Some(Token::KwFrom)
    } else if w == seq!['i', 'n', 's', 'e', 'r', 't'] {
        Some(Token::KwInsert)
    } else if w == seq!['w', 'i', 't', 'h'] {
        Some(Token::KwWith)
    } else if w == seq!['i', 'n', 't', 'o'] {
        Some(Token::KwInto)
    } else if w == seq!['s', 'e', 'n', 'd'] {
        Some(Token::KwSend)
    } else if w == seq!['l', 'o', 'c', 'a', 'l'] {
        Some(Token::KwLocal)
    } else if w == seq!['s', 'p', 'l', 'i', 't'] {
        Some(Token::OpSplit)
    } else if w == seq!['f', 'u', 's', 'e'] {
        Some(Token::OpFuse)
    } else if w == seq!['l', 'i', 'k', 'e'] {
        Some(Token::OpLike)
    } else if w == seq!['d', 'i', 'c', 't'] {
        Some(Token::OpDict)
    } else if w == seq!['t', 'a', 'k', 'e'] {
        Some(Token::OpTake)
    } else if w == seq!['d', 'r', 'o', 'p'] {
        Some(Token::OpDrop)
    } else {
        None
    }
}

/// What the Unicode tables say of a character, as far as the lexer asks: whether it can
/// start an identifier, whether it can continue one, and whether it is white space.
#[derive(Debug, Clone, Copy, PartialEq, Eq, Structural)]
pub struct CharFlags {
    pub ident_start: bool,
    pub ident_continue: bool,
    pub white_space: bool,
}

/// The classification of each character of `s`, by chumsky's character predicates.
pub open spec fn flags_of(s: Seq<char>) -> Seq<CharFlags> {
    Seq::new(
        s.len(),
        |k: int| CharFlags { ident_start: ident_start(s[k]), ident_continue: ident_continue(s[k]), white_space: white_space(s[k]) },
    )
}

/// The character classes whose maximal runs the lexer reads.
#[derive(Clone, Copy)]
pub enum CharRun {
    /// ASCII letters, `_` and `?`.
    Ident,
    /// Characters that may continue a Unicode identifier.
    XidContinue,
    /// Decimal digits.
    Digit,
    /// White space.
    Space,
}

/// Whether the character at index `k` of `s`, classified by `f`, is in the class.
pub open spec fn in_run(class: CharRun, s: Seq<char>, f: Seq<CharFlags>, k: int) -> bool {
    match class {
        CharRun::Ident => ident_char(s[k]),
        CharRun::XidContinue => f[k].ident_continue,
        CharRun::Digit => decimal_digit(s[k]),
        CharRun::Space => f[k].white_space,
    }
}

/// The end of the maximal run of `class` characters that starts at index `i`.
pub open spec fn run_end(s: Seq<char>, f: Seq<CharFlags>, i: int, class: CharRun) -> int
    decreases s.len() - i,
{
    if 0 <= i < s.len() && in_run(class, s, f, i) {
        run_end(s, f, i + 1, class)
    } else {
        i
    }
}

/// The end of a decimal integer that starts with the digit at `i`: a lone `0`, or a
/// nonzero digit followed by any digits.
pub open spec fn int_end(s: Seq<char>, f: Seq<CharFlags>, i: int) -> int {
    if s[i] == '0' {
        i + 1
    } else {
        run_end(s, f, i + 1, CharRun::Digit)
    }
}

/// The end of a number that starts with the digit at `i`: an integer, then `.` and an
/// integer if a digit follows the dot.
pub open spec fn num_end(s: Seq<char>, f: Seq<CharFlags>, i: int) -> int {
    let j = int_end(s, f, i);
    if j + 1 < s.len() && s[j] == '.' && decimal_digit(s[j + 1]) {
        int_end(s, f, j + 1)
    } else {
        j
    }
}

/// Reads the body of a string literal from index `p` (just after the opening quote):
/// its contents, escapes resolved, and the index just after the closing quote.
pub open spec fn str_body(s: Seq<char>, p: int) -> Option<(Seq<char>, int)>
    decreases s.len() - p,
{
    if p < 0 || p >= s.len() {
        None
    } else if s[p] == '\\' && p + 1 < s.len() && s[p + 1] == '\\' {
        prepend_char('\\', str_body(s, p + 2))
    } else if s[p] == '\\' && p + 1 < s.len() && s[p + 1] == '"' {
        prepend_char('"', str_body(s, p + 2))
    } else if s[p] == '\\' && p + 1 < s.len() && s[p + 1] == 'n' {
        prepend_char('\n', str_body(s, p + 2))
    } else if s[p] != '"' {
        prepend_char(s[p], str_body(s, p + 1))
    } else {
        Some((seq![], p + 1))
    }
}

pub open spec fn prepend_char(c: char, r: Option<(Seq<char>, int)>) -> Option<(Seq<char>, int)> {
    prepend_chars(seq![c], r)
}

pub proof fn lemma_prepend_chars_assoc(a: Seq<char>, b: Seq<char>, r: Option<(Seq<char>, int)>)
    ensures
        prepend_chars(a, prepend_chars(b, r)) == prepend_chars(a + b, r),
{
    if let Some((body, e)) = r {
        assert(a + (b + body) =~= (a + b) + body);
    }
}

pub open spec fn prepend_chars(pre: Seq<char>, r: Option<(Seq<char>, int)>) -> Option<(Seq<char>, int)> {
    match r {
        Some((body, e)) => Some((pre + body, e)),
        None => None,
    }
}

/// A keyword at index `i`: the Unicode identifier that starts there, if it is a keyword.
pub open spec fn keyword_at<'a>(s: Seq<char>, f: Seq<CharFlags>, i: int) -> Option<(Token<'a>, int)> {
    if 0 <= i < s.len() && f[i].ident_start {
        let j = run_end(s, f, i + 1, CharRun::XidContinue);
        match keyword_token(s.subrange(i, j)) {
            Some(t) => Some((t, j)),
            None => None,
        }
    } else {
        None
    }
}

/// What a token of the source is, beside its position.
pub enum LexKind<'a> {
    /// A token without contents of its own (operators, separators, keywords, padding).
    Fixed(Token<'a>),
    Num,
    Ident,
    /// A string literal with these contents.
    Str(Seq<char>),
}

/// A token of the source, between character indices `start` and `end`.
pub struct Lexeme<'a> {
    pub kind: LexKind<'a>,
    pub start: int,
    pub end: int,
}

/// The token that starts at index `i`, trying the alternatives in order: operators,
/// keywords, separators, numbers, strings, identifiers, white space.
pub open spec fn next_lexeme<'a>(s: Seq<char>, f: Seq<CharFlags>, i: int) -> Option<Lexeme<'a>> {
    if i < 0 || i >= s.len() {
        None
    } else {
        let c = s[i];
        if op_token(c) is Some {
            Some(Lexeme { kind: LexKind::Fixed(op_token(c)->0), start: i, end: i + 1 })
        } else if keyword_at(s, f, i) is Some {
            let (t, j) = keyword_at(s, f, i)->0;
            Some(Lexeme { kind: LexKind::Fixed(t), start: i, end: j })
        } else if sep_token(c) is Some {
            Some(Lexeme { kind: LexKind::Fixed(sep_token(c)->0), start: i, end: i + 1 })
        } else if decimal_digit(c) {
            Some(Lexeme { kind: LexKind::Num, start: i, end: num_end(s, f, i) })
        } else if c == '"' && str_body(s, i + 1) is Some {
            let (body, e) = str_body(s, i + 1)->0;
            Some(Lexeme { kind: LexKind::Str(body), start: i, end: e })
        } else if ident_char(c) {
            Some(Lexeme { kind: LexKind::Ident, start: i, end: run_end(s, f, i + 1, CharRun::Ident) })
        } else if f[i].white_space {
            Some(Lexeme { kind: LexKind::Fixed(Token::Padding), start: i, end: run_end(s, f, i + 1, CharRun::Space) })
        } else {
            None
        }
    }
}

pub proof fn lemma_run_end_bounds(s: Seq<char>, f: Seq<CharFlags>, i: int, class: CharRun)
    requires
        0 <= i <= s.len(),
    ensures
        i <= run_end(s, f, i, class) <= s.len(),
        forall|k: int| i <= k < run_end(s, f, i, class) ==> #[trigger] in_run(class, s, f, k),
        run_end(s, f, i, class) < s.len() ==> !in_run(class, s, f, run_end(s, f, i, class)),
    decreases s.len() - i,
{
    if i < s.len() && in_run(class, s, f, i) {
        lemma_run_end_bounds(s, f, i + 1, class);
    }
}

pub proof fn lemma_str_body_bounds(s: Seq<char>, p: int)
    requires
        0 <= p,
    ensures
        str_body(s, p) matches Some((_, e)) ==> p < e <= s.len() && s[e - 1] == '"',
    decreases s.len() - p,
{
    if 0 <= p < s.len() {
        lemma_str_body_bounds(s, p + 1);
        if p + 1 < s.len() {
            lemma_str_body_bounds(s, p + 2);
        }
    }
}

/// Every token takes at least one character and ends inside the source.
pub proof fn lemma_next_lexeme_advances(s: Seq<char>, f: Seq<CharFlags>, i: int)
    ensures
        next_lexeme::<'_>(s, f, i) matches Some(lx) ==> lx.start == i && i < lx.end <= s.len(),
{
    if 0 <= i < s.len() {
        lemma_run_end_bounds(s, f, i + 1, CharRun::XidContinue);
        lemma_run_end_bounds(s, f, i + 1, CharRun::Ident);
        lemma_run_end_bounds(s, f, i + 1, CharRun::Space);
        lemma_run_end_bounds(s, f, i + 1, CharRun::Digit);
        lemma_str_body_bounds(s, i + 1);
        let j = int_end(s, f, i);
        if j + 1 < s.len() {
            lemma_run_end_bounds(s, f, j + 2, CharRun::Digit);
        }
    }
}

/// The tokens of the source from index `i` on, if the whole rest can be read as tokens.
pub open spec fn lex_from<'a>(s: Seq<char>, f: Seq<CharFlags>, i: int) -> Option<Seq<Lexeme<'a>>>
    decreases s.len() - i,
{
    if i < 0 || i >= s.len() {
        Some(seq![])
    } else {
        match next_lexeme::<'a>(s, f, i) {
            Some(lx) => {
                proof {
                    lemma_next_lexeme_advances(s, f, i);
                }
                match lex_from::<'a>(s, f, lx.end) {
                    Some(rest) => Some(seq![lx] + rest),
                    None => None,
                }
            },
            None => None,
        }
    }
}

/// The index of the first character, from `i` on, where no token starts.
pub open spec fn lex_fail(s: Seq<char>, f: Seq<CharFlags>, i: int) -> Option<int>
    decreases s.len() - i,
{
    if i < 0 || i >= s.len() {
        None
    } else {
        match next_lexeme::<'_>(s, f, i) {
            Some(lx) => {
                proof {
                    lemma_next_lexeme_advances(s, f, i);
                }
                lex_fail(s, f, lx.end)
            },
            None => Some(i),
        }
    }
}

/// `t` is the token that `lx` describes in the source `s`.
pub open spec fn token_matches<'a>(t: Token<'a>, lx: Lexeme<'a>, s: Seq<char>) -> bool {
    match lx.kind {
        LexKind::Fixed(f) => t == f,
        LexKind::Num => t matches Token::Num(x) && x@ == s.subrange(lx.start, lx.end),
        LexKind::Ident => t matches Token::Ident(x) && x@ == s.subrange(lx.start, lx.end),
        LexKind::Str(body) => t matches Token::Str(x) && x@ == body,
    }
}

/// `t` is the token `lx` of the source `s`, spanned by the bytes of its characters.
pub open spec fn spanned_matches<'a>(t: Spanned<Token<'a>>, lx: Lexeme<'a>, s: Seq<char>) -> bool {
    &&& token_matches(t.0, lx, s)
    &&& t.1.start == byte_offset(s, lx.start)
    &&& t.1.end == byte_offset(s, lx.end)
}

/// `toks` are the tokens of the whole source `s`.
pub open spec fn lexes_to<'a>(s: Seq<char>, f: Seq<CharFlags>, toks: Seq<Spanned<Token<'a>>>) -> bool {
    match lex_from::<'a>(s, f, 0) {
        Some(items) => {
            &&& items.len() == toks.len()
            &&& forall|k: int| 0 <= k < toks.len() ==> spanned_matches(#[trigger] toks[k], items[k], s)
        },
        None => false,
    }
}

// ---------------------------------------------------------------------------
// The lexer.

fn op_token_of(c: char) -> (t: Option<Token<'static>>)
    ensures
        t == op_token::<'static>(c),
{
    match c {
        '-' => Some(Token::OpMinus),
        '!' => Some(Token::OpNot),
        '+' => Some(Token::OpPlus),
        '*' => Some(Token::OpMul),
        '/' => Some(Token::OpDiv),
        '%' => Some(Token::OpMod),
        '^' => Some(Token::OpPow),
        '<' => Some(Token::OpLt),
        '>' => Some(Token::OpGt),
        '=' => Some(Token::OpEq),
        '&' => Some(Token::OpAnd),
        '|' => Some(Token::OpOr),
        '~' => Some(Token::OpTilde),
        '@' => Some(Token::OpAt),
        ',' => Some(Token::OpComma),
        _ => None,
    }
}

fn sep_token_of(c: char) -> (t: Option<Token<'static>>)
    ensures
        t == sep_token::<'static>(c),
{
    match c {
        '(' => Some(Token::ParenOpen),
        ')' => Some(Token::ParenClose),
        '[' => Some(Token::SquareOpen),
        ']' => Some(Token::SquareClose),
        '.' => Some(Token::Dot),
        ':' => Some(Token::Colon),
        _ => None,
    }
}

/// Whether the characters `s[i..j]` are `kw`.
fn word_is(s: &Vec<char>, i: usize, j: usize, kw: &[char]) -> (b: bool)
    requires
        i <= j <= s.len(),
    ensures
        b == (s@.subrange(i as int, j as int) == kw@),
{
    if j - i != kw.len() {
        return false;
    }
    let mut k: usize = 0;
    while k < kw.len()
        invariant
            i <= j <= s.len(),
            j - i == kw.len(),
            k <= kw.len(),
            forall|m: int| 0 <= m < k ==> s@[i + m] == kw@[m],
        decreases kw.len() - k,
    {
        if s[i + k] != kw[k] {
            assert(s@.subrange(i as int, j as int)[k as int] != kw@[k as int]);
            return false;
        }
        k = k + 1;
    }
    assert(s@.subrange(i as int, j as int) =~= kw@);
    true
}

/// The keyword that `s[i..j]` is.
fn keyword_of(s: &Vec<char>, i: usize, j: usize) -> (t: Option<Token<'static>>)
    requires
        i <= j <= s.len(),
    ensures
        t == keyword_token::<'static>(s@.subrange(i as int, j as int)),
{
    if word_is(s, i, j, &['e', 'a', 'c', 'h']) {
        return Some(Token::KwEach);
    }
    if word_is(s, i, j, &['i', 'n']) {
        return Some(Token::KwIn);
    }
    if word_is(s, i, j, &['w', 'h', 'i', 'l', 'e']) {
        return Some(Token::KvWhile);
    }
    if word_is(s, i, j, &['e', 'n', 'd']) {
        return Some(Token::KwEnd);
    }
    if word_is(s, i, j, &['o', 'n']) {
        return Some(Token::KwOn);
    }
    if word_is(s, i, j, &['d', 'o']) {
        return Some(Token::KwDo);
    }
    if word_is(s, i, j, &['i', 'f']) {
        return Some(Token::KwIf);
    }
    if word_is(s, i, j, &['e', 'l', 's', 'e']) {
        return Some(Token::KwElse);
    }
    if word_is(s, i, j, &['e', 'l', 's', 'e', 'i', 'f']) {
        return Some(Token::KwElseIf);
    }
    if word_is(s, i, j, &['w', 'h', 'e', 'r', 'e']) {
        return Some(Token::KwWhere);
    }
    if word_is(s, i, j, &['b', 'y']) {
        return Some(Token::KwBy);
    }
    if word_is(s, i, j, &['o', 'r', 'd', 'e', 'r', 'b', 'y']) {
        return Some(Token::KwOrderBy);
    }
    if word_is(s, i, j, &['a', 's', 'c']) {
        return Some(Token::KwAsc);
    }
    if word_is(s, i, j, &['d', 'e', 's', 'c']) {
        return Some(Token::KwDesc);
    }
    if word_is(s, i, j, &['s', 'e', 'l', 'e', 'c', 't']) {
        return Some(Token::KwSelect);
    }
    if word_is(s, i, j, &['e', 'x', 't', 'r', 'a', 'c', 't']) {
        return Some(Token::KwExtract);
    }
    if word_is(s, i, j, &['u', 'p', 'd', 'a', 't', 'e']) {
        return Some(Token::KwUpdate);
    }
    if word_is(s, i, j, &['f', 'r', 'o', 'm']) {
        return Some(Token::KwFrom);
    }
    if word_is(s, i, j, &['i', 'n', 's', 'e', 'r', 't']) {
        return Some(Token::KwInsert);
    }
    if word_is(s, i, j, &['w', 'i', 't', 'h']) {
        return Some(Token::KwWith);
    }
    if word_is(s, i, j, &['i', 'n', 't', 'o']) {
        return Some(Token::KwInto);
    }
    if word_is(s, i, j, &['s', 'e', 'n', 'd']) {
        return Some(Token::KwSend);
    }
    if word_is(s, i, j, &['l', 'o', 'c', 'a', 'l']) {
        return Some(Token::KwLocal);
    }
    if word_is(s, i, j, &['s', 'p', 'l', 'i', 't']) {
        return Some(Token::OpSplit);
    }
    if word_is(s, i, j, &['f', 'u', 's', 'e']) {
        return Some(Token::OpFuse);
    }
    if word_is(s, i, j, &['l', 'i', 'k', 'e']) {
        return Some(Token::OpLike);
    }
    if word_is(s, i, j, &['d', 'i', 'c', 't']) {
        return Some(Token::OpDict);
    }
    if word_is(s, i, j, &['t', 'a', 'k', 'e']) {
        return Some(Token::OpTake);
    }
    if word_is(s, i, j, &['d', 'r', 'o', 'p']) {
        return Some(Token::OpDrop);
    }
    None
}

fn in_run_exec(class: CharRun, s: &Vec<char>, flags: &[CharFlags], k: usize) -> (b: bool)
    requires
        k < s@.len(),
        flags@.len() == s@.len(),
    ensures
        b == in_run(class, s@, flags@, k as int),
{
    match class {
        CharRun::Ident => is_ident_char(s[k]),
        CharRun::XidContinue => flags[k].ident_continue,
        CharRun::Digit => is_decimal_digit(s[k]),
        CharRun::Space => flags[k].white_space,
    }
}

fn scan_run(s: &Vec<char>, flags: &[CharFlags], i: usize, class: CharRun) -> (j: usize)
    requires
        i <= s.len(),
        flags@.len() == s@.len(),
    ensures
        j == run_end(s@, flags@, i as int, class),
        i <= j <= s.len(),
{
    let mut j = i;
    while j < s.len() && in_run_exec(class, s, flags, j)
        invariant
            i <= j <= s.len(),
            flags@.len() == s@.len(),
            run_end(s@, flags@, i as int, class) == run_end(s@, flags@, j as int, class),
        decreases s.len() - j,
    {
        j = j + 1;
    }
    j
}

fn scan_int(s: &Vec<char>, flags: &[CharFlags], i: usize) -> (j: usize)
    requires
        i < s.len(),
        flags@.len() == s@.len(),
    ensures
        j == int_end(s@, flags@, i as int),
        i < j <= s.len(),
{
    if s[i] == '0' {
        i + 1
    } else {
        scan_run(s, flags, i + 1, CharRun::Digit)
    }
}

fn scan_num(s: &Vec<char>, flags: &[CharFlags], i: usize) -> (j: usize)
    requires
        i < s.len(),
        flags@.len() == s@.len(),
    ensures
        j == num_end(s@, flags@, i as int),
        i < j <= s.len(),
{
    let j = scan_int(s, flags, i);
    if j < s.len() && j + 1 < s.len() && s[j] == '.' && is_decimal_digit(s[j + 1]) {
        scan_int(s, flags, j + 1)
    } else {
        j
    }
}

/// Reads a string body from index `start`, just after the opening quote.
fn scan_str(src: &str, s: &Vec<char>, start: usize) -> (r: Option<(String, usize)>)
    requires
        s@ == src@,
        start <= s.len(),
    ensures
        match r {
            Some((body, e)) => str_body(s@, start as int) == Some((body@, e as int)),
            None => str_body(s@, start as int) is None,
        },
{
    let mut acc = String::new();
    let mut p = start;
    proof {
        assert(acc@ + Seq::<char>::empty() =~= Seq::<char>::empty());
        assert(forall|b: Seq<char>| Seq::<char>::empty() + b =~= b);
        reveal_strlit("\\");
        reveal_strlit("\"");
        reveal_strlit("\n");
    }
    while p < s.len()
        invariant
            start <= p <= s.len(),
            s@ == src@,
            str_body(s@, start as int) == prepend_chars(acc@, str_body(s@, p as int)),
        decreases s.len() - p,
    {
        let ghost old_acc = acc@;
        let ghost old_p = p;
        let ghost ch: char;
        if s[p] == '\\' && p + 1 < s.len() && s[p + 1] == '\\' {
            acc.append("\\");
            proof { ch = '\\'; reveal_strlit("\\"); }
            p = p + 2;
        } else if s[p] == '\\' && p + 1 < s.len() && s[p + 1] == '"' {
            acc.append("\"");
            proof { ch = '"'; reveal_strlit("\""); }
            p = p + 2;
        } else if s[p] == '\\' && p + 1 < s.len() && s[p + 1] == 'n' {
            acc.append("\n");
            proof { ch = '\n'; reveal_strlit("\n"); }
            p = p + 2;
        } else if s[p] != '"' {
            let one = src.substring_char(p, p + 1);
            assert(one@ =~= seq![s@[p as int]]);
            acc.append(one);
            proof { ch = s@[old_p as int]; }
            p = p + 1;
        } else {
            assert(acc@ + Seq::<char>::empty() =~= acc@);
            return Some((acc, p + 1));
        }
        proof {
            assert(str_body(s@, old_p as int) == prepend_char(ch, str_body(s@, p as int)));
            lemma_prepend_chars_assoc(old_acc, seq![ch], str_body(s@, p as int));
            assert(acc@ =~= old_acc + seq![ch]);
        }
    }
    None
}

/// The token that starts at index `i`, and the index where it ends.
fn next_token<'src>(src: &'src str, s: &Vec<char>, flags: &[CharFlags], i: usize) -> (r: Option<(Token<'src>, usize)>)
    requires
        s@ == src@,
        flags@.len() == s@.len(),
        i < s.len(),
    ensures
        match r {
            Some((t, j)) => next_lexeme::<'src>(s@, flags@, i as int) matches Some(lx) && lx.end == j
                && token_matches(t, lx, s@),
            None => next_lexeme::<'src>(s@, flags@, i as int) is None,
        },
{
    proof {
        lemma_next_lexeme_advances(s@, flags@, i as int);
    }
    let c = s[i];
    if let Some(t) = op_token_of(c) {
        return Some((t, i + 1));
    }
    if flags[i].ident_start {
        let j = scan_run(s, flags, i + 1, CharRun::XidContinue);
        if let Some(t) = keyword_of(s, i, j) {
            return Some((t, j));
        }
    }
    if let Some(t) = sep_token_of(c) {
        return Some((t, i + 1));
    }
    if is_decimal_digit(c) {
        let j = scan_num(s, flags, i);
        return Some((Token::Num(src.substring_char(i, j)), j));
    }
    if c == '"' {
        if let Some((body, e)) = scan_str(src, s, i + 1) {
            return Some((Token::Str(body), e));
        }
    }
    if is_ident_char(c) {
        let j = scan_run(s, flags, i + 1, CharRun::Ident);
        return Some((Token::Ident(src.substring_char(i, j)), j));
    }
    if flags[i].white_space {
        let j = scan_run(s, flags, i + 1, CharRun::Space);
        return Some((Token::Padding, j));
    }
    None
}

/// The characters of `src`, in order.
fn chars_of(src: &str) -> (v: Vec<char>)
    ensures
        v@ == src@,
{
    let n = src.unicode_len();
    let mut v: Vec<char> = Vec::new();
    let mut i: usize = 0;
    while i < n
        invariant
            n == src@.len(),
            i <= n,
            v@ == src@.take(i as int),
        decreases n - i,
    {
        v.push(src.get_char(i));
        i = i + 1;
        assert(v@ =~= src@.take(i as int));
    }
    assert(src@.take(n as int) =~= src@);
    v
}

/// The byte offset of index `j`, given the byte offset `off` of index `i <= j`.
fn advance_offset(src: &str, s: &Vec<char>, i: usize, j: usize, off: usize) -> (r: usize)
    requires
        s@ == src@,
        i <= j <= s.len(),
        off == byte_offset(s@, i as int),
    ensures
        r == byte_offset(s@, j as int),
{
    proof {
        lemma_utf8_len_is_encoding_len(s@);
        lemma_byte_offset_mono(s@, j as int, s@.len() as int);
        assert(s@.take(s@.len() as int) =~= s@);
    }
    let n: usize = src.as_bytes().len();
    let mut k = i;
    let mut o = off;
    while k < j
        invariant
            i <= k <= j <= s.len(),
            o == byte_offset(s@, k as int),
            byte_offset(s@, j as int) <= n,
        decreases j - k,
    {
        proof {
            lemma_byte_offset_step(s@, k as int);
            lemma_byte_offset_mono(s@, k as int + 1, j as int);
        }
        o = o + char_utf8_width(s[k]);
        k = k + 1;
    }
    o
}

/// What the Unicode tables say of each character of `src`, as the lexer asks it.
pub fn classify(src: &str) -> (flags: Vec<CharFlags>)
    ensures
        flags@ == flags_of(src@),
{
    let s = chars_of(src);
    let mut flags: Vec<CharFlags> = Vec::new();
    let mut k: usize = 0;
    while k < s.len()
        invariant
            s@ == src@,
            k <= s@.len(),
            flags@ == flags_of(src@).take(k as int),
        decreases s@.len() - k,
    {
        let c = s[k];
        flags.push(CharFlags {
            ident_start: is_ident_start(c),
            ident_continue: is_ident_continue(c),
            white_space: is_white_space(c),
        });
        k = k + 1;
        assert(flags@ =~= flags_of(src@).take(k as int));
    }
    assert(flags_of(src@).take(s@.len() as int) =~= flags_of(src@));
    flags
}

/// Reads the whole of `src` as tokens, each with the byte range it spans, where
/// `flags[k]` classifies the character at index `k`. Fails at the first character
/// where no token starts.
pub fn lex_classified<'src>(src: &'src str, flags: &[CharFlags]) -> (res: Result<Vec<Spanned<Token<'src>>>, LexError>)
    requires
        flags@.len() == src@.len(),
    ensures
        res is Ok <==> lex_from::<'src>(src@, flags@, 0) is Some,
        res matches Ok(toks) ==> lexes_to(src@, flags@, toks@),
        res matches Err(e) ==> lex_fail(src@, flags@, 0) matches Some(p)
            && e.span.start == byte_offset(src@, p)
            && e.span.end == byte_offset(src@, p + 1),
{
    let s = chars_of(src);
    let mut toks: Vec<Spanned<Token<'src>>> = Vec::new();
    let mut i: usize = 0;
    let mut off: usize = 0;
    let ghost mut done: Seq<Lexeme<'src>> = seq![];
    proof {
        assert(s@.take(0) =~= Seq::<char>::empty());
    }
    while i < s.len()
        invariant
            s@ == src@,
            flags@.len() == s@.len(),
            i <= s.len(),
            off == byte_offset(s@, i as int),
            done.len() == toks@.len(),
            forall|k: int| 0 <= k < toks@.len() ==> spanned_matches(#[trigger] toks@[k], done[k], s@),
            lex_from::<'src>(s@, flags@, 0) == match lex_from::<'src>(s@, flags@, i as int) {
                Some(rest) => Some(done + rest),
                None => None::<Seq<Lexeme<'src>>>,
            },
            lex_fail(s@, flags@, 0) == lex_fail(s@, flags@, i as int),
        decreases s.len() - i,
    {
        match next_token(src, &s, flags, i) {
            Some((t, j)) => {
                let ghost lx = next_lexeme::<'src>(s@, flags@, i as int)->0;
                proof {
                    lemma_next_lexeme_advances(s@, flags@, i as int);
                }
                let off_j = advance_offset(src, &s, i, j, off);
                toks.push((t, Range { start: off, end: off_j }));
                proof {
                    let ghost old_done = done;
                    done = done.push(lx);
                    match lex_from::<'src>(s@, flags@, j as int) {
                        Some(rest) => {
                            assert(old_done + (seq![lx] + rest) =~= done + rest);
                        },
                        None => {},
                    }
                }
                i = j;
                off = off_j;
            },
            None => {
                let off_next = advance_offset(src, &s, i, i + 1, off);
                return Err(LexError { span: Range { start: off, end: off_next } });
            },
        }
    }
    assert(done + Seq::<Lexeme<'src>>::empty() =~= done);
    Ok(toks)
}

/// Reads the whole of `src` as tokens, each with the byte range it spans. Fails at the
/// first character where no token starts. That is also where chumsky's combinators report
/// such a failure: the last alternative, white space, is read with `try_map`, which drops
/// the failures recorded before it (such as an unterminated string's, at the end of input)
/// and records its own at that character.
pub fn lexer<'src>(src: &'src str) -> (res: Result<Vec<Spanned<Token<'src>>>, LexError>)
    ensures
        res is Ok <==> lex_from::<'src>(src@, flags_of(src@), 0) is Some,
        res matches Ok(toks) ==> lexes_to(src@, flags_of(src@), toks@),
        res matches Err(e) ==> lex_fail(src@, flags_of(src@), 0) matches Some(p)
            && e.span.start == byte_offset(src@, p)
            && e.span.end == byte_offset(src@, p + 1),
{
    let flags = classify(src);
    lex_classified(src, flags.as_slice())
}

// ---------------------------------------------------------------------------
// Classifying and printing tokens.

/// Keywords.
pub open spec fn is_kw_token(t: Token) -> bool {
    t is KwEach || t is KwIn || t is KvWhile || t is KwEnd || t is KwOn || t is KwDo || t is KwIf || t is KwElse || t is KwElseIf || t is KwWhere || t is KwBy || t is KwOrderBy || t is KwAsc || t is KwDesc || t is KwSelect || t is KwExtract || t is KwUpdate || t is KwFrom || t is KwInsert || t is KwWith || t is KwInto || t is KwSend || t is KwLocal
}

/// Operators, symbolic and named.
pub open spec fn is_op_token(t: Token) -> bool {
    t is OpMinus || t is OpNot || t is OpPlus || t is OpMul || t is OpDiv || t is OpMod || t is OpPow || t is OpLt || t is OpGt || t is OpEq || t is OpAnd || t is OpOr || t is OpTilde || t is OpAt || t is OpComma || t is OpSplit || t is OpFuse || t is OpLike || t is OpDict || t is OpTake || t is OpDrop
}

/// Separators.
pub open spec fn is_sep_token(t: Token) -> bool {
    t is ParenOpen || t is ParenClose || t is SquareOpen || t is SquareClose || t is Dot || t is Colon
}

/// The text a token prints as: keywords, operators and separators as written, numbers and
/// identifiers as their source text, strings as their contents, padding as nothing.
pub open spec fn token_text(t: Token) -> Seq<char> {
    match t {
        Token::Num(n) => n@,
        Token::Str(s) => s@,
        Token::Ident(s) => s@,
        Token::Padding => seq![],
        Token::KwEach => seq!['e', 'a', 'c', 'h'],
        Token::KwIn => seq!['i', 'n'],
        Token::KvWhile => seq!['w', 'h', 'i', 'l', 'e'],
        Token::KwEnd => seq!['e', 'n', 'd'],
        Token::KwOn => seq!['o', 'n'],
        Token::KwDo => seq!['d', 'o'],
        Token::KwIf => seq!['i', 'f'],
        Token::KwElse => seq!['e', 'l', 's', 'e'],
        Token::KwElseIf => seq!['e', 'l', 's', 'e', 'i', 'f'],
        Token::KwWhere => seq!['w', 'h', 'e', 'r', 'e'],
        Token::KwBy => seq!['b', 'y'],
        Token::KwOrderBy => seq!['o', 'r', 'd', 'e', 'r', 'b', 'y'],
        Token::KwAsc => seq!['a', 's', 'c'],
        Token::KwDesc => seq!['d', 'e', 's', 'c'],
        Token::KwSelect => seq!['s', 'e', 'l', 'e', 'c', 't'],
        Token::KwExtract => seq!['e', 'x', 't', 'r', 'a', 'c', 't'],
        Token::KwUpdate => seq!['u', 'p', 'd', 'a', 't', 'e'],
        Token::KwFrom => seq!['f', 'r', 'o', 'm'],
        Token::KwInsert => seq!['i', 'n', 's', 'e', 'r', 't'],
        Token::KwWith => seq!['w', 'i', 't', 'h'],
        Token::KwInto => seq!['i', 'n', 't', 'o'],
        Token::KwSend => seq!['s', 'e', 'n', 'd'],
        Token::KwLocal => seq!['l', 'o', 'c', 'a', 'l'],
        Token::OpSplit => seq!['s', 'p', 'l', 'i', 't'],
        Token::OpFuse => seq!['f', 'u', 's', 'e'],
        Token::OpLike => seq!['l', 'i', 'k', 'e'],
        Token::OpDict => seq!['d', 'i', 'c', 't'],
        Token::OpTake => seq!['t', 'a', 'k', 'e'],
        Token::OpDrop => seq!['d', 'r', 'o', 'p'],
        Token::OpMinus => seq!['-'],
        Token::OpNot => seq!['!'],
        Token::OpPlus => seq!['+'],
        Token::OpMul => seq!['*'],
        Token::OpDiv => seq!['/'],
        Token::OpMod => seq!['%'],
        Token::OpPow => seq!['^'],
        Token::OpLt => seq!['<'],
        Token::OpGt => seq!['>'],
        Token::OpEq => seq!['='],
        Token::OpAnd => seq!['&'],
        Token::OpOr => seq!['|'],
        Token::OpTilde => seq!['~'],
        Token::OpAt => seq!['@'],
        Token::OpComma => seq![','],
        Token::ParenOpen => seq!['('],
        Token::ParenClose => seq![')'],
        Token::SquareOpen => seq!['['],
        Token::SquareClose => seq![']'],
        Token::Dot => seq!['.'],
        Token::Colon => seq![':'],
    }
}

impl<'src> Token<'src> {
    pub fn is_sep(&self) -> (b: bool)
        ensures
            b == is_sep_token(*self),
    {
        match self {
            Token::ParenOpen | Token::ParenClose | Token::SquareOpen | Token::SquareClose | Token::Dot | Token::Colon => true,
            _ => false,
        }
    }

    pub fn is_op(&self) -> (b: bool)
        ensures
            b == is_op_token(*self),
    {
        match self {
            Token::OpMinus | Token::OpNot | Token::OpPlus | Token::OpMul | Token::OpDiv | Token::OpMod | Token::OpPow | Token::OpLt | Token::OpGt | Token::OpEq | Token::OpAnd | Token::OpOr | Token::OpTilde | Token::OpAt | Token::OpComma | Token::OpSplit | Token::OpFuse | Token::OpLike | Token::OpDict | Token::OpTake | Token::OpDrop => true,
            _ => false,
        }
    }

    pub fn is_kw(&self) -> (b: bool)
        ensures
            b == is_kw_token(*self),
    {
        match self {
            Token::KwEach | Token::KwIn | Token::KvWhile | Token::KwEnd | Token::KwOn | Token::KwDo | Token::KwIf | Token::KwElse | Token::KwElseIf | Token::KwWhere | Token::KwBy | Token::KwOrderBy | Token::KwAsc | Token::KwDesc | Token::KwSelect | Token::KwExtract | Token::KwUpdate | Token::KwFrom | Token::KwInsert | Token::KwWith | Token::KwInto | Token::KwSend | Token::KwLocal => true,
            _ => false,
        }
    }

    /// The text this token prints as.
    pub fn to_text(&self) -> (s: String)
        ensures
            s@ == token_text(*self),
    {
        let lit: &str = match self {
            Token::Num(n) => n,
            Token::Str(s) => s.as_str(),
            Token::Ident(s) => s,
            Token::Padding => {
                proof {
                    reveal_strlit("");
                }
                ""
            },
            Token::KwEach => {
                proof {
                    reveal_strlit("each");
                }
                "each"
            },
            Token::KwIn => {
                proof {
                    reveal_strlit("in");
                }
                "in"
            },
            Token::KvWhile => {
                proof {
                    reveal_strlit("while");
                }
                "while"
            },
            Token::KwEnd => {
                proof {
                    reveal_strlit("end");
                }
                "end"
            },
            Token::KwOn => {
                proof {
                    reveal_strlit("on");
                }
                "on"
            },
            Token::KwDo => {
                proof {
                    reveal_strlit("do");
                }
                "do"
            },
            Token::KwIf => {
                proof {
                    reveal_strlit("if");
                }
                "if"
            },
            Token::KwElse => {
                proof {
                    reveal_strlit("else");
                }
                "else"
            },
            Token::KwElseIf => {
                proof {
                    reveal_strlit("elseif");
                }
                "elseif"
            },
            Token::KwWhere => {
                proof {
                    reveal_strlit("where");
                }
                "where"
            },
            Token::KwBy => {
                proof {
                    reveal_strlit("by");
                }
                "by"
            },
            Token::KwOrderBy => {
                proof {
                    reveal_strlit("orderby");
                }
                "orderby"
            },
            Token::KwAsc => {
                proof {
                    reveal_strlit("asc");
                }
                "asc"
            },
            Token::KwDesc => {
                proof {
                    reveal_strlit("desc");
                }
                "desc"
            },
            Token::KwSelect => {
                proof {
                    reveal_strlit("select");
                }
                "select"
            },
            Token::KwExtract => {
                proof {
                    reveal_strlit("extract");
                }
                "extract"
            },
            Token::KwUpdate => {
                proof {
                    reveal_strlit("update");
                }
                "update"
            },
            Token::KwFrom => {
                proof {
                    reveal_strlit("from");
                }
                "from"
            },
            Token::KwInsert => {
                proof {
                    reveal_strlit("insert");
                }
                "insert"
            },
            Token::KwWith => {
                proof {
                    reveal_strlit("with");
                }
                "with"
            },
            Token::KwInto => {
                proof {
                    reveal_strlit("into");
                }
                "into"
            },
            Token::KwSend => {
                proof {
                    reveal_strlit("send");
                }
                "send"
            },
            Token::KwLocal => {
                proof {
                    reveal_strlit("local");
                }
                "local"
            },
            Token::OpSplit => {
                proof {
                    reveal_strlit("split");
                }
                "split"
            },
            Token::OpFuse => {
                proof {
                    reveal_strlit("fuse");
                }
                "fuse"
            },
            Token::OpLike => {
                proof {
                    reveal_strlit("like");
                }
                "like"
            },
            Token::OpDict => {
                proof {
                    reveal_strlit("dict");
                }
                "dict"
            },
            Token::OpTake => {
                proof {
                    reveal_strlit("take");
                }
                "take"
            },
            Token::OpDrop => {
                proof {
                    reveal_strlit("drop");
                }
                "drop"
            },
            Token::OpMinus => {
                proof {
                    reveal_strlit("-");
                }
                "-"
            },
            Token::OpNot => {
                proof {
                    reveal_strlit("!");
                }
                "!"
            },
            Token::OpPlus => {
                proof {
                    reveal_strlit("+");
                }
                "+"
            },
            Token::OpMul => {
                proof {
                    reveal_strlit("*");
                }
                "*"
            },
            Token::OpDiv => {
                proof {
                    reveal_strlit("/");
                }
                "/"
            },
            Token::OpMod => {
                proof {
                    reveal_strlit("%");
                }
                "%"
            },
            Token::OpPow => {
                proof {
                    reveal_strlit("^");
                }
                "^"
            },
            Token::OpLt => {
                proof {
                    reveal_strlit("<");
                }
                "<"
            },
            Token::OpGt => {
                proof {
                    reveal_strlit(">");
                }
                ">"
            },
            Token::OpEq => {
                proof {
                    reveal_strlit("=");
                }
                "="
            },
            Token::OpAnd => {
                proof {
                    reveal_strlit("&");
                }
                "&"
            },
            Token::OpOr => {
                proof {
                    reveal_strlit("|");
                }
                "|"
            },
            Token::OpTilde => {
                proof {
                    reveal_strlit("~");
                }
                "~"
            },
            Token::OpAt => {
                proof {
                    reveal_strlit("@");
                }
                "@"
            },
            Token::OpComma => {
                proof {
                    reveal_strlit(",");
                }
                ","
            },
            Token::ParenOpen => {
                proof {
                    reveal_strlit("(");
                }
                "("
            },
            Token::ParenClose => {
                proof {
                    reveal_strlit(")");
                }
                ")"
            },
            Token::SquareOpen => {
                proof {
                    reveal_strlit("[");
                }
                "["
            },
            Token::SquareClose => {
                proof {
                    reveal_strlit("]");
                }
                "]"
            },
            Token::Dot => {
                proof {
                    reveal_strlit(".");
                }
                "."
            },
            Token::Colon => {
                proof {
                    reveal_strlit(":");
                }
                ":"
            },
        };
        String::from_str(lit)
    }

    /// The source text `src` of this token, painted by its class: keywords bright red,
    /// operators and numbers bright blue, separators white, strings bright green,
    /// identifiers and padding as they are.
    pub fn color(&self, src: &str) -> (s: String)
        ensures
            is_kw_token(*self) ==> painted(s@, src@, bright_red_code()),
            is_op_token(*self) ==> painted(s@, src@, bright_blue_code()),
            is_sep_token(*self) ==> painted(s@, src@, white_code()),
            *self is Num ==> painted(s@, src@, bright_blue_code()),
            *self is Str ==> painted(s@, src@, bright_green_code()),
            *self is Ident || *self is Padding ==> s@ == src@,
    {
        if self.is_kw() {
            bright_red(src)
        } else if self.is_op() {
            bright_blue(src)
        } else if self.is_sep() {
            white(src)
        } else {
            match self {
                Token::Num(_) => bright_blue(src),
                Token::Str(_) => bright_green(src),
                Token::Ident(_) => String::from_str(src),
                Token::Padding => String::from_str(src),
                _ => {
                    assert(false);
                    String::new()
                },
            }
        }
    }
}

// ---------------------------------------------------------------------------
// Laws of the lexer.

/// The tokens read from index `i` start there, follow one another without gap, and end
/// at the end of the source.
pub proof fn lemma_lex_from_tiles<'a>(s: Seq<char>, f: Seq<CharFlags>, i: int)
    requires
        0 <= i <= s.len(),
        lex_from::<'a>(s, f, i) is Some,
    ensures
        ({
            let items = lex_from::<'a>(s, f, i)->0;
            &&& (items.len() == 0 <==> i == s.len())
            &&& items.len() > 0 ==> items[0].start == i && items[items.len() - 1].end == s.len()
            &&& forall|k: int| 0 <= k < items.len() ==> #[trigger] items[k].start < items[k].end
            &&& forall|k: int| 0 <= k < items.len() - 1 ==> #[trigger] items[k].end == items[k + 1].start
            &&& forall|k: int| 0 <= k < items.len() ==> next_lexeme::<'a>(s, f, items[k].start) == Some(#[trigger] items[k])
        }),
    decreases s.len() - i,
{
    if i < s.len() {
        let lx = next_lexeme::<'a>(s, f, i)->0;
        lemma_next_lexeme_advances(s, f, i);
        lemma_lex_from_tiles(s, f, lx.end);
        let rest = lex_from::<'a>(s, f, lx.end)->0;
        let items = lex_from::<'a>(s, f, i)->0;
        assert(items == seq![lx] + rest);
        assert forall|k: int| 0 <= k < items.len() - 1 implies #[trigger] items[k].end == items[k + 1].start by {
            if k > 0 {
                assert(items[k] == rest[k - 1]);
                assert(items[k + 1] == rest[k]);
            }
        }
        assert forall|k: int| 0 <= k < items.len() implies next_lexeme::<'a>(s, f, items[k].start) == Some(#[trigger] items[k]) by {
            if k > 0 {
                assert(items[k] == rest[k - 1]);
            }
        }
    }
}

/// The tokens of a source tile its bytes: the first starts at byte 0, each starts where
/// the one before it ends, each spans at least one byte, and the last ends at the source's
/// byte length. There are no tokens exactly when the source is empty.
pub proof fn lemma_tokens_tile_source<'a>(s: Seq<char>, f: Seq<CharFlags>, toks: Seq<Spanned<Token<'a>>>)
    requires
        lexes_to(s, f, toks),
    ensures
        toks.len() == 0 <==> s.len() == 0,
        toks.len() > 0 ==> toks[0].1.start == 0 && toks[toks.len() - 1].1.end == vstd::utf8::encode_utf8(s).len(),
        forall|k: int| 0 <= k < toks.len() ==> #[trigger] toks[k].1.start < toks[k].1.end,
        forall|k: int| 0 <= k < toks.len() - 1 ==> #[trigger] toks[k].1.end == toks[k + 1].1.start,
{
    lemma_lex_from_tiles(s, f, 0);
    lemma_utf8_len_is_encoding_len(s);
    let items = lex_from::<'a>(s, f, 0)->0;
    assert(s.take(0) =~= Seq::<char>::empty());
    assert(s.take(s.len() as int) =~= s);
    assert forall|k: int| 0 <= k < toks.len() implies #[trigger] toks[k].1.start < toks[k].1.end by {
        assert(spanned_matches(toks[k], items[k], s));
        lemma_next_lexeme_advances(s, f, items[k].start);
        lemma_byte_offset_step(s, items[k].start);
        lemma_byte_offset_mono(s, items[k].start + 1, items[k].end);
        vstd::utf8::char_is_scalar(s[items[k].start]);
    }
    assert forall|k: int| 0 <= k < toks.len() - 1 implies #[trigger] toks[k].1.end == toks[k + 1].1.start by {
        assert(spanned_matches(toks[k], items[k], s));
        assert(spanned_matches(toks[k + 1], items[k + 1], s));
    }
    if toks.len() > 0 {
        assert(spanned_matches(toks[0], items[0], s));
        assert(spanned_matches(toks[toks.len() - 1], items[toks.len() - 1], s));
    }
}

/// A keyword prints as the word it was read from.
pub proof fn lemma_keyword_text<'a>(w: Seq<char>)
    ensures
        keyword_token::<'a>(w) matches Some(t) ==> token_text(t) == w,
{
}

/// Every token other than a string or padding prints as the source text it was read from.
pub proof fn lemma_token_text_is_source<'a>(s: Seq<char>, f: Seq<CharFlags>, toks: Seq<Spanned<Token<'a>>>)
    requires
        lexes_to(s, f, toks),
    ensures
        forall|k: int|
            0 <= k < toks.len() && !(toks[k].0 is Str) && !(toks[k].0 is Padding) ==> token_text(#[trigger] toks[k].0)
                == s.subrange(lex_from::<'a>(s, f, 0)->0[k].start, lex_from::<'a>(s, f, 0)->0[k].end),
{
    lemma_lex_from_tiles(s, f, 0);
    let items = lex_from::<'a>(s, f, 0)->0;
    assert forall|k: int|
        0 <= k < toks.len() && !(toks[k].0 is Str) && !(toks[k].0 is Padding) implies token_text(#[trigger] toks[k].0)
            == s.subrange(items[k].start, items[k].end) by {
        let lx = items[k];
        assert(spanned_matches(toks[k], lx, s));
        assert(next_lexeme::<'a>(s, f, lx.start) == Some(lx));
        let i = lx.start;
        lemma_next_lexeme_advances(s, f, i);
        if op_token::<'a>(s[i]) is Some || sep_token::<'a>(s[i]) is Some {
            assert(s.subrange(i, i + 1) =~= seq![s[i]]);
        }
        if keyword_at::<'a>(s, f, i) is Some {
            let (_, j) = keyword_at::<'a>(s, f, i)->0;
            lemma_keyword_text(s.subrange(i, j));
        }
    }
}

/// A string token holds the contents of its literal, with escapes resolved.
pub proof fn lemma_string_token_contents<'a>(s: Seq<char>, f: Seq<CharFlags>, toks: Seq<Spanned<Token<'a>>>)
    requires
        lexes_to(s, f, toks),
    ensures
        forall|k: int| 0 <= k < toks.len() && #[trigger] toks[k].0 is Str ==> ({
            let lx = lex_from::<'a>(s, f, 0)->0[k];
            &&& s[lx.start] == '"'
            &&& str_body(s, lx.start + 1) == Some((token_text(toks[k].0), lx.end))
        }),
{
    lemma_lex_from_tiles(s, f, 0);
    let items = lex_from::<'a>(s, f, 0)->0;
    assert forall|k: int| 0 <= k < toks.len() && #[trigger] toks[k].0 is Str implies ({
        let lx = items[k];
        &&& s[lx.start] == '"'
        &&& str_body(s, lx.start + 1) == Some((token_text(toks[k].0), lx.end))
    }) by {
        assert(spanned_matches(toks[k], items[k], s));
        assert(next_lexeme::<'a>(s, f, items[k].start) == Some(items[k]));
        lemma_next_lexeme_advances(s, f, items[k].start);
    }
}

/// No two padding tokens are adjacent: a run of white space is one token.
pub proof fn lemma_padding_not_adjacent<'a>(s: Seq<char>, f: Seq<CharFlags>, toks: Seq<Spanned<Token<'a>>>)
    requires
        lexes_to(s, f, toks),
    ensures
        forall|k: int| 0 <= k < toks.len() - 1 && #[trigger] toks[k].0 is Padding ==> !(toks[k + 1].0 is Padding),
{
    lemma_lex_from_tiles(s, f, 0);
    let items = lex_from::<'a>(s, f, 0)->0;
    assert forall|k: int| 0 <= k < toks.len() - 1 && #[trigger] toks[k].0 is Padding implies !(toks[k + 1].0 is Padding) by {
        assert(spanned_matches(toks[k], items[k], s));
        assert(spanned_matches(toks[k + 1], items[k + 1], s));
        let i = items[k].start;
        let j = items[k + 1].start;
        assert(next_lexeme::<'a>(s, f, i) == Some(items[k]));
        assert(next_lexeme::<'a>(s, f, j) == Some(items[k + 1]));
        lemma_next_lexeme_advances(s, f, i);
        lemma_next_lexeme_advances(s, f, j);
        if toks[k + 1].0 is Padding {
            // Padding is the only token that a white-space character starts, and the
            // previous padding run stopped before a character that is not white space.
            assert(f[i].white_space);
            lemma_run_end_bounds(s, f, i + 1, CharRun::Space);
            assert(f[j].white_space);
            assert(false);
        }
    }
}

/// Every token is exactly one of: a keyword, an operator, a separator, or a number,
/// string, identifier or padding.
pub proof fn lemma_token_classes(t: Token)
    ensures
        is_kw_token(t) ==> !is_op_token(t) && !is_sep_token(t),
        is_op_token(t) ==> !is_sep_token(t),
        (t is Num || t is Str || t is Ident || t is Padding) <==> !(is_kw_token(t) || is_op_token(t) || is_sep_token(t)),
{
}

/// Keywords, operators and separators: the tokens with a fixed spelling.
pub open spec fn is_fixed_token(t: Token) -> bool {
    is_kw_token(t) || is_op_token(t) || is_sep_token(t)
}

/// The token with a fixed spelling that is spelled `w`, if any.
pub open spec fn fixed_token_of<'a>(w: Seq<char>) -> Option<Token<'a>> {
    if w.len() == 1 {
        if op_token::<'a>(w[0]) is Some {
            op_token(w[0])
        } else {
            sep_token(w[0])
        }
    } else {
        keyword_token(w)
    }
}

/// A token with a fixed spelling is spelled by at least one character, and its spelling
/// names it.
pub proof fn lemma_fixed_spelling_names_token<'a>(t: Token<'a>)
    requires
        is_fixed_token(t),
    ensures
        token_text(t).len() > 0,
        fixed_token_of::<'a>(token_text(t)) == Some(t),
{
}

/// Distinct tokens with fixed spellings have distinct, non-empty spellings.
pub proof fn lemma_fixed_spellings_distinct<'a>(t1: Token<'a>, t2: Token<'a>)
    requires
        is_fixed_token(t1),
        is_fixed_token(t2),
        t1 != t2,
    ensures
        token_text(t1).len() > 0,
        token_text(t1) != token_text(t2),
{
    lemma_fixed_spelling_names_token(t1);
    lemma_fixed_spelling_names_token(t2);
}

/// The spelling of a keyword or word operator is made of ASCII letters.
proof fn lemma_keyword_spelling_letters<'a>(t: Token<'a>)
    requires
        is_kw_token(t) || (is_op_token(t) && token_text(t).len() > 1),
    ensures
        token_text(t).len() > 1,
        forall|k: int| 0 <= k < token_text(t).len() ==> #[trigger] ascii_letter(token_text(t)[k]),
{
}

/// The characters of an ASCII text are one byte each.
proof fn lemma_ascii_byte_len(w: Seq<char>)
    requires
        forall|k: int| 0 <= k < w.len() ==> #[trigger] is_ascii(w[k]),
    ensures
        utf8_len(w) == w.len(),
    decreases w.len(),
{
    if w.len() > 0 {
        assert(is_ascii(w[0]));
        assert forall|k: int| 0 <= k < w.drop_first().len() implies #[trigger] is_ascii(w.drop_first()[k]) by {
            assert(is_ascii(w[k + 1]));
        }
        lemma_ascii_byte_len(w.drop_first());
    }
}

/// Lexing the spelling of a keyword, operator or separator gives back that one token and
/// nothing else: keywords are read as whole words.
pub proof fn lemma_fixed_token_lexes_alone<'a>(t: Token<'a>)
    requires
        is_fixed_token(t),
    ensures
        ({
            let w = token_text(t);
            lex_from::<'a>(w, flags_of(w), 0) == Some(seq![Lexeme { kind: LexKind::Fixed(t), start: 0, end: w.len() as int }])
        }),
{
    let w = token_text(t);
    let f = flags_of(w);
    lemma_fixed_spelling_names_token(t);
    if w.len() == 1 {
        assert(next_lexeme::<'a>(w, f, 0) == Some(Lexeme { kind: LexKind::Fixed(t), start: 0, end: 1 }));
    } else {
        lemma_keyword_spelling_letters(t);
        lemma_run_end_bounds(w, f, 1, CharRun::XidContinue);
        let j = run_end(w, f, 1, CharRun::XidContinue);
        if j < w.len() {
            assert(ascii_letter(w[j]));
            assert(in_run(CharRun::XidContinue, w, f, j));
        }
        assert(w.subrange(0, j) =~= w);
        assert(ascii_letter(w[0]));
        assert(keyword_at::<'a>(w, f, 0) == Some((t, w.len() as int)));
        assert(next_lexeme::<'a>(w, f, 0) == Some(Lexeme { kind: LexKind::Fixed(t), start: 0, end: w.len() as int }));
    }
    assert(lex_from::<'a>(w, f, w.len() as int) == Some(Seq::<Lexeme<'a>>::empty()));
    assert(seq![Lexeme { kind: LexKind::Fixed(t), start: 0, end: w.len() as int }] + Seq::<Lexeme<'a>>::empty()
        =~= seq![Lexeme { kind: LexKind::Fixed(t), start: 0, end: w.len() as int }]);
}

/// What the lexer returns for the spelling of a keyword, operator or separator: that one
/// token, spanning the whole text.
pub proof fn lemma_fixed_token_lexes_to_itself<'a>(t: Token<'a>, toks: Seq<Spanned<Token<'a>>>)
    requires
        is_fixed_token(t),
        lexes_to(token_text(t), flags_of(token_text(t)), toks),
    ensures
        toks.len() == 1,
        toks[0].0 == t,
        toks[0].1.start == 0,
        toks[0].1.end == token_text(t).len(),
{
    let w = token_text(t);
    lemma_fixed_token_lexes_alone(t);
    assert(spanned_matches(toks[0], Lexeme { kind: LexKind::Fixed(t), start: 0, end: w.len() as int }, w));
    assert(w.take(0) =~= Seq::<char>::empty());
    assert(w.take(w.len() as int) =~= w);
    lemma_fixed_spelling_names_token(t);
    if w.len() > 1 {
        lemma_keyword_spelling_letters(t);
    }
    assert forall|k: int| 0 <= k < w.len() implies #[trigger] is_ascii(w[k]) by {
        if w.len() > 1 {
            assert(ascii_letter(w[k]));
        }
    }
    lemma_ascii_byte_len(w);
}

/// Decimal digits only.
pub open spec fn all_digits(w: Seq<char>) -> bool {
    forall|k: int| 0 <= k < w.len() ==> #[trigger] decimal_digit(w[k])
}

/// A decimal integer without leading zeros: `0`, or a nonzero digit and then digits.
pub open spec fn decimal_int(w: Seq<char>) -> bool {
    w == seq!['0'] || (w.len() > 0 && w[0] != '0' && all_digits(w))
}

/// A numeral: a decimal integer, possibly followed by `.` and a decimal integer.
pub open spec fn numeral(w: Seq<char>) -> bool {
    ||| decimal_int(w)
    ||| exists|k: int| 0 < k < w.len() && #[trigger] w[k] == '.' && decimal_int(w.take(k)) && decimal_int(w.skip(k + 1))
}

/// The source text of a token has the shape of its class. An identifier is a non-empty run
/// of ASCII letters, `_` and `?`; a number is a numeral; padding is a non-empty run of white
/// space; a string literal is its quotes around a body that reads as the token's contents;
/// any other token is spelled as its text.
pub open spec fn token_shape<'a>(t: Token<'a>, s: Seq<char>, f: Seq<CharFlags>, lx: Lexeme<'a>) -> bool {
    let w = s.subrange(lx.start, lx.end);
    match t {
        Token::Ident(x) => x@ == w && w.len() > 0 && forall|k: int| 0 <= k < w.len() ==> #[trigger] ident_char(w[k]),
        Token::Num(x) => x@ == w && numeral(w),
        Token::Padding => w.len() > 0 && forall|k: int| lx.start <= k < lx.end ==> #[trigger] f[k].white_space,
        Token::Str(x) => {
            &&& w.len() >= 2
            &&& s[lx.start] == '"'
            &&& s[lx.end - 1] == '"'
            &&& str_body(s, lx.start + 1) == Some((x@, lx.end))
        },
        _ => token_text(t) == w,
    }
}

proof fn lemma_int_shape(s: Seq<char>, f: Seq<CharFlags>, i: int)
    requires
        0 <= i < s.len(),
        decimal_digit(s[i]),
    ensures
        i < int_end(s, f, i) <= s.len(),
        decimal_int(s.subrange(i, int_end(s, f, i))),
{
    if s[i] == '0' {
        assert(s.subrange(i, i + 1) =~= seq!['0']);
    } else {
        lemma_run_end_bounds(s, f, i + 1, CharRun::Digit);
        let j = int_end(s, f, i);
        let w = s.subrange(i, j);
        assert forall|k: int| 0 <= k < w.len() implies #[trigger] decimal_digit(w[k]) by {
            if k > 0 {
                assert(in_run(CharRun::Digit, s, f, i + k));
            }
        }
    }
}

proof fn lemma_num_shape(s: Seq<char>, f: Seq<CharFlags>, i: int)
    requires
        0 <= i < s.len(),
        decimal_digit(s[i]),
    ensures
        i < num_end(s, f, i) <= s.len(),
        numeral(s.subrange(i, num_end(s, f, i))),
{
    lemma_int_shape(s, f, i);
    let j = int_end(s, f, i);
    if j + 1 < s.len() && s[j] == '.' && decimal_digit(s[j + 1]) {
        lemma_int_shape(s, f, j + 1);
        let e = num_end(s, f, i);
        let w = s.subrange(i, e);
        let k = j - i;
        assert(w.take(k) =~= s.subrange(i, j));
        assert(w.skip(k + 1) =~= s.subrange(j + 1, e));
        assert(w[k] == '.');
    }
}

/// The source text of one token has the shape of its class.
#[verifier::spinoff_prover]
proof fn lemma_lexeme_shape<'a>(s: Seq<char>, f: Seq<CharFlags>, t: Token<'a>, lx: Lexeme<'a>)
    requires
        next_lexeme::<'a>(s, f, lx.start) == Some(lx),
        token_matches(t, lx, s),
    ensures
        token_shape(t, s, f, lx),
{
    let i = lx.start;
    lemma_next_lexeme_advances(s, f, i);
    let c = s[i];
    if op_token::<'a>(c) is Some || sep_token::<'a>(c) is Some {
        assert(s.subrange(i, i + 1) =~= seq![c]);
        if op_token::<'a>(c) is None && keyword_at::<'a>(s, f, i) is Some {
            let (_, j) = keyword_at::<'a>(s, f, i)->0;
            lemma_keyword_text(s.subrange(i, j));
        }
    } else if keyword_at::<'a>(s, f, i) is Some {
        let (_, j) = keyword_at::<'a>(s, f, i)->0;
        lemma_keyword_text(s.subrange(i, j));
    } else if decimal_digit(c) {
        lemma_num_shape(s, f, i);
    } else if c == '"' && str_body(s, i + 1) is Some {
        lemma_str_body_bounds(s, i + 1);
    } else if ident_char(c) {
        lemma_run_end_bounds(s, f, i + 1, CharRun::Ident);
        let w = s.subrange(lx.start, lx.end);
        assert forall|m: int| 0 <= m < w.len() implies #[trigger] ident_char(w[m]) by {
            if m > 0 {
                assert(in_run(CharRun::Ident, s, f, i + m));
            }
        }
    } else {
        lemma_run_end_bounds(s, f, i + 1, CharRun::Space);
        assert forall|m: int| lx.start <= m < lx.end implies #[trigger] f[m].white_space by {
            if m > i {
                assert(in_run(CharRun::Space, s, f, m));
            }
        }
    }
}

/// Each token's source text has the shape of its class.
pub proof fn lemma_token_shapes<'a>(s: Seq<char>, f: Seq<CharFlags>, toks: Seq<Spanned<Token<'a>>>)
    requires
        lexes_to(s, f, toks),
    ensures
        forall|k: int| 0 <= k < toks.len() ==> token_shape(#[trigger] toks[k].0, s, f, lex_from::<'a>(s, f, 0)->0[k]),
{
    lemma_lex_from_tiles(s, f, 0);
    let items = lex_from::<'a>(s, f, 0)->0;
    assert forall|k: int| 0 <= k < toks.len() implies token_shape(#[trigger] toks[k].0, s, f, items[k]) by {
        assert(spanned_matches(toks[k], items[k], s));
        lemma_lexeme_shape(s, f, toks[k].0, items[k]);
    }
}

/// The digits from `i` up to `int_end(s, f, i)`, and what stops them.
proof fn lemma_int_end_facts(s: Seq<char>, f: Seq<CharFlags>, i: int)
    requires
        0 <= i < s.len(),
        decimal_digit(s[i]),
    ensures
        i < int_end(s, f, i) <= s.len(),
        forall|m: int| i <= m < int_end(s, f, i) ==> #[trigger] decimal_digit(s[m]),
        s[i] == '0' ==> int_end(s, f, i) == i + 1,
        s[i] != '0' && int_end(s, f, i) < s.len() ==> !decimal_digit(s[int_end(s, f, i)]),
{
    if s[i] != '0' {
        lemma_run_end_bounds(s, f, i + 1, CharRun::Digit);
        assert forall|m: int| i <= m < int_end(s, f, i) implies #[trigger] decimal_digit(s[m]) by {
            if m > i {
                assert(in_run(CharRun::Digit, s, f, m));
            }
        }
    }
}

/// A decimal integer of the source from `i` (where `int_end` says an integer starts) that
/// ends at `m` ends where `int_end` does.
proof fn lemma_int_prefix_is_int_end(s: Seq<char>, f: Seq<CharFlags>, i: int, m: int)
    requires
        0 <= i < s.len(),
        decimal_digit(s[i]),
        i < m <= s.len(),
        decimal_int(s.subrange(i, m)),
        m < s.len() ==> !decimal_digit(s[m]),
    ensures
        m == int_end(s, f, i),
{
    lemma_int_end_facts(s, f, i);
    let j = int_end(s, f, i);
    let w = s.subrange(i, m);
    if s[i] == '0' {
        if m > i + 1 {
            assert(w[0] == '0');
            assert(w.len() > 1);
            assert(w != seq!['0']);
        }
    } else {
        if m < j {
            assert(decimal_digit(s[m]));
        } else if m > j {
            assert(w[j - i] == s[j]);
            assert(decimal_digit(w[j - i]));
        }
    }
}

/// No numeral starting at `i` is longer than the number the lexer reads there.
proof fn lemma_number_is_longest(s: Seq<char>, f: Seq<CharFlags>, i: int, e: int)
    requires
        0 <= i < s.len(),
        decimal_digit(s[i]),
        num_end(s, f, i) < e <= s.len(),
    ensures
        !numeral(s.subrange(i, e)),
{
    lemma_int_end_facts(s, f, i);
    let j = int_end(s, f, i);
    if j + 1 < s.len() && s[j] == '.' && decimal_digit(s[j + 1]) {
        lemma_int_end_facts(s, f, j + 1);
    }
    assert(j <= num_end(s, f, i));
    let u = s.subrange(i, e);
    if decimal_int(u) {
        if u == seq!['0'] {
            assert(u.len() == 1);
        } else {
            if s[i] == '0' {
                assert(u[0] == '0');
            } else {
                assert(j < e);
                assert(u[j - i] == s[j]);
                assert(decimal_digit(u[j - i]));
            }
        }
        assert(false);
    }
    if exists|k: int| 0 < k < u.len() && #[trigger] u[k] == '.' && decimal_int(u.take(k)) && decimal_int(u.skip(k + 1)) {
        let k = choose|k: int| 0 < k < u.len() && #[trigger] u[k] == '.' && decimal_int(u.take(k)) && decimal_int(u.skip(k + 1));
        assert(u.take(k) =~= s.subrange(i, i + k));
        assert(s[i + k] == '.');
        lemma_int_prefix_is_int_end(s, f, i, i + k);
        assert(i + k == j);
        let v = u.skip(k + 1);
        assert(v =~= s.subrange(j + 1, e));
        assert(v.len() > 0);
        assert(v[0] == s[j + 1]);
        if v == seq!['0'] {
            assert(decimal_digit(s[j + 1]));
        } else {
            assert(all_digits(v));
            assert(decimal_digit(v[0]));
        }
        assert(decimal_digit(s[j + 1]));
        // The fraction was read: it ends at `int_end(s, f, j + 1)`, before `e`.
        lemma_int_end_facts(s, f, j + 1);
        let g = int_end(s, f, j + 1);
        assert(num_end(s, f, i) == g);
        if s[j + 1] == '0' {
            assert(v.len() > 1);
            assert(v != seq!['0']);
            assert(v[0] == '0');
        } else {
            assert(v[g - (j + 1)] == s[g]);
            assert(decimal_digit(v[g - (j + 1)]));
        }
        assert(false);
    }
}

/// A number token is the longest numeral at its start: no longer stretch of the source from
/// there is a numeral (so a fraction of several digits is read whole).
pub proof fn lemma_numbers_are_longest<'a>(s: Seq<char>, f: Seq<CharFlags>, toks: Seq<Spanned<Token<'a>>>)
    requires
        lexes_to(s, f, toks),
    ensures
        forall|k: int, e: int|
            0 <= k < toks.len() && #[trigger] toks[k].0 is Num && lex_from::<'a>(s, f, 0)->0[k].end < e <= s.len()
                ==> !numeral(#[trigger] s.subrange(lex_from::<'a>(s, f, 0)->0[k].start, e)),
{
    lemma_lex_from_tiles(s, f, 0);
    let items = lex_from::<'a>(s, f, 0)->0;
    assert forall|k: int, e: int|
        0 <= k < toks.len() && #[trigger] toks[k].0 is Num && items[k].end < e <= s.len()
            implies !numeral(#[trigger] s.subrange(items[k].start, e)) by {
        let lx = items[k];
        let i = lx.start;
        assert(spanned_matches(toks[k], lx, s));
        assert(next_lexeme::<'a>(s, f, i) == Some(lx));
        lemma_next_lexeme_advances(s, f, i);
        assert(lx.kind is Num);
        assert(decimal_digit(s[i]));
        assert(lx.end == num_end(s, f, i));
        lemma_number_is_longest(s, f, i, e);
    }
}

} // verus!
