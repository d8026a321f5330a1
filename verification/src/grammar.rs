//! The expression grammar, over the spanned tokens of the lexer.
//!
//! Each nonterminal is a spec function from a token index to what it parses there and the
//! index after it, trying alternatives in order and repeating greedily without going back,
//! as a PEG does. Padding tokens around atoms and operators are skipped. The executable
//! parser below follows the grammar function for function.

use std::ops::Range;
use vstd::prelude::*;
use crate::lex::{Spanned, Token};
use crate::parse::{bin_op_of, is_lexpr_v, unary_op_of, BinOp, ExprV, KindV, UnaryOp};

verus! {

/// The tokens that the grammar asks for by kind.
#[derive(Clone, Copy)]
pub enum Sym {
    SquareOpen,
    SquareClose,
    ParenOpen,
    ParenClose,
    Dot,
    Colon,
    At,
    In,
    Do,
    End,
    Each,
    While,
    On,
}

pub open spec fn sym_token<'a>(s: Sym) -> Token<'a> {
    match s {
        Sym::SquareOpen => Token::SquareOpen,
        Sym::SquareClose => Token::SquareClose,
        Sym::ParenOpen => Token::ParenOpen,
        Sym::ParenClose => Token::ParenClose,
        Sym::Dot => Token::Dot,
        Sym::Colon => Token::Colon,
        Sym::At => Token::OpAt,
        Sym::In => Token::KwIn,
        Sym::Do => Token::KwDo,
        Sym::End => Token::KwEnd,
        Sym::Each => Token::KwEach,
        Sym::While => Token::KvWhile,
        Sym::On => Token::KwOn,
    }
}

/// A parse failure, reported at the byte range of the furthest failure (see `failure`),
/// with the index of the token found there (none at the end of input).
#[derive(Debug, PartialEq)]
pub struct ParseError {
    pub span: Range<usize>,
    pub found: Option<usize>,
}

// ---------------------------------------------------------------------------
// Tokens.

pub type Toks<'a> = Seq<Spanned<Token<'a>>>;

/// The index of the first token from `i` on that is not padding.
pub open spec fn skip_ws(toks: Toks, i: int) -> int
    decreases toks.len() - i,
{
    if 0 <= i < toks.len() && toks[i].0 is Padding {
        skip_ws(toks, i + 1)
    } else {
        i
    }
}

pub open spec fn sym_at(toks: Toks, i: int, s: Sym) -> bool {
    0 <= i < toks.len() && toks[i].0 == sym_token(s)
}

/// The token `s`, with padding around it.
pub open spec fn padded_sym(toks: Toks, i: int, s: Sym) -> Option<int> {
    let j = skip_ws(toks, i);
    if sym_at(toks, j, s) {
        Some(skip_ws(toks, j + 1))
    } else {
        None
    }
}

pub open spec fn ident_at(toks: Toks, i: int) -> bool {
    0 <= i < toks.len() && toks[i].0 is Ident
}

pub open spec fn num_at(toks: Toks, i: int) -> bool {
    0 <= i < toks.len() && toks[i].0 is Num
}

pub open spec fn str_at(toks: Toks, i: int) -> bool {
    0 <= i < toks.len() && toks[i].0 is Str
}

/// The text a token carries (the name of an identifier, a numeral, a string's contents).
pub open spec fn payload(t: Token) -> Seq<char> {
    match t {
        Token::Ident(s) => s@,
        Token::Num(s) => s@,
        Token::Str(s) => s@,
        _ => seq![],
    }
}

/// A unary operator token, with padding around it.
pub open spec fn unary_op_at(toks: Toks, i: int) -> Option<(UnaryOp, int)> {
    let j = skip_ws(toks, i);
    if 0 <= j < toks.len() && unary_op_of(toks[j].0) is Some {
        Some((unary_op_of(toks[j].0)->0, skip_ws(toks, j + 1)))
    } else {
        None
    }
}

/// A binary operator token, with padding around it.
pub open spec fn bin_op_at(toks: Toks, i: int) -> Option<(BinOp, int)> {
    let j = skip_ws(toks, i);
    if 0 <= j < toks.len() && bin_op_of(toks[j].0) is Some {
        Some((bin_op_of(toks[j].0)->0, skip_ws(toks, j + 1)))
    } else {
        None
    }
}

/// The byte range from the start of token `a` to the end of token `b - 1`.
pub open spec fn span_of(toks: Toks, a: int, b: int) -> Range<usize> {
    Range { start: toks[a].1.start, end: toks[b - 1].1.end }
}

/// An expression of the given kind that spans tokens `a` up to `b`.
pub open spec fn node(toks: Toks, a: int, b: int, kind: KindV) -> ExprV {
    ExprV { src: Some(span_of(toks, a, b)), kind }
}

/// `padded(Ident)*`: names with padding around them.
pub open spec fn names_rep(toks: Toks, i: int) -> (Seq<Seq<char>>, int)
    decreases toks.len() - i,
{
    let j = skip_ws(toks, i);
    if 0 <= i <= toks.len() && ident_at(toks, j) {
        proof {
            lemma_skip_ws(toks, i);
            lemma_skip_ws(toks, j + 1);
        }
        let (rest, e) = names_rep(toks, skip_ws(toks, j + 1));
        (seq![payload(toks[j].0)] + rest, e)
    } else {
        (seq![], i)
    }
}

/// A unary operator and `@`, with padding around them.
pub open spec fn spread_op_at(toks: Toks, i: int) -> Option<(UnaryOp, int)> {
    match unary_op_at(toks, i) {
        Some((op, j)) => match padded_sym(toks, j, Sym::At) {
            Some(k) => Some((op, k)),
            None => None,
        },
        None => None,
    }
}

/// After a dot, `[` or another dot and an identifier comes next (looked at, not read).
pub open spec fn each_lookahead(toks: Toks, q: int) -> bool {
    let w = skip_ws(toks, q);
    sym_at(toks, w, Sym::SquareOpen) || (sym_at(toks, w, Sym::Dot) && ident_at(toks, skip_ws(toks, w + 1)))
}

/// `( )`: the empty list.
pub open spec fn empty_list(toks: Toks, w: int) -> Option<int> {
    match padded_sym(toks, w, Sym::ParenOpen) {
        Some(r) => padded_sym(toks, r, Sym::ParenClose),
        None => None,
    }
}

pub proof fn lemma_skip_ws(toks: Toks, i: int)
    requires
        0 <= i <= toks.len(),
    ensures
        i <= skip_ws(toks, i) <= toks.len(),
        skip_ws(toks, i) < toks.len() ==> !(toks[skip_ws(toks, i)].0 is Padding),
        forall|k: int| i <= k < skip_ws(toks, i) ==> #[trigger] toks[k].0 is Padding,
    decreases toks.len() - i,
{
    if i < toks.len() && toks[i].0 is Padding {
        lemma_skip_ws(toks, i + 1);
    }
}

/// The token-level readers consume what they read and stay inside the input.
pub proof fn lemma_readers_advance(toks: Toks, i: int)
    requires
        0 <= i <= toks.len(),
    ensures
        forall|s: Sym| #[trigger] padded_sym(toks, i, s) matches Some(j) ==> i < j <= toks.len(),
        unary_op_at(toks, i) matches Some((_, j)) ==> i < j <= toks.len(),
        bin_op_at(toks, i) matches Some((_, j)) ==> i < j <= toks.len(),
        i <= names_rep(toks, i).1 <= toks.len(),
        empty_list(toks, i) matches Some(j) ==> i < j <= toks.len(),
        spread_op_at(toks, i) matches Some((_, j)) ==> i < j <= toks.len(),
        i <= opt_do(toks, i) <= toks.len(),
{
    lemma_skip_ws(toks, i);
    let j = skip_ws(toks, i);
    if j < toks.len() {
        lemma_skip_ws(toks, j + 1);
    }
    lemma_names_rep_bounds(toks, i);
    if let Some((_, k)) = unary_op_at(toks, i) {
        lemma_skip_ws(toks, k);
        if skip_ws(toks, k) < toks.len() {
            lemma_skip_ws(toks, skip_ws(toks, k) + 1);
        }
    }
    match padded_sym(toks, i, Sym::ParenOpen) {
        Some(r) => {
            lemma_skip_ws(toks, r);
            if skip_ws(toks, r) < toks.len() {
                lemma_skip_ws(toks, skip_ws(toks, r) + 1);
            }
        },
        None => {},
    }
}

pub proof fn lemma_names_rep_bounds(toks: Toks, i: int)
    requires
        0 <= i <= toks.len(),
    ensures
        i <= names_rep(toks, i).1 <= toks.len(),
    decreases toks.len() - i,
{
    lemma_skip_ws(toks, i);
    let j = skip_ws(toks, i);
    if 0 <= i <= toks.len() && ident_at(toks, j) {
        lemma_skip_ws(toks, j + 1);
        lemma_names_rep_bounds(toks, skip_ws(toks, j + 1));
    }
}

// ---------------------------------------------------------------------------
// The grammar.
//
// Each function's measure is the number of tokens left, then a rank: a nonterminal calls
// others at its own position only with a lower rank, and otherwise only further on.
// Where a nonterminal goes on from the index another returned, the grammar asks that the
// index moved (`i < j`); every expression reads at least one token, so this holds of every
// index a nonterminal returns.

/// `expr := assign`
pub open spec fn g_expr(toks: Toks, i: int) -> Option<(ExprV, int)>
    decreases toks.len() - i, 20int,
{
    g_assign(toks, i)
}

/// `assign := spread ':' expr | spread`, assigning where the left side can be assigned to
/// and amending otherwise.
pub open spec fn g_assign(toks: Toks, i: int) -> Option<(ExprV, int)>
    decreases toks.len() - i, 19int,
{
    match g_spread(toks, i) {
        Some((a, j)) => if 0 <= i < j <= toks.len() {
            proof {
                lemma_readers_advance(toks, j);
            }
            match padded_sym(toks, j, Sym::Colon) {
                Some(k) => match g_expr(toks, k) {
                    Some((b, m)) => {
                        let kind = if is_lexpr_v(a.kind) {
                            KindV::Assign { var: Box::new(a), val: Box::new(b) }
                        } else {
                            KindV::Amend { src: Box::new(a), val: Box::new(b) }
                        };
                        Some((node(toks, i, m, kind), m))
                    },
                    None => Some((a, j)),
                },
                None => Some((a, j)),
            }
        } else {
            None
        },
        None => None,
    }
}

/// `spread := unop '@' spread | unary`
pub open spec fn g_spread(toks: Toks, i: int) -> Option<(ExprV, int)>
    decreases toks.len() - i, 18int,
{
    if 0 <= i <= toks.len() && spread_op_at(toks, i) is Some {
        let (op, k) = spread_op_at(toks, i)->0;
        proof {
            lemma_readers_advance(toks, i);
        }
        match g_spread(toks, k) {
            Some((v, q)) => Some((node(toks, i, q, KindV::SpreadUnary { arr: Box::new(v), op }), q)),
            None => None,
        }
    } else {
        g_unary(toks, i)
    }
}

/// `unary := unop unary | binary`
pub open spec fn g_unary(toks: Toks, i: int) -> Option<(ExprV, int)>
    decreases toks.len() - i, 17int,
{
    if 0 <= i <= toks.len() && unary_op_at(toks, i) is Some {
        let (op, j) = unary_op_at(toks, i)->0;
        proof {
            lemma_readers_advance(toks, i);
        }
        match g_unary(toks, j) {
            Some((v, q)) => Some((node(toks, i, q, KindV::Unary { val: Box::new(v), op }), q)),
            None => None,
        }
    } else {
        g_binary(toks, i)
    }
}

/// `binary := access (binop expr)*`, folded to the left.
pub open spec fn g_binary(toks: Toks, i: int) -> Option<(ExprV, int)>
    decreases toks.len() - i, 16int,
{
    match g_arr_access(toks, i) {
        Some((a, j)) => if 0 <= i < j <= toks.len() {
            Some(binary_rest(toks, i, a, j))
        } else {
            None
        },
        None => None,
    }
}

/// The `(binop expr)*` part of `binary`, with `acc` read from `i0` up to `j`.
pub open spec fn binary_rest(toks: Toks, i0: int, acc: ExprV, j: int) -> (ExprV, int)
    decreases toks.len() - j, 30int,
{
    if 0 <= j <= toks.len() && bin_op_at(toks, j) is Some {
        let (op, k) = bin_op_at(toks, j)->0;
        proof {
            lemma_readers_advance(toks, j);
        }
        match g_expr(toks, k) {
            Some((r, m)) => if k < m <= toks.len() {
                binary_rest(toks, i0, node(toks, i0, m, KindV::Binary { left: Box::new(acc), right: Box::new(r), kind: op }), m)
            } else {
                (acc, j)
            },
            None => (acc, j),
        }
    } else {
        (acc, j)
    }
}

/// `access := atom ('[' expr? ']' | '.' (num | ident) | '.' ...)*`, folded to the left.
pub open spec fn g_arr_access(toks: Toks, i: int) -> Option<(ExprV, int)>
    decreases toks.len() - i, 15int,
{
    match g_atom(toks, i) {
        Some((a, j)) => if 0 <= i < j <= toks.len() {
            Some(access_rest(toks, i, a, j))
        } else {
            None
        },
        None => None,
    }
}

/// The repeated accessors of `access`, with `acc` read from `i0` up to `j`.
pub open spec fn access_rest(toks: Toks, i0: int, acc: ExprV, j: int) -> (ExprV, int)
    decreases toks.len() - j, 30int,
{
    match g_access(toks, j) {
        Some((idx, dot, k)) => if 0 <= j < k <= toks.len() {
            let kind = match idx {
                Some(x) => KindV::Subscript { arr: Box::new(acc), idx: Box::new(x), was_dot_notation: dot },
                None => KindV::EachElem { arr: Box::new(acc), was_dot_notation: dot },
            };
            access_rest(toks, i0, node(toks, i0, k, kind), k)
        } else {
            (acc, j)
        },
        None => (acc, j),
    }
}

/// One accessor: `'[' expr? ']'` (an index or an each), `'.' num` or `'.' ident` (a
/// field), or a dot that is followed by `[` or by `.ident` (left unread), or by a second
/// dot (an each).
pub open spec fn g_access(toks: Toks, j: int) -> Option<(Option<ExprV>, bool, int)>
    decreases toks.len() - j, 13int,
{
    match bracket_access(toks, j) {
        Some((inner, k)) => Some((inner, false, k)),
        None => {
            let w = skip_ws(toks, j);
            let r = skip_ws(toks, w + 1);
            if sym_at(toks, w, Sym::Dot) && (num_at(toks, r) || ident_at(toks, r)) {
                let kind = if num_at(toks, r) {
                    KindV::Num(payload(toks[r].0))
                } else {
                    KindV::Str(payload(toks[r].0))
                };
                Some((Some(node(toks, r, r + 1, kind)), true, r + 1))
            } else if sym_at(toks, j, Sym::Dot) {
                if each_lookahead(toks, j + 1) {
                    Some((None, true, j + 1))
                } else if sym_at(toks, j + 1, Sym::Dot) {
                    Some((None, true, j + 2))
                } else {
                    None
                }
            } else {
                None
            }
        },
    }
}

/// `'[' expr? ']'` with padding around it.
pub open spec fn bracket_access(toks: Toks, j: int) -> Option<(Option<ExprV>, int)>
    decreases toks.len() - j, 12int,
{
    let w = skip_ws(toks, j);
    if 0 <= j <= toks.len() && sym_at(toks, w, Sym::SquareOpen) {
        proof {
            lemma_skip_ws(toks, j);
        }
        let (inner, after) = match g_expr(toks, w + 1) {
            Some((x, e)) => (Some(x), e),
            None => (None, w + 1),
        };
        if sym_at(toks, after, Sym::SquareClose) {
            Some((inner, skip_ws(toks, after + 1)))
        } else {
            None
        }
    } else {
        None
    }
}

/// `atom`: one of the atom alternatives, with padding around it.
pub open spec fn g_atom(toks: Toks, i: int) -> Option<(ExprV, int)>
    decreases toks.len() - i, 14int,
{
    if 0 <= i <= toks.len() {
        let w = skip_ws(toks, i);
        proof {
            lemma_skip_ws(toks, i);
        }
        match atom_alt(toks, w) {
            Some((kind, e)) => if w < e <= toks.len() {
                let end = skip_ws(toks, e);
                Some((node(toks, i, end, kind), end))
            } else {
                None
            },
            None => None,
        }
    } else {
        None
    }
}

/// The atom alternatives, in order: a call `ident[expr*]`, an identifier, a number, a
/// string, `()`, `(expr)`, `each`, `while`, `on`.
pub open spec fn atom_alt(toks: Toks, w: int) -> Option<(KindV, int)>
    decreases toks.len() - w, 11int,
{
    if atom_call(toks, w) is Some {
        atom_call(toks, w)
    } else if ident_at(toks, w) {
        Some((KindV::Ident(payload(toks[w].0)), w + 1))
    } else if num_at(toks, w) {
        Some((KindV::Num(payload(toks[w].0)), w + 1))
    } else if str_at(toks, w) {
        Some((KindV::Str(payload(toks[w].0)), w + 1))
    } else if empty_list(toks, w) is Some {
        Some((KindV::EmptyList, empty_list(toks, w)->0))
    } else if atom_paren(toks, w) is Some {
        atom_paren(toks, w)
    } else if atom_each(toks, w) is Some {
        atom_each(toks, w)
    } else if atom_while(toks, w) is Some {
        atom_while(toks, w)
    } else {
        atom_on(toks, w)
    }
}

/// `ident '[' expr* ']'`
pub open spec fn atom_call(toks: Toks, w: int) -> Option<(KindV, int)>
    decreases toks.len() - w, 10int,
{
    if 0 <= w < toks.len() && ident_at(toks, w) {
        let func = node(toks, w, w + 1, KindV::Ident(payload(toks[w].0)));
        proof {
            lemma_readers_advance(toks, w + 1);
        }
        match padded_sym(toks, w + 1, Sym::SquareOpen) {
            Some(r) => {
                let (args, e) = exprs_rep(toks, r);
                match padded_sym(toks, e, Sym::SquareClose) {
                    Some(f) => Some((KindV::Call { func: Box::new(func), args }, f)),
                    None => None,
                }
            },
            None => None,
        }
    } else {
        None
    }
}

/// `'(' expr ')'`
pub open spec fn atom_paren(toks: Toks, w: int) -> Option<(KindV, int)>
    decreases toks.len() - w, 10int,
{
    if 0 <= w <= toks.len() {
        proof {
            lemma_readers_advance(toks, w);
        }
        match padded_sym(toks, w, Sym::ParenOpen) {
            Some(r) => match g_expr(toks, r) {
                Some((x, e)) => match padded_sym(toks, e, Sym::ParenClose) {
                    Some(f) => Some((KindV::Wrap(Box::new(x)), f)),
                    None => None,
                },
                None => None,
            },
            None => None,
        }
    } else {
        None
    }
}

/// Padding, an optional `do`, and padding.
pub open spec fn opt_do(toks: Toks, e: int) -> int {
    let w = skip_ws(toks, e);
    if sym_at(toks, w, Sym::Do) {
        skip_ws(toks, w + 1)
    } else {
        w
    }
}

/// `each ident* in expr do? expr* end`
pub open spec fn atom_each(toks: Toks, w: int) -> Option<(KindV, int)>
    decreases toks.len() - w, 10int,
{
    if 0 <= w < toks.len() && sym_at(toks, w, Sym::Each) {
        let (vars, p) = names_rep(toks, w + 1);
        proof {
            lemma_readers_advance(toks, w + 1);
            lemma_readers_advance(toks, p);
        }
        match padded_sym(toks, p, Sym::In) {
            Some(q) => match g_expr(toks, q) {
                Some((arr, e)) => if q < e <= toks.len() {
                    proof {
                        lemma_readers_advance(toks, e);
                    }
                    let (body, b) = exprs_rep(toks, opt_do(toks, e));
                    match padded_sym(toks, b, Sym::End) {
                        Some(f) => Some((KindV::ForEach { vars, arr: Box::new(arr), body }, f)),
                        None => None,
                    }
                } else {
                    None
                },
                None => None,
            },
            None => None,
        }
    } else {
        None
    }
}

/// `while expr do? expr* end`
pub open spec fn atom_while(toks: Toks, w: int) -> Option<(KindV, int)>
    decreases toks.len() - w, 10int,
{
    if 0 <= w < toks.len() && sym_at(toks, w, Sym::While) {
        match g_expr(toks, w + 1) {
            Some((cond, e)) => if w + 1 < e <= toks.len() {
                proof {
                    lemma_readers_advance(toks, e);
                }
                let (body, b) = exprs_rep(toks, opt_do(toks, e));
                match padded_sym(toks, b, Sym::End) {
                    Some(f) => Some((KindV::While { cond: Box::new(cond), body }, f)),
                    None => None,
                }
            } else {
                None
            },
            None => None,
        }
    } else {
        None
    }
}

/// `on ident ident* do expr* end`
pub open spec fn atom_on(toks: Toks, w: int) -> Option<(KindV, int)>
    decreases toks.len() - w, 10int,
{
    let j = skip_ws(toks, w + 1);
    if 0 <= w < toks.len() && sym_at(toks, w, Sym::On) && ident_at(toks, j) {
        let (args, q) = names_rep(toks, skip_ws(toks, j + 1));
        match padded_sym(toks, q, Sym::Do) {
            Some(d) => {
                proof {
                    lemma_skip_ws(toks, w + 1);
                    lemma_skip_ws(toks, j + 1);
                    lemma_names_rep_bounds(toks, skip_ws(toks, j + 1));
                    lemma_readers_advance(toks, q);
                }
                let (body, b) = exprs_rep(toks, d);
                match padded_sym(toks, b, Sym::End) {
                    Some(f) => Some((KindV::Function { name: payload(toks[j].0), args, body }, f)),
                    None => None,
                }
            },
            None => None,
        }
    } else {
        None
    }
}

/// `expr*`
pub open spec fn exprs_rep(toks: Toks, i: int) -> (Seq<ExprV>, int)
    decreases toks.len() - i, 30int,
{
    match g_expr(toks, i) {
        Some((x, j)) => if 0 <= i < j <= toks.len() {
            let (rest, k) = exprs_rep(toks, j);
            (seq![x] + rest, k)
        } else {
            (seq![], i)
        },
        None => (seq![], i),
    }
}

/// The whole token sequence as one expression.
pub open spec fn parses_to(toks: Toks, e: ExprV) -> bool {
    g_expr(toks, 0) == Some((e, toks.len() as int))
}

} // verus!
