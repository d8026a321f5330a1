//! The parser: spanned tokens to an expression, following the grammar of `grammar`.

use std::ops::Range;
use vstd::prelude::*;
use crate::grammar::{
    access_rest, atom_alt, atom_call, atom_each, atom_on, atom_paren, atom_while, binary_rest,
    bracket_access, each_lookahead, exprs_rep, g_access, g_arr_access, g_assign, g_atom, g_binary,
    g_expr, g_spread, g_unary, ident_at, lemma_readers_advance, names_rep, node, num_at, opt_do,
    padded_sym, parses_to, payload, skip_ws, span_of, spread_op_at, str_at, sym_at,
    sym_token, unary_op_at, bin_op_at, ParseError, Sym,
};
use crate::failure::{
    e_access, e_access_rest, e_arr_access, e_assign, e_atom, e_atom_alt, e_binary, e_binary_rest,
    e_bracket, e_call, e_each, e_exprs, e_expr, e_on, e_paren, e_spread, e_unary, e_while,
    each_acc_fail, fail_span, field_fail, fthen, lemma_failure_recorded, lookahead_fail, names_fail,
    op_fail, opt_do_fail, parse_fail, rec, sym_fail, ws_fail, Fail,
};
use crate::lex::{Spanned, Token};
use crate::parse::{
    exprs_view, lemma_exprs_view_prepend, names_view, tok_to_bin, tok_to_uny, BinOp, Expr, ExprKind,
    ExprV, KindV, UnaryOp,
};

verus! {

pub open spec fn ev(r: Option<(Expr, usize)>) -> Option<(ExprV, int)> {
    match r {
        Some((e, j)) => Some((e@, j as int)),
        None => None,
    }
}

pub open spec fn kv(r: Option<(ExprKind, usize)>) -> Option<(KindV, int)> {
    match r {
        Some((k, j)) => Some((k@, j as int)),
        None => None,
    }
}

pub open spec fn oev(o: Option<Expr>) -> Option<ExprV> {
    match o {
        Some(e) => Some(e@),
        None => None,
    }
}

pub open spec fn ends_after<T>(r: Option<(T, usize)>, i: usize, n: nat) -> bool {
    r matches Some((_, j)) ==> i < j <= n
}

fn is_padding(t: &Token) -> (b: bool)
    ensures
        b == (*t is Padding),
{
    match t {
        Token::Padding => true,
        _ => false,
    }
}

fn is_sym(t: &Token, s: Sym) -> (b: bool)
    ensures
        b == (*t == sym_token(s)),
{
    match (s, t) {
        (Sym::SquareOpen, Token::SquareOpen) => true,
        (Sym::SquareClose, Token::SquareClose) => true,
        (Sym::ParenOpen, Token::ParenOpen) => true,
        (Sym::ParenClose, Token::ParenClose) => true,
        (Sym::Dot, Token::Dot) => true,
        (Sym::Colon, Token::Colon) => true,
        (Sym::At, Token::OpAt) => true,
        (Sym::In, Token::KwIn) => true,
        (Sym::Do, Token::KwDo) => true,
        (Sym::End, Token::KwEnd) => true,
        (Sym::Each, Token::KwEach) => true,
        (Sym::While, Token::KvWhile) => true,
        (Sym::On, Token::KwOn) => true,
        _ => false,
    }
}

fn skip(toks: &[Spanned<Token>], i: usize) -> (j: usize)
    requires
        i <= toks@.len(),
    ensures
        j == skip_ws(toks@, i as int),
        i <= j <= toks@.len(),
{
    let mut j = i;
    while j < toks.len() && is_padding(&toks[j].0)
        invariant
            i <= j <= toks@.len(),
            skip_ws(toks@, i as int) == skip_ws(toks@, j as int),
        decreases toks@.len() - j,
    {
        j = j + 1;
    }
    j
}

fn at_sym(toks: &[Spanned<Token>], i: usize, s: Sym) -> (b: bool)
    ensures
        b == sym_at(toks@, i as int, s),
        b ==> toks@.len() <= usize::MAX,
{
    i < toks.len() && is_sym(&toks[i].0, s)
}

fn at_ident(toks: &[Spanned<Token>], i: usize) -> (b: bool)
    ensures
        b == ident_at(toks@, i as int),
        b ==> toks@.len() <= usize::MAX,
{
    i < toks.len() && match &toks[i].0 {
        Token::Ident(_) => true,
        _ => false,
    }
}

fn at_num(toks: &[Spanned<Token>], i: usize) -> (b: bool)
    ensures
        b == num_at(toks@, i as int),
        b ==> toks@.len() <= usize::MAX,
{
    i < toks.len() && match &toks[i].0 {
        Token::Num(_) => true,
        _ => false,
    }
}

fn at_str(toks: &[Spanned<Token>], i: usize) -> (b: bool)
    ensures
        b == str_at(toks@, i as int),
        b ==> toks@.len() <= usize::MAX,
{
    i < toks.len() && match &toks[i].0 {
        Token::Str(_) => true,
        _ => false,
    }
}

/// The text of the identifier or number token `t`.
fn token_str<'src>(t: &Token<'src>) -> (s: &'src str)
    requires
        *t is Ident || *t is Num,
    ensures
        s@ == payload(*t),
{
    match t {
        Token::Ident(s) => *s,
        Token::Num(s) => *s,
        _ => {
            assert(false);
            ""
        },
    }
}

/// The contents of the string token `t`.
fn token_string(t: &Token) -> (s: String)
    requires
        *t is Str,
    ensures
        s@ == payload(*t),
{
    match t {
        Token::Str(s) => s.clone(),
        _ => {
            assert(false);
            String::new()
        },
    }
}

fn padded(toks: &[Spanned<Token>], i: usize, s: Sym) -> (r: Option<usize>)
    requires
        i <= toks@.len(),
    ensures
        match r {
            Some(j) => padded_sym(toks@, i as int, s) == Some(j as int),
            None => padded_sym(toks@, i as int, s) is None,
        },
        r matches Some(j) ==> i < j <= toks@.len(),
{
    let j = skip(toks, i);
    if at_sym(toks, j, s) {
        Some(skip(toks, j + 1))
    } else {
        None
    }
}

fn unary_at(toks: &[Spanned<Token>], i: usize) -> (r: Option<(UnaryOp, usize)>)
    requires
        i <= toks@.len(),
    ensures
        match r {
            Some((op, j)) => unary_op_at(toks@, i as int) == Some((op, j as int)),
            None => unary_op_at(toks@, i as int) is None,
        },
        r matches Some((_, j)) ==> i < j <= toks@.len(),
{
    let j = skip(toks, i);
    if j < toks.len() {
        if let Some(op) = tok_to_uny(&toks[j].0) {
            return Some((op, skip(toks, j + 1)));
        }
    }
    None
}

fn bin_at(toks: &[Spanned<Token>], i: usize) -> (r: Option<(BinOp, usize)>)
    requires
        i <= toks@.len(),
    ensures
        match r {
            Some((op, j)) => bin_op_at(toks@, i as int) == Some((op, j as int)),
            None => bin_op_at(toks@, i as int) is None,
        },
        r matches Some((_, j)) ==> i < j <= toks@.len(),
{
    let j = skip(toks, i);
    if j < toks.len() {
        if let Some(op) = tok_to_bin(&toks[j].0) {
            return Some((op, skip(toks, j + 1)));
        }
    }
    None
}

fn spread_op(toks: &[Spanned<Token>], i: usize) -> (r: Option<(UnaryOp, usize)>)
    requires
        i <= toks@.len(),
    ensures
        match r {
            Some((op, j)) => spread_op_at(toks@, i as int) == Some((op, j as int)),
            None => spread_op_at(toks@, i as int) is None,
        },
        r matches Some((_, j)) ==> i < j <= toks@.len(),
{
    match unary_at(toks, i) {
        Some((op, j)) => match padded(toks, j, Sym::At) {
            Some(k) => Some((op, k)),
            None => None,
        },
        None => None,
    }
}

fn names<'src>(toks: &[Spanned<Token<'src>>], i: usize) -> (r: (Vec<&'src str>, usize))
    requires
        i <= toks@.len(),
    ensures
        names_view(r.0@) == names_rep(toks@, i as int).0,
        r.1 == names_rep(toks@, i as int).1,
        i <= r.1 <= toks@.len(),
    decreases toks@.len() - i,
{
    let j = skip(toks, i);
    if at_ident(toks, j) {
        let (mut rest, e) = names(toks, skip(toks, j + 1));
        let ghost old_rest = rest@;
        rest.insert(0, token_str(&toks[j].0));
        assert(names_view(rest@) =~= seq![payload(toks@[j as int].0)] + names_view(old_rest));
        (rest, e)
    } else {
        (Vec::new(), i)
    }
}

fn span(toks: &[Spanned<Token>], a: usize, b: usize) -> (r: Range<usize>)
    requires
        a < b <= toks@.len(),
    ensures
        r == span_of(toks@, a as int, b as int),
{
    Range { start: toks[a].1.start, end: toks[b - 1].1.end }
}

/// An expression of `kind` spanning tokens `a` up to `b`.
fn node_x<'src>(toks: &[Spanned<Token<'src>>], a: usize, b: usize, kind: ExprKind<'src>) -> (e: Expr<'src>)
    requires
        a < b <= toks@.len(),
    ensures
        e@ == node(toks@, a as int, b as int, kind@),
{
    Expr::with_src(kind, span(toks, a, b))
}

fn p_expr<'src>(toks: &[Spanned<Token<'src>>], i: usize) -> (r: Option<(Expr<'src>, usize)>)
    requires
        i <= toks@.len(),
    ensures
        ev(r) == g_expr(toks@, i as int),
        ends_after(r, i, toks@.len()),
    decreases toks@.len() - i, 20int,
{
    p_assign(toks, i)
}

fn p_assign<'src>(toks: &[Spanned<Token<'src>>], i: usize) -> (r: Option<(Expr<'src>, usize)>)
    requires
        i <= toks@.len(),
    ensures
        ev(r) == g_assign(toks@, i as int),
        ends_after(r, i, toks@.len()),
    decreases toks@.len() - i, 19int,
{
    match p_spread(toks, i) {
        Some((a, j)) => {
            match padded(toks, j, Sym::Colon) {
                Some(k) => match p_expr(toks, k) {
                    Some((b, m)) => {
                        let kind = if a.kind().is_lexpr() {
                            ExprKind::Assign { var: Box::new(a), val: Box::new(b) }
                        } else {
                            ExprKind::Amend { src: Box::new(a), val: Box::new(b) }
                        };
                        Some((node_x(toks, i, m, kind), m))
                    },
                    None => Some((a, j)),
                },
                None => Some((a, j)),
            }
        },
        None => None,
    }
}

fn p_spread<'src>(toks: &[Spanned<Token<'src>>], i: usize) -> (r: Option<(Expr<'src>, usize)>)
    requires
        i <= toks@.len(),
    ensures
        ev(r) == g_spread(toks@, i as int),
        ends_after(r, i, toks@.len()),
    decreases toks@.len() - i, 18int,
{
    match spread_op(toks, i) {
        Some((op, k)) => match p_spread(toks, k) {
            Some((v, q)) => Some((node_x(toks, i, q, ExprKind::SpreadUnary { arr: Box::new(v), op }), q)),
            None => None,
        },
        None => p_unary(toks, i),
    }
}

fn p_unary<'src>(toks: &[Spanned<Token<'src>>], i: usize) -> (r: Option<(Expr<'src>, usize)>)
    requires
        i <= toks@.len(),
    ensures
        ev(r) == g_unary(toks@, i as int),
        ends_after(r, i, toks@.len()),
    decreases toks@.len() - i, 17int,
{
    match unary_at(toks, i) {
        Some((op, j)) => match p_unary(toks, j) {
            Some((v, q)) => Some((node_x(toks, i, q, ExprKind::Unary { val: Box::new(v), op }), q)),
            None => None,
        },
        None => p_binary(toks, i),
    }
}

fn p_binary<'src>(toks: &[Spanned<Token<'src>>], i: usize) -> (r: Option<(Expr<'src>, usize)>)
    requires
        i <= toks@.len(),
    ensures
        ev(r) == g_binary(toks@, i as int),
        ends_after(r, i, toks@.len()),
    decreases toks@.len() - i, 16int,
{
    match p_arr_access(toks, i) {
        Some((a, j)) => Some(p_binary_rest(toks, i, a, j)),
        None => None,
    }
}

fn p_binary_rest<'src>(toks: &[Spanned<Token<'src>>], i0: usize, acc: Expr<'src>, j: usize) -> (r: (Expr<'src>, usize))
    requires
        i0 < j <= toks@.len(),
    ensures
        (r.0@, r.1 as int) == binary_rest(toks@, i0 as int, acc@, j as int),
        j <= r.1 <= toks@.len(),
    decreases toks@.len() - j, 30int,
{
    match bin_at(toks, j) {
        Some((op, k)) => match p_expr(toks, k) {
            Some((rhs, m)) => {
                let e = node_x(toks, i0, m, ExprKind::Binary { left: Box::new(acc), right: Box::new(rhs), kind: op });
                p_binary_rest(toks, i0, e, m)
            },
            None => (acc, j),
        },
        None => (acc, j),
    }
}

fn p_arr_access<'src>(toks: &[Spanned<Token<'src>>], i: usize) -> (r: Option<(Expr<'src>, usize)>)
    requires
        i <= toks@.len(),
    ensures
        ev(r) == g_arr_access(toks@, i as int),
        ends_after(r, i, toks@.len()),
    decreases toks@.len() - i, 15int,
{
    match p_atom(toks, i) {
        Some((a, j)) => Some(p_access_rest(toks, i, a, j)),
        None => None,
    }
}

fn p_access_rest<'src>(toks: &[Spanned<Token<'src>>], i0: usize, acc: Expr<'src>, j: usize) -> (r: (Expr<'src>, usize))
    requires
        i0 < j <= toks@.len(),
    ensures
        (r.0@, r.1 as int) == access_rest(toks@, i0 as int, acc@, j as int),
        j <= r.1 <= toks@.len(),
    decreases toks@.len() - j, 30int,
{
    match p_access(toks, j) {
        Some((idx, dot, k)) => {
            let kind = match idx {
                Some(x) => ExprKind::Subscript { arr: Box::new(acc), idx: Box::new(x), was_dot_notation: dot },
                None => ExprKind::EachElem { arr: Box::new(acc), was_dot_notation: dot },
            };
            p_access_rest(toks, i0, node_x(toks, i0, k, kind), k)
        },
        None => (acc, j),
    }
}

fn p_access<'src>(toks: &[Spanned<Token<'src>>], j: usize) -> (r: Option<(Option<Expr<'src>>, bool, usize)>)
    requires
        j <= toks@.len(),
    ensures
        match r {
            Some((idx, dot, k)) => g_access(toks@, j as int) == Some((oev(idx), dot, k as int)) && j < k <= toks@.len(),
            None => g_access(toks@, j as int) is None,
        },
    decreases toks@.len() - j, 13int,
{
    match p_bracket(toks, j) {
        Some((inner, k)) => Some((inner, false, k)),
        None => {
            let w = skip(toks, j);
            if at_sym(toks, w, Sym::Dot) {
                let r = skip(toks, w + 1);
                if at_num(toks, r) {
                    let kind = ExprKind::Num(token_str(&toks[r].0));
                    return Some((Some(node_x(toks, r, r + 1, kind)), true, r + 1));
                } else if at_ident(toks, r) {
                    let kind = ExprKind::Str(String::from_str(token_str(&toks[r].0)));
                    return Some((Some(node_x(toks, r, r + 1, kind)), true, r + 1));
                }
            }
            if at_sym(toks, j, Sym::Dot) {
                if lookahead_each(toks, j + 1) {
                    Some((None, true, j + 1))
                } else if at_sym(toks, j + 1, Sym::Dot) {
                    Some((None, true, j + 2))
                } else {
                    None
                }
            } else {
                None
            }
        },
    }
}

fn lookahead_each(toks: &[Spanned<Token>], q: usize) -> (b: bool)
    requires
        q <= toks@.len(),
    ensures
        b == each_lookahead(toks@, q as int),
{
    let w = skip(toks, q);
    at_sym(toks, w, Sym::SquareOpen) || (at_sym(toks, w, Sym::Dot) && at_ident(toks, skip(toks, w + 1)))
}

fn p_bracket<'src>(toks: &[Spanned<Token<'src>>], j: usize) -> (r: Option<(Option<Expr<'src>>, usize)>)
    requires
        j <= toks@.len(),
    ensures
        match r {
            Some((inner, k)) => bracket_access(toks@, j as int) == Some((oev(inner), k as int)) && j < k <= toks@.len(),
            None => bracket_access(toks@, j as int) is None,
        },
    decreases toks@.len() - j, 12int,
{
    let w = skip(toks, j);
    if at_sym(toks, w, Sym::SquareOpen) {
        let (inner, after) = match p_expr(toks, w + 1) {
            Some((x, e)) => (Some(x), e),
            None => (None, w + 1),
        };
        if at_sym(toks, after, Sym::SquareClose) {
            Some((inner, skip(toks, after + 1)))
        } else {
            None
        }
    } else {
        None
    }
}

fn p_atom<'src>(toks: &[Spanned<Token<'src>>], i: usize) -> (r: Option<(Expr<'src>, usize)>)
    requires
        i <= toks@.len(),
    ensures
        ev(r) == g_atom(toks@, i as int),
        ends_after(r, i, toks@.len()),
    decreases toks@.len() - i, 14int,
{
    let w = skip(toks, i);
    match p_atom_alt(toks, w) {
        Some((kind, e)) => {
            let end = skip(toks, e);
            Some((node_x(toks, i, end, kind), end))
        },
        None => None,
    }
}

fn p_atom_alt<'src>(toks: &[Spanned<Token<'src>>], w: usize) -> (r: Option<(ExprKind<'src>, usize)>)
    requires
        w <= toks@.len(),
    ensures
        kv(r) == atom_alt(toks@, w as int),
        ends_after(r, w, toks@.len()),
    decreases toks@.len() - w, 11int,
{
    proof {
        lemma_readers_advance(toks@, w as int);
    }
    if let Some(r) = p_atom_call(toks, w) {
        return Some(r);
    }
    if at_ident(toks, w) {
        return Some((ExprKind::Ident(token_str(&toks[w].0)), w + 1));
    }
    if at_num(toks, w) {
        return Some((ExprKind::Num(token_str(&toks[w].0)), w + 1));
    }
    if at_str(toks, w) {
        return Some((ExprKind::Str(token_string(&toks[w].0)), w + 1));
    }
    if let Some(r) = padded(toks, w, Sym::ParenOpen) {
        if let Some(f) = padded(toks, r, Sym::ParenClose) {
            return Some((ExprKind::EmptyList, f));
        }
    }
    if let Some(r) = p_atom_paren(toks, w) {
        return Some(r);
    }
    if let Some(r) = p_atom_each(toks, w) {
        return Some(r);
    }
    if let Some(r) = p_atom_while(toks, w) {
        return Some(r);
    }
    p_atom_on(toks, w)
}

fn p_atom_call<'src>(toks: &[Spanned<Token<'src>>], w: usize) -> (r: Option<(ExprKind<'src>, usize)>)
    requires
        w <= toks@.len(),
    ensures
        kv(r) == atom_call(toks@, w as int),
        ends_after(r, w, toks@.len()),
    decreases toks@.len() - w, 10int,
{
    if at_ident(toks, w) {
        match padded(toks, w + 1, Sym::SquareOpen) {
            Some(r) => {
                let (args, e) = p_exprs(toks, r);
                match padded(toks, e, Sym::SquareClose) {
                    Some(f) => {
                        let func = node_x(toks, w, w + 1, ExprKind::Ident(token_str(&toks[w].0)));
                        Some((ExprKind::Call { func: Box::new(func), args }, f))
                    },
                    None => None,
                }
            },
            None => None,
        }
    } else {
        None
    }
}

fn p_atom_paren<'src>(toks: &[Spanned<Token<'src>>], w: usize) -> (r: Option<(ExprKind<'src>, usize)>)
    requires
        w <= toks@.len(),
    ensures
        kv(r) == atom_paren(toks@, w as int),
        ends_after(r, w, toks@.len()),
    decreases toks@.len() - w, 10int,
{
    match padded(toks, w, Sym::ParenOpen) {
        Some(r) => match p_expr(toks, r) {
            Some((x, e)) => match padded(toks, e, Sym::ParenClose) {
                Some(f) => Some((ExprKind::Wrap(Box::new(x)), f)),
                None => None,
            },
            None => None,
        },
        None => None,
    }
}

fn opt_do_x(toks: &[Spanned<Token>], e: usize) -> (d: usize)
    requires
        e <= toks@.len(),
    ensures
        d == opt_do(toks@, e as int),
        e <= d <= toks@.len(),
{
    let w = skip(toks, e);
    if at_sym(toks, w, Sym::Do) {
        skip(toks, w + 1)
    } else {
        w
    }
}

fn p_atom_each<'src>(toks: &[Spanned<Token<'src>>], w: usize) -> (r: Option<(ExprKind<'src>, usize)>)
    requires
        w <= toks@.len(),
    ensures
        kv(r) == atom_each(toks@, w as int),
        ends_after(r, w, toks@.len()),
    decreases toks@.len() - w, 10int,
{
    if at_sym(toks, w, Sym::Each) {
        let (vars, p) = names(toks, w + 1);
        match padded(toks, p, Sym::In) {
            Some(q) => match p_expr(toks, q) {
                Some((arr, e)) => {
                    let (body, b) = p_exprs(toks, opt_do_x(toks, e));
                    match padded(toks, b, Sym::End) {
                        Some(f) => Some((ExprKind::ForEach { vars, arr: Box::new(arr), body }, f)),
                        None => None,
                    }
                },
                None => None,
            },
            None => None,
        }
    } else {
        None
    }
}

fn p_atom_while<'src>(toks: &[Spanned<Token<'src>>], w: usize) -> (r: Option<(ExprKind<'src>, usize)>)
    requires
        w <= toks@.len(),
    ensures
        kv(r) == atom_while(toks@, w as int),
        ends_after(r, w, toks@.len()),
    decreases toks@.len() - w, 10int,
{
    if at_sym(toks, w, Sym::While) {
        match p_expr(toks, w + 1) {
            Some((cond, e)) => {
                assert(g_expr(toks@, w + 1) == Some((cond@, e as int)));
                let d = opt_do_x(toks, e);
                let (body, b) = p_exprs(toks, d);
                match padded(toks, b, Sym::End) {
                    Some(f) => Some((ExprKind::While { cond: Box::new(cond), body }, f)),
                    None => None,
                }
            },
            None => None,
        }
    } else {
        None
    }
}

fn p_atom_on<'src>(toks: &[Spanned<Token<'src>>], w: usize) -> (r: Option<(ExprKind<'src>, usize)>)
    requires
        w <= toks@.len(),
    ensures
        kv(r) == atom_on(toks@, w as int),
        ends_after(r, w, toks@.len()),
    decreases toks@.len() - w, 10int,
{
    if w < toks.len() && at_sym(toks, w, Sym::On) {
        let j = skip(toks, w + 1);
        if at_ident(toks, j) {
            let (args, q) = names(toks, skip(toks, j + 1));
            match padded(toks, q, Sym::Do) {
                Some(d) => {
                    let (body, b) = p_exprs(toks, d);
                    match padded(toks, b, Sym::End) {
                        Some(f) => {
                            let name = token_str(&toks[j].0);
                            Some((ExprKind::Function { name, args, body }, f))
                        },
                        None => None,
                    }
                },
                None => None,
            }
        } else {
            None
        }
    } else {
        None
    }
}

fn p_exprs<'src>(toks: &[Spanned<Token<'src>>], i: usize) -> (r: (Vec<Expr<'src>>, usize))
    requires
        i <= toks@.len(),
    ensures
        exprs_view(r.0@) == exprs_rep(toks@, i as int).0,
        r.1 == exprs_rep(toks@, i as int).1,
        i <= r.1 <= toks@.len(),
    decreases toks@.len() - i, 30int,
{
    match p_expr(toks, i) {
        Some((x, j)) => {
            let (mut rest, k) = p_exprs(toks, j);
            let ghost old_rest = rest@;
            rest.insert(0, x);
            proof {
                assert(rest@ =~= seq![x] + old_rest);
                lemma_exprs_view_prepend(x, old_rest);
            }
            (rest, k)
        },
        None => (Vec::new(), i),
    }
}

// ---------------------------------------------------------------------------
// Where a failed parse is reported: the executable counterparts of `failure`.

pub open spec fn fv(f: Option<(usize, usize)>) -> Fail {
    match f {
        Some((p, t)) => Some((p as int, t as int)),
        None => None,
    }
}

fn fthen_x(a: Option<(usize, usize)>, b: Option<(usize, usize)>) -> (r: Option<(usize, usize)>)
    ensures
        fv(r) == fthen(fv(a), fv(b)),
{
    match (a, b) {
        (None, _) => b,
        (Some(_), None) => a,
        (Some(x), Some(y)) => if y.0 > x.0 {
            b
        } else {
            a
        },
    }
}

fn rec_x(p: usize) -> (r: Option<(usize, usize)>)
    ensures
        fv(r) == rec(p as int),
{
    Some((p, p))
}

fn ws_fail_x(toks: &[Spanned<Token>], k: usize) -> (r: Option<(usize, usize)>)
    requires
        k <= toks@.len(),
    ensures
        fv(r) == ws_fail(toks@, k as int),
{
    rec_x(skip(toks, k))
}

fn sym_fail_x(toks: &[Spanned<Token>], k: usize, s: Sym) -> (r: Option<(usize, usize)>)
    requires
        k <= toks@.len(),
    ensures
        fv(r) == sym_fail(toks@, k as int, s),
{
    let w = skip(toks, k);
    let tail = if at_sym(toks, w, s) {
        ws_fail_x(toks, w + 1)
    } else {
        rec_x(w)
    };
    fthen_x(ws_fail_x(toks, k), tail)
}

fn op_fail_x(toks: &[Spanned<Token>], k: usize, unary: bool) -> (r: Option<(usize, usize)>)
    requires
        k <= toks@.len(),
    ensures
        fv(r) == op_fail(toks@, k as int, unary),
{
    let w = skip(toks, k);
    let tail = if w >= toks.len() {
        rec_x(toks.len())
    } else {
        let ok = if unary {
            match tok_to_uny(&toks[w].0) {
                Some(_) => true,
                None => false,
            }
        } else {
            match tok_to_bin(&toks[w].0) {
                Some(_) => true,
                None => false,
            }
        };
        if ok {
            ws_fail_x(toks, w + 1)
        } else {
            Some((w + 1, w))
        }
    };
    fthen_x(ws_fail_x(toks, k), tail)
}

fn names_fail_x(toks: &[Spanned<Token>], k: usize) -> (r: Option<(usize, usize)>)
    requires
        k <= toks@.len(),
    ensures
        fv(r) == names_fail(toks@, k as int),
    decreases toks@.len() - k,
{
    let j = skip(toks, k);
    if at_ident(toks, j) {
        let k2 = skip(toks, j + 1);
        fthen_x(ws_fail_x(toks, k), fthen_x(ws_fail_x(toks, j + 1), names_fail_x(toks, k2)))
    } else {
        fthen_x(ws_fail_x(toks, k), rec_x(j))
    }
}

fn opt_do_fail_x(toks: &[Spanned<Token>], e: usize) -> (r: Option<(usize, usize)>)
    requires
        e <= toks@.len(),
    ensures
        fv(r) == opt_do_fail(toks@, e as int),
{
    let w = skip(toks, e);
    let tail = if at_sym(toks, w, Sym::Do) {
        ws_fail_x(toks, w + 1)
    } else {
        rec_x(w)
    };
    fthen_x(ws_fail_x(toks, e), tail)
}

fn lookahead_fail_x(toks: &[Spanned<Token>], q: usize) -> (r: Option<(usize, usize)>)
    requires
        q <= toks@.len(),
    ensures
        fv(r) == lookahead_fail(toks@, q as int),
{
    let w = skip(toks, q);
    let tail = if at_sym(toks, w, Sym::SquareOpen) {
        ws_fail_x(toks, w + 1)
    } else {
        let dot = if at_sym(toks, w, Sym::Dot) {
            let v = skip(toks, w + 1);
            let last = if at_ident(toks, v) {
                ws_fail_x(toks, v + 1)
            } else {
                rec_x(v)
            };
            fthen_x(ws_fail_x(toks, w + 1), last)
        } else {
            None
        };
        fthen_x(rec_x(w), dot)
    };
    fthen_x(ws_fail_x(toks, q), tail)
}

fn each_acc_fail_x(toks: &[Spanned<Token>], j: usize) -> (r: Option<(usize, usize)>)
    requires
        j <= toks@.len(),
    ensures
        fv(r) == each_acc_fail(toks@, j as int),
{
    if !at_sym(toks, j, Sym::Dot) {
        rec_x(j)
    } else {
        let tail = if lookahead_each(toks, j + 1) || at_sym(toks, j + 1, Sym::Dot) {
            None
        } else {
            rec_x(j + 1)
        };
        fthen_x(lookahead_fail_x(toks, j + 1), tail)
    }
}

fn field_fail_x(toks: &[Spanned<Token>], j: usize) -> (r: Option<(usize, usize)>)
    requires
        j <= toks@.len(),
    ensures
        fv(r) == field_fail(toks@, j as int),
{
    let w = skip(toks, j);
    let tail = if at_sym(toks, w, Sym::Dot) {
        let r = skip(toks, w + 1);
        if !at_num(toks, r) {
            rec_x(r)
        } else {
            None
        }
    } else {
        None
    };
    fthen_x(sym_fail_x(toks, j, Sym::Dot), tail)
}

fn f_expr(toks: &[Spanned<Token>], i: usize) -> (r: Option<(usize, usize)>)
    requires
        i <= toks@.len(),
    ensures
        fv(r) == e_expr(toks@, i as int),
    decreases toks@.len() - i, 20int,
{
    f_assign(toks, i)
}

fn f_assign(toks: &[Spanned<Token>], i: usize) -> (r: Option<(usize, usize)>)
    requires
        i <= toks@.len(),
    ensures
        fv(r) == e_assign(toks@, i as int),
    decreases toks@.len() - i, 19int,
{
    let sf = f_spread(toks, i);
    match p_spread(toks, i) {
        Some((_, j)) => {
            let cf = fthen_x(sf, sym_fail_x(toks, j, Sym::Colon));
            match padded(toks, j, Sym::Colon) {
                Some(k) => fthen_x(cf, f_expr(toks, k)),
                None => cf,
            }
        },
        None => sf,
    }
}

fn f_spread(toks: &[Spanned<Token>], i: usize) -> (r: Option<(usize, usize)>)
    requires
        i <= toks@.len(),
    ensures
        fv(r) == e_spread(toks@, i as int),
    decreases toks@.len() - i, 18int,
{
    let uf = match unary_at(toks, i) {
        Some((_, j)) => sym_fail_x(toks, j, Sym::At),
        None => None,
    };
    let sf = fthen_x(op_fail_x(toks, i, true), uf);
    match spread_op(toks, i) {
        Some((_, k)) => fthen_x(sf, f_spread(toks, k)),
        None => fthen_x(sf, f_unary(toks, i)),
    }
}

fn f_unary(toks: &[Spanned<Token>], i: usize) -> (r: Option<(usize, usize)>)
    requires
        i <= toks@.len(),
    ensures
        fv(r) == e_unary(toks@, i as int),
    decreases toks@.len() - i, 17int,
{
    match unary_at(toks, i) {
        Some((_, j)) => fthen_x(op_fail_x(toks, i, true), f_unary(toks, j)),
        None => fthen_x(op_fail_x(toks, i, true), f_binary(toks, i)),
    }
}

fn f_binary(toks: &[Spanned<Token>], i: usize) -> (r: Option<(usize, usize)>)
    requires
        i <= toks@.len(),
    ensures
        fv(r) == e_binary(toks@, i as int),
    decreases toks@.len() - i, 16int,
{
    let af = f_arr_access(toks, i);
    match p_arr_access(toks, i) {
        Some((_, j)) => fthen_x(af, f_binary_rest(toks, j)),
        None => af,
    }
}

fn f_binary_rest(toks: &[Spanned<Token>], j: usize) -> (r: Option<(usize, usize)>)
    requires
        j <= toks@.len(),
    ensures
        fv(r) == e_binary_rest(toks@, j as int),
    decreases toks@.len() - j, 30int,
{
    let bf = op_fail_x(toks, j, false);
    match bin_at(toks, j) {
        Some((_, k)) => {
            let xf = fthen_x(bf, f_expr(toks, k));
            match p_expr(toks, k) {
                Some((_, m)) => fthen_x(xf, f_binary_rest(toks, m)),
                None => xf,
            }
        },
        None => bf,
    }
}

fn f_arr_access(toks: &[Spanned<Token>], i: usize) -> (r: Option<(usize, usize)>)
    requires
        i <= toks@.len(),
    ensures
        fv(r) == e_arr_access(toks@, i as int),
    decreases toks@.len() - i, 15int,
{
    let af = f_atom(toks, i);
    match p_atom(toks, i) {
        Some((_, j)) => fthen_x(af, f_access_rest(toks, j)),
        None => af,
    }
}

fn f_access_rest(toks: &[Spanned<Token>], j: usize) -> (r: Option<(usize, usize)>)
    requires
        j <= toks@.len(),
    ensures
        fv(r) == e_access_rest(toks@, j as int),
    decreases toks@.len() - j, 30int,
{
    let af = f_access(toks, j);
    match p_access(toks, j) {
        Some((_, _, k)) => fthen_x(af, f_access_rest(toks, k)),
        None => af,
    }
}

fn f_access(toks: &[Spanned<Token>], j: usize) -> (r: Option<(usize, usize)>)
    requires
        j <= toks@.len(),
    ensures
        fv(r) == e_access(toks@, j as int),
    decreases toks@.len() - j, 13int,
{
    let fb = f_bracket(toks, j);
    let bracket_ok = match p_bracket(toks, j) {
        Some(_) => true,
        None => false,
    };
    if bracket_ok {
        return fb;
    }
    let w = skip(toks, j);
    let field_ok = if at_sym(toks, w, Sym::Dot) {
        let r = skip(toks, w + 1);
        at_num(toks, r) || at_ident(toks, r)
    } else {
        false
    };
    if field_ok {
        fthen_x(fb, field_fail_x(toks, j))
    } else {
        fthen_x(fb, fthen_x(field_fail_x(toks, j), each_acc_fail_x(toks, j)))
    }
}

fn f_bracket(toks: &[Spanned<Token>], j: usize) -> (r: Option<(usize, usize)>)
    requires
        j <= toks@.len(),
    ensures
        fv(r) == e_bracket(toks@, j as int),
    decreases toks@.len() - j, 12int,
{
    let w = skip(toks, j);
    if at_sym(toks, w, Sym::SquareOpen) {
        let xf = f_expr(toks, w + 1);
        let after = match p_expr(toks, w + 1) {
            Some((_, e)) => e,
            None => w + 1,
        };
        let tail = if at_sym(toks, after, Sym::SquareClose) {
            ws_fail_x(toks, after + 1)
        } else {
            rec_x(after)
        };
        fthen_x(ws_fail_x(toks, j), fthen_x(xf, tail))
    } else {
        fthen_x(ws_fail_x(toks, j), rec_x(w))
    }
}

fn f_atom(toks: &[Spanned<Token>], i: usize) -> (r: Option<(usize, usize)>)
    requires
        i <= toks@.len(),
    ensures
        fv(r) == e_atom(toks@, i as int),
    decreases toks@.len() - i, 14int,
{
    let w = skip(toks, i);
    let af = fthen_x(ws_fail_x(toks, i), f_atom_alt(toks, w));
    match p_atom_alt(toks, w) {
        Some((_, e)) => fthen_x(af, ws_fail_x(toks, e)),
        None => af,
    }
}

fn f_atom_alt(toks: &[Spanned<Token>], w: usize) -> (r: Option<(usize, usize)>)
    requires
        w <= toks@.len(),
    ensures
        fv(r) == e_atom_alt(toks@, w as int),
    decreases toks@.len() - w, 11int,
{
    let fc = f_call(toks, w);
    let call_ok = match p_atom_call(toks, w) {
        Some(_) => true,
        None => false,
    };
    if call_ok || at_ident(toks, w) {
        return fc;
    }
    let f3 = fthen_x(fc, rec_x(w));
    if at_num(toks, w) || at_str(toks, w) {
        return f3;
    }
    let (close, empty_ok) = match padded(toks, w, Sym::ParenOpen) {
        Some(r) => (sym_fail_x(toks, r, Sym::ParenClose), match padded(toks, r, Sym::ParenClose) {
            Some(_) => true,
            None => false,
        }),
        None => (None, false),
    };
    let f4 = fthen_x(f3, fthen_x(sym_fail_x(toks, w, Sym::ParenOpen), close));
    if empty_ok {
        return f4;
    }
    let f5 = fthen_x(f4, f_paren(toks, w));
    if let Some(_) = p_atom_paren(toks, w) {
        return f5;
    }
    let f6 = fthen_x(f5, f_each(toks, w));
    if let Some(_) = p_atom_each(toks, w) {
        return f6;
    }
    let f7 = fthen_x(f6, f_while(toks, w));
    if let Some(_) = p_atom_while(toks, w) {
        return f7;
    }
    fthen_x(f7, f_on(toks, w))
}

fn f_call(toks: &[Spanned<Token>], w: usize) -> (r: Option<(usize, usize)>)
    requires
        w <= toks@.len(),
    ensures
        fv(r) == e_call(toks@, w as int),
    decreases toks@.len() - w, 10int,
{
    if at_ident(toks, w) {
        let sf = sym_fail_x(toks, w + 1, Sym::SquareOpen);
        match padded(toks, w + 1, Sym::SquareOpen) {
            Some(r) => {
                let (_, e) = p_exprs(toks, r);
                fthen_x(sf, fthen_x(f_exprs(toks, r), sym_fail_x(toks, e, Sym::SquareClose)))
            },
            None => sf,
        }
    } else {
        rec_x(w)
    }
}

fn f_paren(toks: &[Spanned<Token>], w: usize) -> (r: Option<(usize, usize)>)
    requires
        w <= toks@.len(),
    ensures
        fv(r) == e_paren(toks@, w as int),
    decreases toks@.len() - w, 10int,
{
    let sf = sym_fail_x(toks, w, Sym::ParenOpen);
    match padded(toks, w, Sym::ParenOpen) {
        Some(r) => {
            let xf = f_expr(toks, r);
            let tail = match p_expr(toks, r) {
                Some((_, e)) => sym_fail_x(toks, e, Sym::ParenClose),
                None => None,
            };
            fthen_x(sf, fthen_x(xf, tail))
        },
        None => sf,
    }
}

fn f_each(toks: &[Spanned<Token>], w: usize) -> (r: Option<(usize, usize)>)
    requires
        w <= toks@.len(),
    ensures
        fv(r) == e_each(toks@, w as int),
    decreases toks@.len() - w, 10int,
{
    if at_sym(toks, w, Sym::Each) {
        let (_, p) = names(toks, w + 1);
        let f = fthen_x(names_fail_x(toks, w + 1), sym_fail_x(toks, p, Sym::In));
        match padded(toks, p, Sym::In) {
            Some(q) => {
                let f2 = fthen_x(f, f_expr(toks, q));
                match p_expr(toks, q) {
                    Some((_, e)) => {
                        let d = opt_do_x(toks, e);
                        let (_, b) = p_exprs(toks, d);
                        fthen_x(f2, fthen_x(opt_do_fail_x(toks, e), fthen_x(f_exprs(toks, d), sym_fail_x(toks, b, Sym::End))))
                    },
                    None => f2,
                }
            },
            None => f,
        }
    } else {
        rec_x(w)
    }
}

fn f_while(toks: &[Spanned<Token>], w: usize) -> (r: Option<(usize, usize)>)
    requires
        w <= toks@.len(),
    ensures
        fv(r) == e_while(toks@, w as int),
    decreases toks@.len() - w, 10int,
{
    if at_sym(toks, w, Sym::While) {
        let f = f_expr(toks, w + 1);
        match p_expr(toks, w + 1) {
            Some((_, e)) => {
                let d = opt_do_x(toks, e);
                let (_, b) = p_exprs(toks, d);
                fthen_x(f, fthen_x(opt_do_fail_x(toks, e), fthen_x(f_exprs(toks, d), sym_fail_x(toks, b, Sym::End))))
            },
            None => f,
        }
    } else {
        rec_x(w)
    }
}

fn f_on(toks: &[Spanned<Token>], w: usize) -> (r: Option<(usize, usize)>)
    requires
        w <= toks@.len(),
    ensures
        fv(r) == e_on(toks@, w as int),
    decreases toks@.len() - w, 10int,
{
    if at_sym(toks, w, Sym::On) {
        let j = skip(toks, w + 1);
        if at_ident(toks, j) {
            let k = skip(toks, j + 1);
            let (_, q) = names(toks, k);
            let f = fthen_x(
                ws_fail_x(toks, w + 1),
                fthen_x(ws_fail_x(toks, j + 1), fthen_x(names_fail_x(toks, k), sym_fail_x(toks, q, Sym::Do))),
            );
            match padded(toks, q, Sym::Do) {
                Some(d) => {
                    let (_, b) = p_exprs(toks, d);
                    fthen_x(f, fthen_x(f_exprs(toks, d), sym_fail_x(toks, b, Sym::End)))
                },
                None => f,
            }
        } else {
            fthen_x(ws_fail_x(toks, w + 1), rec_x(j))
        }
    } else {
        rec_x(w)
    }
}

fn f_exprs(toks: &[Spanned<Token>], i: usize) -> (r: Option<(usize, usize)>)
    requires
        i <= toks@.len(),
    ensures
        fv(r) == e_exprs(toks@, i as int),
    decreases toks@.len() - i, 30int,
{
    let xf = f_expr(toks, i);
    match p_expr(toks, i) {
        Some((_, j)) => fthen_x(xf, f_exprs(toks, j)),
        None => xf,
    }
}

/// Parses the whole token sequence as one expression. On failure the error spans the
/// furthest failure any alternative of the grammar reached (see `failure`): a token, or
/// the end of input, reported from the start of `eoi` to the end of the last token.
pub fn parse_expr<'src>(toks: &[Spanned<Token<'src>>], eoi: Range<usize>) -> (res: Result<Expr<'src>, ParseError>)
    ensures
        res matches Ok(e) ==> parses_to(toks@, e@),
        res is Err ==> !(exists|e: ExprV| parses_to(toks@, e)),
        res matches Err(err) ==> parse_fail(toks@) matches Some((_, t)) && err.span == fail_span(toks@, eoi, t)
            && err.found == (if t < toks@.len() { Some(t as usize) } else { None::<usize> }),
{
    let end_fail = match p_expr(toks, 0) {
        Some((e, j)) => {
            if j == toks.len() {
                return Ok(e);
            }
            rec_x(j)
        },
        None => None,
    };
    let fin = fthen_x(f_expr(toks, 0), end_fail);
    match fin {
        Some((_, t)) => {
            if t < toks.len() {
                let sp = &toks[t].1;
                Err(ParseError { span: Range { start: sp.start, end: sp.end }, found: Some(t) })
            } else {
                let end = if toks.len() > 0 {
                    toks[toks.len() - 1].1.end
                } else {
                    eoi.end
                };
                Err(ParseError { span: Range { start: eoi.start, end }, found: None })
            }
        },
        None => {
            proof {
                lemma_failure_recorded(toks@);
            }
            assert(false);
            Err(ParseError { span: eoi, found: None })
        },
    }
}

} // verus!
