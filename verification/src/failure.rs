//! Where a parse that fails is reported.
//!
//! Each token-level test that fails while the grammar is tried records a failure: at a
//! position (a token index, the number of tokens standing for the end of input) and with
//! the token whose byte range it reports. A test for a token of some kind records the
//! token it looked at. A test that reads any token and then rejects it (the operator
//! tests) records that token at the position after it. Reading padding stops at the first
//! token that is not padding, and records it. The report is the furthest failure; among
//! failures at the same position, the one recorded first. Each function below gives that
//! report for its nonterminal, tried as the grammar tries it, alternatives and repetitions
//! in order. This is the bookkeeping of chumsky's parsers (`select_ref`, `any_ref` with
//! `filter`, `end`, and the combinators that only pass failures on), which report the
//! furthest failure in the same way.

use std::ops::Range;
use vstd::prelude::*;
use crate::grammar::{
    atom_alt, atom_call, atom_each, atom_paren, atom_while, bracket_access, each_lookahead,
    empty_list, exprs_rep, g_access, g_arr_access, g_atom, g_expr, g_spread, ident_at,
    lemma_readers_advance, lemma_skip_ws, lemma_names_rep_bounds, names_rep, num_at, opt_do,
    padded_sym, skip_ws, spread_op_at, str_at, sym_at, unary_op_at, bin_op_at, Sym, Toks,
};
use crate::parse::{bin_op_of, unary_op_of, ExprV};

verus! {

/// The furthest failure recorded so far, as its position and the index of the token it
/// reports, if any failure was recorded.
pub type Fail = Option<(int, int)>;

/// The failures of `a`, then those of `b`: the later ones replace the report only where
/// they are further.
pub open spec fn fthen(a: Fail, b: Fail) -> Fail {
    match (a, b) {
        (None, _) => b,
        (Some(_), None) => a,
        (Some(x), Some(y)) => if y.0 > x.0 {
            b
        } else {
            a
        },
    }
}

/// A failure at position `p` that reports the token there.
pub open spec fn rec(p: int) -> Fail {
    Some((p, p))
}

/// Reading padding from `k`.
pub open spec fn ws_fail(toks: Toks, k: int) -> Fail {
    rec(skip_ws(toks, k))
}

/// Reading the token `s` with padding around it, from `k`.
pub open spec fn sym_fail(toks: Toks, k: int, s: Sym) -> Fail {
    let w = skip_ws(toks, k);
    fthen(ws_fail(toks, k), if sym_at(toks, w, s) { ws_fail(toks, w + 1) } else { rec(w) })
}

/// Reading a unary (or else a binary) operator with padding around it, from `k`.
pub open spec fn op_fail(toks: Toks, k: int, unary: bool) -> Fail {
    let w = skip_ws(toks, k);
    let ok = if unary { unary_op_of(toks[w].0) is Some } else { bin_op_of(toks[w].0) is Some };
    fthen(
        ws_fail(toks, k),
        if w >= toks.len() {
            rec(toks.len() as int)
        } else if ok {
            ws_fail(toks, w + 1)
        } else {
            Some((w + 1, w))
        },
    )
}

/// Names with padding around them, repeated, from `k`.
pub open spec fn names_fail(toks: Toks, k: int) -> Fail
    decreases toks.len() - k,
{
    let j = skip_ws(toks, k);
    if 0 <= k <= toks.len() && ident_at(toks, j) {
        proof {
            lemma_skip_ws(toks, k);
            lemma_skip_ws(toks, j + 1);
        }
        fthen(ws_fail(toks, k), fthen(ws_fail(toks, j + 1), names_fail(toks, skip_ws(toks, j + 1))))
    } else {
        fthen(ws_fail(toks, k), rec(j))
    }
}

/// An optional `do` with padding around it, from `e`.
pub open spec fn opt_do_fail(toks: Toks, e: int) -> Fail {
    let w = skip_ws(toks, e);
    fthen(ws_fail(toks, e), if sym_at(toks, w, Sym::Do) { ws_fail(toks, w + 1) } else { rec(w) })
}

/// The look ahead after a dot at `q - 1`: `[`, or a dot and an identifier.
pub open spec fn lookahead_fail(toks: Toks, q: int) -> Fail {
    let w = skip_ws(toks, q);
    fthen(
        ws_fail(toks, q),
        if sym_at(toks, w, Sym::SquareOpen) {
            ws_fail(toks, w + 1)
        } else {
            fthen(
                rec(w),
                if sym_at(toks, w, Sym::Dot) {
                    let v = skip_ws(toks, w + 1);
                    fthen(ws_fail(toks, w + 1), if ident_at(toks, v) { ws_fail(toks, v + 1) } else { rec(v) })
                } else {
                    None
                },
            )
        },
    )
}

/// The each accessor at `j`: a dot, then the look ahead or a second dot.
pub open spec fn each_acc_fail(toks: Toks, j: int) -> Fail {
    if !sym_at(toks, j, Sym::Dot) {
        rec(j)
    } else {
        fthen(
            lookahead_fail(toks, j + 1),
            if each_lookahead(toks, j + 1) || sym_at(toks, j + 1, Sym::Dot) { None } else { rec(j + 1) },
        )
    }
}

/// The field accessor at `j`: a dot with padding around it, then a number or a name.
pub open spec fn field_fail(toks: Toks, j: int) -> Fail {
    let w = skip_ws(toks, j);
    let r = skip_ws(toks, w + 1);
    fthen(sym_fail(toks, j, Sym::Dot), if sym_at(toks, w, Sym::Dot) && !num_at(toks, r) { rec(r) } else { None })
}

/// `expr`
pub open spec fn e_expr(toks: Toks, i: int) -> Fail
    decreases toks.len() - i, 20int,
{
    e_assign(toks, i)
}

/// `assign`: a spread, then `:` and an expression; failing that, the spread again (which
/// records nothing further).
pub open spec fn e_assign(toks: Toks, i: int) -> Fail
    decreases toks.len() - i, 19int,
{
    let sf = e_spread(toks, i);
    match g_spread(toks, i) {
        Some((_, j)) => if 0 <= i < j <= toks.len() {
            proof {
                lemma_readers_advance(toks, j);
            }
            let cf = fthen(sf, sym_fail(toks, j, Sym::Colon));
            match padded_sym(toks, j, Sym::Colon) {
                Some(k) => fthen(cf, e_expr(toks, k)),
                None => cf,
            }
        } else {
            sf
        },
        None => sf,
    }
}

/// `spread`: unary operators followed by `@`, repeated, then `unary`.
pub open spec fn e_spread(toks: Toks, i: int) -> Fail
    decreases toks.len() - i, 18int,
{
    if 0 <= i <= toks.len() {
        let sf = fthen(
            op_fail(toks, i, true),
            match unary_op_at(toks, i) {
                Some((_, j)) => sym_fail(toks, j, Sym::At),
                None => None,
            },
        );
        proof {
            lemma_readers_advance(toks, i);
        }
        if spread_op_at(toks, i) is Some {
            let (_, k) = spread_op_at(toks, i)->0;
            fthen(sf, e_spread(toks, k))
        } else {
            fthen(sf, e_unary(toks, i))
        }
    } else {
        None
    }
}

/// `unary`: unary operators, repeated, then `binary`.
pub open spec fn e_unary(toks: Toks, i: int) -> Fail
    decreases toks.len() - i, 17int,
{
    if 0 <= i <= toks.len() {
        proof {
            lemma_readers_advance(toks, i);
        }
        if unary_op_at(toks, i) is Some {
            let (_, j) = unary_op_at(toks, i)->0;
            fthen(op_fail(toks, i, true), e_unary(toks, j))
        } else {
            fthen(op_fail(toks, i, true), e_binary(toks, i))
        }
    } else {
        None
    }
}

/// `binary`: an access, then binary operators and expressions, repeated.
pub open spec fn e_binary(toks: Toks, i: int) -> Fail
    decreases toks.len() - i, 16int,
{
    let af = e_arr_access(toks, i);
    match g_arr_access(toks, i) {
        Some((_, j)) => if 0 <= i < j <= toks.len() {
            fthen(af, e_binary_rest(toks, j))
        } else {
            af
        },
        None => af,
    }
}

pub open spec fn e_binary_rest(toks: Toks, j: int) -> Fail
    decreases toks.len() - j, 30int,
{
    if 0 <= j <= toks.len() {
        let bf = op_fail(toks, j, false);
        proof {
            lemma_readers_advance(toks, j);
        }
        match bin_op_at(toks, j) {
            Some((_, k)) => {
                let xf = fthen(bf, e_expr(toks, k));
                match g_expr(toks, k) {
                    Some((_, m)) => if k < m <= toks.len() {
                        fthen(xf, e_binary_rest(toks, m))
                    } else {
                        xf
                    },
                    None => xf,
                }
            },
            None => bf,
        }
    } else {
        None
    }
}

/// `access`: an atom, then accessors, repeated.
pub open spec fn e_arr_access(toks: Toks, i: int) -> Fail
    decreases toks.len() - i, 15int,
{
    let af = e_atom(toks, i);
    match g_atom(toks, i) {
        Some((_, j)) => if 0 <= i < j <= toks.len() {
            fthen(af, e_access_rest(toks, j))
        } else {
            af
        },
        None => af,
    }
}

pub open spec fn e_access_rest(toks: Toks, j: int) -> Fail
    decreases toks.len() - j, 30int,
{
    if 0 <= j <= toks.len() {
        let af = e_access(toks, j);
        match g_access(toks, j) {
            Some((_, _, k)) => if j < k <= toks.len() {
                fthen(af, e_access_rest(toks, k))
            } else {
                af
            },
            None => af,
        }
    } else {
        None
    }
}

/// One accessor: brackets, then a field, then an each.
pub open spec fn e_access(toks: Toks, j: int) -> Fail
    decreases toks.len() - j, 13int,
{
    let fb = e_bracket(toks, j);
    let w = skip_ws(toks, j);
    let r = skip_ws(toks, w + 1);
    if bracket_access(toks, j) is Some {
        fb
    } else if sym_at(toks, w, Sym::Dot) && (num_at(toks, r) || ident_at(toks, r)) {
        fthen(fb, field_fail(toks, j))
    } else {
        fthen(fb, fthen(field_fail(toks, j), each_acc_fail(toks, j)))
    }
}

/// `'[' expr? ']'` with padding around it.
pub open spec fn e_bracket(toks: Toks, j: int) -> Fail
    decreases toks.len() - j, 12int,
{
    let w = skip_ws(toks, j);
    if 0 <= j <= toks.len() && sym_at(toks, w, Sym::SquareOpen) {
        proof {
            lemma_skip_ws(toks, j);
        }
        let after = match g_expr(toks, w + 1) {
            Some((_, e)) => e,
            None => w + 1,
        };
        fthen(
            ws_fail(toks, j),
            fthen(
                e_expr(toks, w + 1),
                if sym_at(toks, after, Sym::SquareClose) { ws_fail(toks, after + 1) } else { rec(after) },
            ),
        )
    } else {
        fthen(ws_fail(toks, j), rec(w))
    }
}

/// `atom`: padding, the atom alternatives, padding.
pub open spec fn e_atom(toks: Toks, i: int) -> Fail
    decreases toks.len() - i, 14int,
{
    if 0 <= i <= toks.len() {
        let w = skip_ws(toks, i);
        proof {
            lemma_skip_ws(toks, i);
        }
        let af = fthen(ws_fail(toks, i), e_atom_alt(toks, w));
        match atom_alt(toks, w) {
            Some((_, e)) => if w < e <= toks.len() {
                fthen(af, ws_fail(toks, e))
            } else {
                af
            },
            None => af,
        }
    } else {
        None
    }
}

/// The atom alternatives, in order, up to the first that succeeds.
pub open spec fn e_atom_alt(toks: Toks, w: int) -> Fail
    decreases toks.len() - w, 11int,
{
    let fc = e_call(toks, w);
    if atom_call(toks, w) is Some || ident_at(toks, w) {
        fc
    } else {
        let f3 = fthen(fc, rec(w));
        if num_at(toks, w) || str_at(toks, w) {
            f3
        } else {
            let f4 = fthen(
                f3,
                fthen(
                    sym_fail(toks, w, Sym::ParenOpen),
                    match padded_sym(toks, w, Sym::ParenOpen) {
                        Some(r) => sym_fail(toks, r, Sym::ParenClose),
                        None => None,
                    },
                ),
            );
            if empty_list(toks, w) is Some {
                f4
            } else {
                let f5 = fthen(f4, e_paren(toks, w));
                if atom_paren(toks, w) is Some {
                    f5
                } else {
                    let f6 = fthen(f5, e_each(toks, w));
                    if atom_each(toks, w) is Some {
                        f6
                    } else {
                        let f7 = fthen(f6, e_while(toks, w));
                        if atom_while(toks, w) is Some {
                            f7
                        } else {
                            fthen(f7, e_on(toks, w))
                        }
                    }
                }
            }
        }
    }
}

/// `ident '[' expr* ']'`
pub open spec fn e_call(toks: Toks, w: int) -> Fail
    decreases toks.len() - w, 10int,
{
    if 0 <= w < toks.len() && ident_at(toks, w) {
        proof {
            lemma_readers_advance(toks, w + 1);
        }
        fthen(
            sym_fail(toks, w + 1, Sym::SquareOpen),
            match padded_sym(toks, w + 1, Sym::SquareOpen) {
                Some(r) => fthen(e_exprs(toks, r), sym_fail(toks, exprs_rep(toks, r).1, Sym::SquareClose)),
                None => None,
            },
        )
    } else {
        rec(w)
    }
}

/// `'(' expr ')'`
pub open spec fn e_paren(toks: Toks, w: int) -> Fail
    decreases toks.len() - w, 10int,
{
    if 0 <= w <= toks.len() {
        proof {
            lemma_readers_advance(toks, w);
        }
        fthen(
            sym_fail(toks, w, Sym::ParenOpen),
            match padded_sym(toks, w, Sym::ParenOpen) {
                Some(r) => fthen(
                    e_expr(toks, r),
                    match g_expr(toks, r) {
                        Some((_, e)) => sym_fail(toks, e, Sym::ParenClose),
                        None => None,
                    },
                ),
                None => None,
            },
        )
    } else {
        None
    }
}

/// `each ident* in expr do? expr* end`
pub open spec fn e_each(toks: Toks, w: int) -> Fail
    decreases toks.len() - w, 10int,
{
    if 0 <= w < toks.len() && sym_at(toks, w, Sym::Each) {
        let p = names_rep(toks, w + 1).1;
        proof {
            lemma_readers_advance(toks, w + 1);
            lemma_readers_advance(toks, p);
        }
        let f = fthen(names_fail(toks, w + 1), sym_fail(toks, p, Sym::In));
        match padded_sym(toks, p, Sym::In) {
            Some(q) => {
                let f2 = fthen(f, e_expr(toks, q));
                match g_expr(toks, q) {
                    Some((_, e)) => if q < e <= toks.len() {
                        proof {
                            lemma_readers_advance(toks, e);
                        }
                        let d = opt_do(toks, e);
                        fthen(
                            f2,
                            fthen(
                                opt_do_fail(toks, e),
                                fthen(e_exprs(toks, d), sym_fail(toks, exprs_rep(toks, d).1, Sym::End)),
                            ),
                        )
                    } else {
                        f2
                    },
                    None => f2,
                }
            },
            None => f,
        }
    } else {
        rec(w)
    }
}

/// `while expr do? expr* end`
pub open spec fn e_while(toks: Toks, w: int) -> Fail
    decreases toks.len() - w, 10int,
{
    if 0 <= w < toks.len() && sym_at(toks, w, Sym::While) {
        let f = e_expr(toks, w + 1);
        match g_expr(toks, w + 1) {
            Some((_, e)) => if w + 1 < e <= toks.len() {
                proof {
                    lemma_readers_advance(toks, e);
                }
                let d = opt_do(toks, e);
                fthen(
                    f,
                    fthen(opt_do_fail(toks, e), fthen(e_exprs(toks, d), sym_fail(toks, exprs_rep(toks, d).1, Sym::End))),
                )
            } else {
                f
            },
            None => f,
        }
    } else {
        rec(w)
    }
}

/// `on ident ident* do expr* end`
pub open spec fn e_on(toks: Toks, w: int) -> Fail
    decreases toks.len() - w, 10int,
{
    if 0 <= w < toks.len() && sym_at(toks, w, Sym::On) {
        let j = skip_ws(toks, w + 1);
        proof {
            lemma_skip_ws(toks, w + 1);
        }
        if ident_at(toks, j) {
            let k = skip_ws(toks, j + 1);
            proof {
                lemma_skip_ws(toks, j + 1);
                lemma_names_rep_bounds(toks, k);
            }
            let q = names_rep(toks, k).1;
            proof {
                lemma_readers_advance(toks, q);
            }
            let f = fthen(ws_fail(toks, w + 1), fthen(ws_fail(toks, j + 1), fthen(names_fail(toks, k), sym_fail(toks, q, Sym::Do))));
            match padded_sym(toks, q, Sym::Do) {
                Some(d) => fthen(f, fthen(e_exprs(toks, d), sym_fail(toks, exprs_rep(toks, d).1, Sym::End))),
                None => f,
            }
        } else {
            fthen(ws_fail(toks, w + 1), rec(j))
        }
    } else {
        rec(w)
    }
}

/// `expr*`
pub open spec fn e_exprs(toks: Toks, i: int) -> Fail
    decreases toks.len() - i, 30int,
{
    let xf = e_expr(toks, i);
    match g_expr(toks, i) {
        Some((_, j)) => if 0 <= i < j <= toks.len() {
            fthen(xf, e_exprs(toks, j))
        } else {
            xf
        },
        None => xf,
    }
}

/// The failure reported for the whole token sequence: those of the expression that starts
/// it, then, where that expression stops before the end, the end of input expected there.
pub open spec fn parse_fail(toks: Toks) -> Fail {
    fthen(
        e_expr(toks, 0),
        match g_expr(toks, 0) {
            Some((_, j)) => if j < toks.len() { rec(j) } else { None },
            None => None,
        },
    )
}

/// The byte range a failure reporting token `t` stands for: that token's, or at the end of
/// input, from the start of `eoi` to the end of the last token (or of `eoi`, without
/// tokens).
pub open spec fn fail_span(toks: Toks, eoi: Range<usize>, t: int) -> Range<usize> {
    if 0 <= t < toks.len() {
        toks[t].1
    } else {
        Range {
            start: eoi.start,
            end: if toks.len() > 0 { toks[toks.len() - 1].1.end } else { eoi.end },
        }
    }
}

/// Trying an expression always records a failure (the padding read before its first
/// token, at least).
pub proof fn lemma_failure_recorded(toks: Toks)
    ensures
        parse_fail(toks) is Some,
{
    assert(op_fail(toks, 0, true) is Some);
    assert(e_spread(toks, 0) is Some);
    assert(e_assign(toks, 0) is Some);
    assert(e_expr(toks, 0) is Some);
}

/// Where the expression that starts the tokens stops before their end, the failure is
/// reported there or further on.
pub proof fn lemma_failure_not_before_stop(toks: Toks, e: ExprV, j: int)
    requires
        g_expr(toks, 0) == Some((e, j)),
        j < toks.len(),
    ensures
        parse_fail(toks) matches Some((p, _)) && p >= j,
{
    lemma_failure_recorded(toks);
}

} // verus!
