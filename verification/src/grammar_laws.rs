//! Laws of the expression grammar.

use vstd::prelude::*;
use crate::grammar::{
    access_rest, atom_alt, atom_call, atom_each, atom_on, atom_paren, atom_while, bin_op_at,
    binary_rest, bracket_access, exprs_rep, g_access, g_arr_access, g_assign, g_atom, g_binary,
    g_expr, g_spread, g_unary, ident_at, lemma_readers_advance, lemma_skip_ws, names_rep, node, opt_do,
    parses_to, padded_sym, payload, skip_ws, spread_op_at, sym_at, unary_op_at, Sym, Toks,
};
use crate::parse::{
    all_well_built, all_within, kind_well_built, kind_within, lemma_all_within_widen,
    lemma_kind_within_widen, lemma_within_widen, well_built, within, ExprV, KindV,
};
use crate::lex::{lemma_tokens_tile_source, lexes_to, CharFlags, Spanned, Token};

verus! {

// ---------------------------------------------------------------------------
// Progress: every expression reads at least one token.

pub proof fn lemma_binary_rest_bounds(toks: Toks, i0: int, acc: ExprV, j: int)
    requires
        0 <= j <= toks.len(),
    ensures
        j <= binary_rest(toks, i0, acc, j).1 <= toks.len(),
    decreases toks.len() - j,
{
    if bin_op_at(toks, j) is Some {
        let (op, k) = bin_op_at(toks, j)->0;
        lemma_readers_advance(toks, j);
        match g_expr(toks, k) {
            Some((r, m)) => if k < m <= toks.len() {
                let kind = KindV::Binary { left: Box::new(acc), right: Box::new(r), kind: op };
                lemma_binary_rest_bounds(toks, i0, node(toks, i0, m, kind), m);
            },
            None => {},
        }
    }
}

pub proof fn lemma_access_rest_bounds(toks: Toks, i0: int, acc: ExprV, j: int)
    requires
        0 <= j <= toks.len(),
    ensures
        j <= access_rest(toks, i0, acc, j).1 <= toks.len(),
    decreases toks.len() - j,
{
    match g_access(toks, j) {
        Some((idx, dot, k)) => if 0 <= j < k <= toks.len() {
            let kind = match idx {
                Some(x) => KindV::Subscript { arr: Box::new(acc), idx: Box::new(x), was_dot_notation: dot },
                None => KindV::EachElem { arr: Box::new(acc), was_dot_notation: dot },
            };
            lemma_access_rest_bounds(toks, i0, node(toks, i0, k, kind), k);
        },
        None => {},
    }
}

pub proof fn lemma_binary_reads(toks: Toks, i: int)
    requires
        0 <= i <= toks.len(),
    ensures
        g_binary(toks, i) matches Some((_, j)) ==> i < j <= toks.len(),
{
    match g_arr_access(toks, i) {
        Some((a, j)) => if 0 <= i < j <= toks.len() {
            lemma_binary_rest_bounds(toks, i, a, j);
        },
        None => {},
    }
}

pub proof fn lemma_unary_reads(toks: Toks, i: int)
    requires
        0 <= i <= toks.len(),
    ensures
        g_unary(toks, i) matches Some((_, j)) ==> i < j <= toks.len(),
    decreases toks.len() - i,
{
    lemma_readers_advance(toks, i);
    if unary_op_at(toks, i) is Some {
        let (_, j) = unary_op_at(toks, i)->0;
        lemma_unary_reads(toks, j);
    } else {
        lemma_binary_reads(toks, i);
    }
}

pub proof fn lemma_spread_reads(toks: Toks, i: int)
    requires
        0 <= i <= toks.len(),
    ensures
        g_spread(toks, i) matches Some((_, j)) ==> i < j <= toks.len(),
    decreases toks.len() - i,
{
    lemma_readers_advance(toks, i);
    if spread_op_at(toks, i) is Some {
        let (_, k) = spread_op_at(toks, i)->0;
        lemma_spread_reads(toks, k);
    } else {
        lemma_unary_reads(toks, i);
    }
}

/// Every expression reads at least one token and ends inside the input (so the checks
/// `i < j` in the grammar never fail).
pub proof fn lemma_expr_reads_a_token(toks: Toks, i: int)
    requires
        0 <= i <= toks.len(),
    ensures
        g_expr(toks, i) matches Some((_, j)) ==> i < j <= toks.len(),
    decreases toks.len() - i,
{
    match g_spread(toks, i) {
        Some((a, j)) => if 0 <= i < j <= toks.len() {
            lemma_readers_advance(toks, j);
            match padded_sym(toks, j, Sym::Colon) {
                Some(k) => {
                    lemma_expr_reads_a_token(toks, k);
                },
                None => {},
            }
        },
        None => {},
    }
}

// ---------------------------------------------------------------------------
// Parsed trees are well built.

#[verifier::spinoff_prover]
proof fn lemma_wb_expr(toks: Toks, i: int)
    requires
        0 <= i <= toks.len(),
    ensures
        g_expr(toks, i) matches Some((e, _)) ==> well_built(e),
    decreases toks.len() - i, 20int,
{
    lemma_wb_assign(toks, i);
}

#[verifier::spinoff_prover]
proof fn lemma_wb_assign(toks: Toks, i: int)
    requires
        0 <= i <= toks.len(),
    ensures
        g_assign(toks, i) matches Some((e, _)) ==> well_built(e),
    decreases toks.len() - i, 19int,
{
    lemma_wb_spread(toks, i);
    match g_spread(toks, i) {
        Some((a, j)) => if 0 <= i < j <= toks.len() {
            lemma_readers_advance(toks, j);
            match padded_sym(toks, j, Sym::Colon) {
                Some(k) => {
                    lemma_wb_expr(toks, k);
                },
                None => {},
            }
        },
        None => {},
    }
}

#[verifier::spinoff_prover]
proof fn lemma_wb_spread(toks: Toks, i: int)
    requires
        0 <= i <= toks.len(),
    ensures
        g_spread(toks, i) matches Some((e, _)) ==> well_built(e),
    decreases toks.len() - i, 18int,
{
    lemma_readers_advance(toks, i);
    if spread_op_at(toks, i) is Some {
        let (_, k) = spread_op_at(toks, i)->0;
        lemma_wb_spread(toks, k);
    } else {
        lemma_wb_unary(toks, i);
    }
}

#[verifier::spinoff_prover]
proof fn lemma_wb_unary(toks: Toks, i: int)
    requires
        0 <= i <= toks.len(),
    ensures
        g_unary(toks, i) matches Some((e, _)) ==> well_built(e),
    decreases toks.len() - i, 17int,
{
    lemma_readers_advance(toks, i);
    if unary_op_at(toks, i) is Some {
        let (_, j) = unary_op_at(toks, i)->0;
        lemma_wb_unary(toks, j);
    } else {
        lemma_wb_binary(toks, i);
    }
}

#[verifier::spinoff_prover]
proof fn lemma_wb_binary(toks: Toks, i: int)
    requires
        0 <= i <= toks.len(),
    ensures
        g_binary(toks, i) matches Some((e, _)) ==> well_built(e),
    decreases toks.len() - i, 16int,
{
    lemma_wb_arr_access(toks, i);
    match g_arr_access(toks, i) {
        Some((a, j)) => if 0 <= i < j <= toks.len() {
            lemma_wb_binary_rest(toks, i, a, j);
        },
        None => {},
    }
}

#[verifier::spinoff_prover]
proof fn lemma_wb_binary_rest(toks: Toks, i0: int, acc: ExprV, j: int)
    requires
        0 <= j <= toks.len(),
        well_built(acc),
    ensures
        well_built(binary_rest(toks, i0, acc, j).0),
    decreases toks.len() - j, 30int,
{
    if bin_op_at(toks, j) is Some {
        let (op, k) = bin_op_at(toks, j)->0;
        lemma_readers_advance(toks, j);
        lemma_wb_expr(toks, k);
        match g_expr(toks, k) {
            Some((r, m)) => if k < m <= toks.len() {
                let kind = KindV::Binary { left: Box::new(acc), right: Box::new(r), kind: op };
                lemma_wb_binary_rest(toks, i0, node(toks, i0, m, kind), m);
            },
            None => {},
        }
    }
}

#[verifier::spinoff_prover]
proof fn lemma_wb_arr_access(toks: Toks, i: int)
    requires
        0 <= i <= toks.len(),
    ensures
        g_arr_access(toks, i) matches Some((e, _)) ==> well_built(e),
    decreases toks.len() - i, 15int,
{
    lemma_wb_atom(toks, i);
    match g_atom(toks, i) {
        Some((a, j)) => if 0 <= i < j <= toks.len() {
            lemma_wb_access_rest(toks, i, a, j);
        },
        None => {},
    }
}

#[verifier::spinoff_prover]
proof fn lemma_wb_access_rest(toks: Toks, i0: int, acc: ExprV, j: int)
    requires
        0 <= j <= toks.len(),
        well_built(acc),
    ensures
        well_built(access_rest(toks, i0, acc, j).0),
    decreases toks.len() - j, 30int,
{
    lemma_wb_access(toks, j);
    match g_access(toks, j) {
        Some((idx, dot, k)) => if 0 <= j < k <= toks.len() {
            let kind = match idx {
                Some(x) => KindV::Subscript { arr: Box::new(acc), idx: Box::new(x), was_dot_notation: dot },
                None => KindV::EachElem { arr: Box::new(acc), was_dot_notation: dot },
            };
            lemma_wb_access_rest(toks, i0, node(toks, i0, k, kind), k);
        },
        None => {},
    }
}

#[verifier::spinoff_prover]
proof fn lemma_wb_access(toks: Toks, j: int)
    requires
        0 <= j <= toks.len(),
    ensures
        g_access(toks, j) matches Some((Some(x), _, _)) ==> well_built(x),
    decreases toks.len() - j, 13int,
{
    lemma_wb_bracket(toks, j);
}

#[verifier::spinoff_prover]
proof fn lemma_wb_bracket(toks: Toks, j: int)
    requires
        0 <= j <= toks.len(),
    ensures
        bracket_access(toks, j) matches Some((Some(x), _)) ==> well_built(x),
    decreases toks.len() - j, 12int,
{
    lemma_skip_ws(toks, j);
    let w = skip_ws(toks, j);
    if w < toks.len() {
        lemma_wb_expr(toks, w + 1);
    }
}

#[verifier::spinoff_prover]
proof fn lemma_wb_atom(toks: Toks, i: int)
    requires
        0 <= i <= toks.len(),
    ensures
        g_atom(toks, i) matches Some((e, _)) ==> well_built(e),
    decreases toks.len() - i, 14int,
{
    lemma_skip_ws(toks, i);
    lemma_wb_atom_alt(toks, skip_ws(toks, i));
}

#[verifier::spinoff_prover]
proof fn lemma_wb_atom_alt(toks: Toks, w: int)
    requires
        0 <= w <= toks.len(),
    ensures
        atom_alt(toks, w) matches Some((k, _)) ==> kind_well_built(k),
    decreases toks.len() - w, 11int,
{
    lemma_wb_atom_call(toks, w);
    lemma_wb_atom_paren(toks, w);
    lemma_wb_atom_each(toks, w);
    lemma_wb_atom_while(toks, w);
    lemma_wb_atom_on(toks, w);
}

#[verifier::spinoff_prover]
proof fn lemma_wb_atom_call(toks: Toks, w: int)
    requires
        0 <= w <= toks.len(),
    ensures
        atom_call(toks, w) matches Some((k, _)) ==> kind_well_built(k),
    decreases toks.len() - w, 10int,
{
    if w < toks.len() {
        lemma_readers_advance(toks, w + 1);
        match padded_sym(toks, w + 1, Sym::SquareOpen) {
            Some(r) => {
                lemma_wb_exprs(toks, r);
                let func = node(toks, w, w + 1, KindV::Ident(crate::grammar::payload(toks[w].0)));
                assert(kind_well_built(func.kind));
                assert(well_built(func));
            },
            None => {},
        }
    }
}

#[verifier::spinoff_prover]
proof fn lemma_wb_atom_paren(toks: Toks, w: int)
    requires
        0 <= w <= toks.len(),
    ensures
        atom_paren(toks, w) matches Some((k, _)) ==> kind_well_built(k),
    decreases toks.len() - w, 10int,
{
    lemma_readers_advance(toks, w);
    match padded_sym(toks, w, Sym::ParenOpen) {
        Some(r) => {
            lemma_wb_expr(toks, r);
        },
        None => {},
    }
}

#[verifier::spinoff_prover]
proof fn lemma_wb_atom_each(toks: Toks, w: int)
    requires
        0 <= w <= toks.len(),
    ensures
        atom_each(toks, w) matches Some((k, _)) ==> kind_well_built(k),
    decreases toks.len() - w, 10int,
{
    if w < toks.len() {
        let (vars, p) = names_rep(toks, w + 1);
        lemma_readers_advance(toks, w + 1);
        lemma_readers_advance(toks, p);
        match padded_sym(toks, p, Sym::In) {
            Some(q) => {
                lemma_wb_expr(toks, q);
                match g_expr(toks, q) {
                    Some((arr, e)) => if q < e <= toks.len() {
                        lemma_readers_advance(toks, e);
                        lemma_wb_exprs(toks, opt_do(toks, e));
                    },
                    None => {},
                }
            },
            None => {},
        }
    }
}

#[verifier::spinoff_prover]
proof fn lemma_wb_atom_while(toks: Toks, w: int)
    requires
        0 <= w <= toks.len(),
    ensures
        atom_while(toks, w) matches Some((k, _)) ==> kind_well_built(k),
    decreases toks.len() - w, 10int,
{
    if w < toks.len() {
        lemma_wb_expr(toks, w + 1);
        match g_expr(toks, w + 1) {
            Some((cond, e)) => if w + 1 < e <= toks.len() {
                lemma_readers_advance(toks, e);
                lemma_wb_exprs(toks, opt_do(toks, e));
            },
            None => {},
        }
    }
}

#[verifier::spinoff_prover]
proof fn lemma_wb_atom_on(toks: Toks, w: int)
    requires
        0 <= w <= toks.len(),
    ensures
        atom_on(toks, w) matches Some((k, _)) ==> kind_well_built(k),
    decreases toks.len() - w, 10int,
{
    if w < toks.len() {
        let j = skip_ws(toks, w + 1);
        lemma_skip_ws(toks, w + 1);
        if j < toks.len() {
            lemma_skip_ws(toks, j + 1);
            let (args, q) = names_rep(toks, skip_ws(toks, j + 1));
            crate::grammar::lemma_names_rep_bounds(toks, skip_ws(toks, j + 1));
            lemma_readers_advance(toks, q);
            match padded_sym(toks, q, Sym::Do) {
                Some(d) => {
                    lemma_wb_exprs(toks, d);
                },
                None => {},
            }
        }
    }
}

#[verifier::spinoff_prover]
proof fn lemma_wb_exprs(toks: Toks, i: int)
    requires
        0 <= i <= toks.len(),
    ensures
        all_well_built(exprs_rep(toks, i).0),
    decreases toks.len() - i, 30int,
{
    lemma_wb_expr(toks, i);
    match g_expr(toks, i) {
        Some((x, j)) => if 0 <= i < j <= toks.len() {
            lemma_wb_exprs(toks, j);
            let rest = exprs_rep(toks, j).0;
            assert forall|k: int| 0 <= k < (seq![x] + rest).len() implies well_built(#[trigger] (seq![x] + rest)[k]) by {
                if k > 0 {
                    assert((seq![x] + rest)[k] == rest[k - 1]);
                }
            }
        },
        None => {},
    }
}

/// A parsed expression is well built: every node of it has a source range, and it
/// assigns only to what can be assigned to and amends everything else.
pub proof fn lemma_parse_well_built(toks: Toks, e: ExprV)
    requires
        parses_to(toks, e),
    ensures
        well_built(e),
{
    lemma_wb_expr(toks, 0);
}

// ---------------------------------------------------------------------------
// Source ranges nest.

/// Token spans are in order: each starts no later than it ends, and later tokens start and
/// end no earlier than earlier ones.
pub open spec fn spans_ordered(toks: Toks) -> bool {
    &&& forall|k: int| 0 <= k < toks.len() ==> #[trigger] toks[k].1.start <= toks[k].1.end
    &&& forall|a: int, b: int|
        #![trigger toks[a], toks[b]]
        0 <= a <= b < toks.len() ==> toks[a].1.start <= toks[b].1.start && toks[a].1.end <= toks[b].1.end
}

/// The byte where token `i` starts.
pub open spec fn lo(toks: Toks, i: int) -> int {
    toks[i].1.start as int
}

/// The byte where token `j - 1` ends.
pub open spec fn hi(toks: Toks, j: int) -> int {
    toks[j - 1].1.end as int
}

proof fn lemma_bounds_order(toks: Toks, i: int, i2: int, j2: int, j: int)
    requires
        spans_ordered(toks),
        0 <= i <= i2 < j2 <= j <= toks.len(),
    ensures
        lo(toks, i) <= lo(toks, i2),
        hi(toks, j2) <= hi(toks, j),
        lo(toks, i2) <= hi(toks, j2),
{
    assert(toks[i].1.start <= toks[i2].1.start);
    assert(toks[j2 - 1].1.end <= toks[j - 1].1.end);
    assert(toks[i2].1.start <= toks[j2 - 1].1.start);
    assert(toks[j2 - 1].1.start <= toks[j2 - 1].1.end);
}

proof fn lemma_node_within(toks: Toks, i: int, a: int, b: int, j: int, kind: KindV)
    requires
        spans_ordered(toks),
        0 <= i <= a < b <= j <= toks.len(),
        kind_within(kind, lo(toks, a), hi(toks, b)),
    ensures
        within(node(toks, a, b, kind), lo(toks, i), hi(toks, j)),
{
    lemma_bounds_order(toks, i, a, b, j);
}

#[verifier::spinoff_prover]
proof fn lemma_in_expr(toks: Toks, i: int)
    requires
        spans_ordered(toks),
        0 <= i <= toks.len(),
    ensures
        g_expr(toks, i) matches Some((e, j)) ==> within(e, lo(toks, i), hi(toks, j)),
    decreases toks.len() - i, 20int,
{
    lemma_in_assign(toks, i);
}

#[verifier::spinoff_prover]
proof fn lemma_in_assign(toks: Toks, i: int)
    requires
        spans_ordered(toks),
        0 <= i <= toks.len(),
    ensures
        g_assign(toks, i) matches Some((e, j)) ==> within(e, lo(toks, i), hi(toks, j)),
    decreases toks.len() - i, 19int,
{
    lemma_in_spread(toks, i);
    match g_spread(toks, i) {
        Some((a, j)) => if 0 <= i < j <= toks.len() {
            lemma_readers_advance(toks, j);
            match padded_sym(toks, j, Sym::Colon) {
                Some(k) => {
                    lemma_in_expr(toks, k);
                    lemma_expr_reads_a_token(toks, k);
                    match g_expr(toks, k) {
                        Some((b, m)) => {
                            lemma_bounds_order(toks, i, i, j, m);
                            lemma_bounds_order(toks, i, k, m, m);
                            lemma_within_widen(a, lo(toks, i), hi(toks, j), lo(toks, i), hi(toks, m));
                            lemma_within_widen(b, lo(toks, k), hi(toks, m), lo(toks, i), hi(toks, m));
                            let kind = if is_lexpr_v_of(a) {
                                KindV::Assign { var: Box::new(a), val: Box::new(b) }
                            } else {
                                KindV::Amend { src: Box::new(a), val: Box::new(b) }
                            };
                            lemma_node_within(toks, i, i, m, m, kind);
                        },
                        None => {},
                    }
                },
                None => {},
            }
        },
        None => {},
    }
}

spec fn is_lexpr_v_of(a: ExprV) -> bool {
    crate::parse::is_lexpr_v(a.kind)
}

#[verifier::spinoff_prover]
proof fn lemma_in_spread(toks: Toks, i: int)
    requires
        spans_ordered(toks),
        0 <= i <= toks.len(),
    ensures
        g_spread(toks, i) matches Some((e, j)) ==> within(e, lo(toks, i), hi(toks, j)),
    decreases toks.len() - i, 18int,
{
    lemma_readers_advance(toks, i);
    if spread_op_at(toks, i) is Some {
        let (op, k) = spread_op_at(toks, i)->0;
        lemma_in_spread(toks, k);
        lemma_spread_reads(toks, k);
        match g_spread(toks, k) {
            Some((v, q)) => {
                lemma_bounds_order(toks, i, k, q, q);
                lemma_within_widen(v, lo(toks, k), hi(toks, q), lo(toks, i), hi(toks, q));
                lemma_node_within(toks, i, i, q, q, KindV::SpreadUnary { arr: Box::new(v), op });
            },
            None => {},
        }
    } else {
        lemma_in_unary(toks, i);
    }
}

#[verifier::spinoff_prover]
proof fn lemma_in_unary(toks: Toks, i: int)
    requires
        spans_ordered(toks),
        0 <= i <= toks.len(),
    ensures
        g_unary(toks, i) matches Some((e, j)) ==> within(e, lo(toks, i), hi(toks, j)),
    decreases toks.len() - i, 17int,
{
    lemma_readers_advance(toks, i);
    if unary_op_at(toks, i) is Some {
        let (op, k) = unary_op_at(toks, i)->0;
        lemma_in_unary(toks, k);
        lemma_unary_reads(toks, k);
        match g_unary(toks, k) {
            Some((v, q)) => {
                lemma_bounds_order(toks, i, k, q, q);
                lemma_within_widen(v, lo(toks, k), hi(toks, q), lo(toks, i), hi(toks, q));
                lemma_node_within(toks, i, i, q, q, KindV::Unary { val: Box::new(v), op });
            },
            None => {},
        }
    } else {
        lemma_in_binary(toks, i);
    }
}

#[verifier::spinoff_prover]
proof fn lemma_in_binary(toks: Toks, i: int)
    requires
        spans_ordered(toks),
        0 <= i <= toks.len(),
    ensures
        g_binary(toks, i) matches Some((e, j)) ==> within(e, lo(toks, i), hi(toks, j)),
    decreases toks.len() - i, 16int,
{
    lemma_in_arr_access(toks, i);
    match g_arr_access(toks, i) {
        Some((a, j)) => if 0 <= i < j <= toks.len() {
            lemma_in_binary_rest(toks, i, a, j);
        },
        None => {},
    }
}

#[verifier::spinoff_prover]
proof fn lemma_in_binary_rest(toks: Toks, i0: int, acc: ExprV, j: int)
    requires
        spans_ordered(toks),
        0 <= i0 < j <= toks.len(),
        within(acc, lo(toks, i0), hi(toks, j)),
    ensures
        within(binary_rest(toks, i0, acc, j).0, lo(toks, i0), hi(toks, binary_rest(toks, i0, acc, j).1)),
    decreases toks.len() - j, 30int,
{
    if bin_op_at(toks, j) is Some {
        let (op, k) = bin_op_at(toks, j)->0;
        lemma_readers_advance(toks, j);
        lemma_in_expr(toks, k);
        match g_expr(toks, k) {
            Some((r, m)) => if k < m <= toks.len() {
                lemma_bounds_order(toks, i0, i0, j, m);
                lemma_bounds_order(toks, i0, k, m, m);
                lemma_within_widen(acc, lo(toks, i0), hi(toks, j), lo(toks, i0), hi(toks, m));
                lemma_within_widen(r, lo(toks, k), hi(toks, m), lo(toks, i0), hi(toks, m));
                let kind = KindV::Binary { left: Box::new(acc), right: Box::new(r), kind: op };
                lemma_node_within(toks, i0, i0, m, m, kind);
                lemma_in_binary_rest(toks, i0, node(toks, i0, m, kind), m);
            },
            None => {},
        }
    }
}

#[verifier::spinoff_prover]
proof fn lemma_in_arr_access(toks: Toks, i: int)
    requires
        spans_ordered(toks),
        0 <= i <= toks.len(),
    ensures
        g_arr_access(toks, i) matches Some((e, j)) ==> within(e, lo(toks, i), hi(toks, j)),
    decreases toks.len() - i, 15int,
{
    lemma_in_atom(toks, i);
    match g_atom(toks, i) {
        Some((a, j)) => if 0 <= i < j <= toks.len() {
            lemma_in_access_rest(toks, i, a, j);
        },
        None => {},
    }
}

#[verifier::spinoff_prover]
proof fn lemma_in_access_rest(toks: Toks, i0: int, acc: ExprV, j: int)
    requires
        spans_ordered(toks),
        0 <= i0 < j <= toks.len(),
        within(acc, lo(toks, i0), hi(toks, j)),
    ensures
        within(access_rest(toks, i0, acc, j).0, lo(toks, i0), hi(toks, access_rest(toks, i0, acc, j).1)),
    decreases toks.len() - j, 30int,
{
    lemma_in_access(toks, j);
    match g_access(toks, j) {
        Some((idx, dot, k)) => if 0 <= j < k <= toks.len() {
            lemma_bounds_order(toks, i0, i0, j, k);
            lemma_within_widen(acc, lo(toks, i0), hi(toks, j), lo(toks, i0), hi(toks, k));
            let kind = match idx {
                Some(x) => KindV::Subscript { arr: Box::new(acc), idx: Box::new(x), was_dot_notation: dot },
                None => KindV::EachElem { arr: Box::new(acc), was_dot_notation: dot },
            };
            if let Some(x) = idx {
                lemma_bounds_order(toks, i0, j, k, k);
                lemma_within_widen(x, lo(toks, j), hi(toks, k), lo(toks, i0), hi(toks, k));
            }
            lemma_node_within(toks, i0, i0, k, k, kind);
            lemma_in_access_rest(toks, i0, node(toks, i0, k, kind), k);
        },
        None => {},
    }
}

#[verifier::spinoff_prover]
proof fn lemma_in_access(toks: Toks, j: int)
    requires
        spans_ordered(toks),
        0 <= j <= toks.len(),
    ensures
        g_access(toks, j) matches Some((Some(x), _, k)) ==> j < k ==> within(x, lo(toks, j), hi(toks, k)),
    decreases toks.len() - j, 13int,
{
    lemma_in_bracket(toks, j);
    lemma_skip_ws(toks, j);
    let w = skip_ws(toks, j);
    if w < toks.len() {
        lemma_skip_ws(toks, w + 1);
        let r = skip_ws(toks, w + 1);
        if r < toks.len() {
            lemma_bounds_order(toks, j, r, r + 1, r + 1);
        }
    }
}

#[verifier::spinoff_prover]
proof fn lemma_in_bracket(toks: Toks, j: int)
    requires
        spans_ordered(toks),
        0 <= j <= toks.len(),
    ensures
        bracket_access(toks, j) matches Some((Some(x), k)) ==> j < k ==> within(x, lo(toks, j), hi(toks, k)),
    decreases toks.len() - j, 12int,
{
    lemma_skip_ws(toks, j);
    let w = skip_ws(toks, j);
    if w < toks.len() {
        lemma_in_expr(toks, w + 1);
        lemma_expr_reads_a_token(toks, w + 1);
        match g_expr(toks, w + 1) {
            Some((x, e)) => {
                if e < toks.len() {
                    lemma_skip_ws(toks, e + 1);
                    lemma_bounds_order(toks, j, w + 1, e, skip_ws(toks, e + 1));
                    lemma_within_widen(x, lo(toks, w + 1), hi(toks, e), lo(toks, j), hi(toks, skip_ws(toks, e + 1)));
                }
            },
            None => {},
        }
    }
}

#[verifier::spinoff_prover]
proof fn lemma_in_atom(toks: Toks, i: int)
    requires
        spans_ordered(toks),
        0 <= i <= toks.len(),
    ensures
        g_atom(toks, i) matches Some((e, j)) ==> within(e, lo(toks, i), hi(toks, j)),
    decreases toks.len() - i, 14int,
{
    lemma_skip_ws(toks, i);
    let w = skip_ws(toks, i);
    lemma_in_atom_alt(toks, w);
    match atom_alt(toks, w) {
        Some((kind, e)) => if w < e <= toks.len() {
            lemma_skip_ws(toks, e);
            let end = skip_ws(toks, e);
            lemma_bounds_order(toks, i, w, e, end);
            lemma_kind_within_widen(kind, lo(toks, w), hi(toks, e), lo(toks, i), hi(toks, end));
            lemma_node_within(toks, i, i, end, end, kind);
        },
        None => {},
    }
}

#[verifier::spinoff_prover]
proof fn lemma_in_atom_alt(toks: Toks, w: int)
    requires
        spans_ordered(toks),
        0 <= w <= toks.len(),
    ensures
        atom_alt(toks, w) matches Some((k, e)) ==> w < e <= toks.len() ==> kind_within(k, lo(toks, w), hi(toks, e)),
    decreases toks.len() - w, 11int,
{
    lemma_in_atom_call(toks, w);
    lemma_in_atom_paren(toks, w);
    lemma_in_atom_each(toks, w);
    lemma_in_atom_while(toks, w);
    lemma_in_atom_on(toks, w);
}

/// The expressions `exprs_rep` reads from `i` lie within the tokens it reads.
#[verifier::spinoff_prover]
proof fn lemma_in_exprs(toks: Toks, i: int)
    requires
        spans_ordered(toks),
        0 <= i <= toks.len(),
    ensures
        exprs_rep(toks, i).0.len() > 0 ==> i < exprs_rep(toks, i).1 <= toks.len()
            && all_within(exprs_rep(toks, i).0, lo(toks, i), hi(toks, exprs_rep(toks, i).1)),
        i <= exprs_rep(toks, i).1 <= toks.len(),
    decreases toks.len() - i, 30int,
{
    lemma_in_expr(toks, i);
    match g_expr(toks, i) {
        Some((x, j)) => if 0 <= i < j <= toks.len() {
            lemma_in_exprs(toks, j);
            let (rest, k) = exprs_rep(toks, j);
            lemma_bounds_order(toks, i, i, j, k);
            lemma_within_widen(x, lo(toks, i), hi(toks, j), lo(toks, i), hi(toks, k));
            if rest.len() > 0 {
                lemma_bounds_order(toks, i, j, k, k);
                lemma_all_within_widen(rest, lo(toks, j), hi(toks, k), lo(toks, i), hi(toks, k));
            }
            assert forall|m: int| 0 <= m < (seq![x] + rest).len() implies within(#[trigger] (seq![x] + rest)[m], lo(toks, i), hi(toks, k)) by {
                if m > 0 {
                    assert((seq![x] + rest)[m] == rest[m - 1]);
                }
            }
        },
        None => {},
    }
}

/// `exprs_rep` from `r`, ending before `f`, lies within `w..f` for `w <= r`.
#[verifier::spinoff_prover]
proof fn lemma_in_exprs_widen(toks: Toks, w: int, r: int, f: int)
    requires
        spans_ordered(toks),
        0 <= w <= r <= toks.len(),
        exprs_rep(toks, r).1 < f <= toks.len(),
        w < f,
    ensures
        all_within(exprs_rep(toks, r).0, lo(toks, w), hi(toks, f)),
    decreases toks.len() - r, 31int,
{
    lemma_in_exprs(toks, r);
    let (xs, k) = exprs_rep(toks, r);
    if xs.len() > 0 {
        lemma_bounds_order(toks, w, r, k, f);
        lemma_all_within_widen(xs, lo(toks, r), hi(toks, k), lo(toks, w), hi(toks, f));
    }
}

#[verifier::spinoff_prover]
proof fn lemma_in_atom_call(toks: Toks, w: int)
    requires
        spans_ordered(toks),
        0 <= w <= toks.len(),
    ensures
        atom_call(toks, w) matches Some((k, e)) ==> w < e <= toks.len() ==> kind_within(k, lo(toks, w), hi(toks, e)),
    decreases toks.len() - w, 10int,
{
    if w < toks.len() {
        lemma_readers_advance(toks, w + 1);
        match padded_sym(toks, w + 1, Sym::SquareOpen) {
            Some(r) => {
                lemma_in_exprs(toks, r);
                let (args, e) = exprs_rep(toks, r);
                lemma_readers_advance(toks, e);
                match padded_sym(toks, e, Sym::SquareClose) {
                    Some(f) => {
                        lemma_in_exprs_widen(toks, w, r, f);
                        let func = node(toks, w, w + 1, KindV::Ident(crate::grammar::payload(toks[w].0)));
                        lemma_node_within(toks, w, w, w + 1, f, KindV::Ident(crate::grammar::payload(toks[w].0)));
                    },
                    None => {},
                }
            },
            None => {},
        }
    }
}

#[verifier::spinoff_prover]
proof fn lemma_in_atom_paren(toks: Toks, w: int)
    requires
        spans_ordered(toks),
        0 <= w <= toks.len(),
    ensures
        atom_paren(toks, w) matches Some((k, e)) ==> w < e <= toks.len() ==> kind_within(k, lo(toks, w), hi(toks, e)),
    decreases toks.len() - w, 10int,
{
    lemma_readers_advance(toks, w);
    match padded_sym(toks, w, Sym::ParenOpen) {
        Some(r) => {
            lemma_in_expr(toks, r);
            lemma_expr_reads_a_token(toks, r);
            match g_expr(toks, r) {
                Some((x, e)) => {
                    lemma_readers_advance(toks, e);
                    match padded_sym(toks, e, Sym::ParenClose) {
                        Some(f) => {
                            lemma_bounds_order(toks, w, r, e, f);
                            lemma_within_widen(x, lo(toks, r), hi(toks, e), lo(toks, w), hi(toks, f));
                        },
                        None => {},
                    }
                },
                None => {},
            }
        },
        None => {},
    }
}

#[verifier::spinoff_prover]
proof fn lemma_in_atom_each(toks: Toks, w: int)
    requires
        spans_ordered(toks),
        0 <= w <= toks.len(),
    ensures
        atom_each(toks, w) matches Some((k, e)) ==> w < e <= toks.len() ==> kind_within(k, lo(toks, w), hi(toks, e)),
    decreases toks.len() - w, 10int,
{
    if w < toks.len() {
        let (vars, p) = names_rep(toks, w + 1);
        lemma_readers_advance(toks, w + 1);
        lemma_readers_advance(toks, p);
        match padded_sym(toks, p, Sym::In) {
            Some(q) => {
                lemma_in_expr(toks, q);
                match g_expr(toks, q) {
                    Some((arr, e)) => if q < e <= toks.len() {
                        lemma_readers_advance(toks, e);
                        let d = opt_do(toks, e);
                        lemma_in_exprs(toks, d);
                        let (body, b) = exprs_rep(toks, d);
                        lemma_readers_advance(toks, b);
                        match padded_sym(toks, b, Sym::End) {
                            Some(f) => {
                                lemma_in_exprs_widen(toks, w, d, f);
                                lemma_bounds_order(toks, w, q, e, f);
                                lemma_within_widen(arr, lo(toks, q), hi(toks, e), lo(toks, w), hi(toks, f));
                                let k = KindV::ForEach { vars, arr: Box::new(arr), body };
                                assert(kind_within(k, lo(toks, w), hi(toks, f)));
                                assert(sym_at(toks, w, Sym::Each) ==> atom_each(toks, w) == Some((k, f)));
                            },
                            None => {},
                        }
                    },
                    None => {},
                }
            },
            None => {},
        }
    }
}

#[verifier::spinoff_prover]
proof fn lemma_in_atom_while(toks: Toks, w: int)
    requires
        spans_ordered(toks),
        0 <= w <= toks.len(),
    ensures
        atom_while(toks, w) matches Some((k, e)) ==> w < e <= toks.len() ==> kind_within(k, lo(toks, w), hi(toks, e)),
    decreases toks.len() - w, 10int,
{
    if w < toks.len() {
        lemma_in_expr(toks, w + 1);
        match g_expr(toks, w + 1) {
            Some((cond, e)) => if w + 1 < e <= toks.len() {
                lemma_readers_advance(toks, e);
                let d = opt_do(toks, e);
                lemma_in_exprs(toks, d);
                let (body, b) = exprs_rep(toks, d);
                lemma_readers_advance(toks, b);
                match padded_sym(toks, b, Sym::End) {
                    Some(f) => {
                        lemma_in_exprs_widen(toks, w, d, f);
                        lemma_bounds_order(toks, w, w + 1, e, f);
                        lemma_within_widen(cond, lo(toks, w + 1), hi(toks, e), lo(toks, w), hi(toks, f));
                        let k = KindV::While { cond: Box::new(cond), body };
                        assert(kind_within(k, lo(toks, w), hi(toks, f)));
                        assert(sym_at(toks, w, Sym::While) ==> atom_while(toks, w) == Some((k, f)));
                    },
                    None => {},
                }
            },
            None => {},
        }
    }
}

#[verifier::spinoff_prover]
proof fn lemma_in_atom_on(toks: Toks, w: int)
    requires
        spans_ordered(toks),
        0 <= w <= toks.len(),
    ensures
        atom_on(toks, w) matches Some((k, e)) ==> w < e <= toks.len() ==> kind_within(k, lo(toks, w), hi(toks, e)),
    decreases toks.len() - w, 10int,
{
    if w < toks.len() {
        let j = skip_ws(toks, w + 1);
        lemma_skip_ws(toks, w + 1);
        if j < toks.len() {
            lemma_skip_ws(toks, j + 1);
            let (args, q) = names_rep(toks, skip_ws(toks, j + 1));
            crate::grammar::lemma_names_rep_bounds(toks, skip_ws(toks, j + 1));
            lemma_readers_advance(toks, q);
            match padded_sym(toks, q, Sym::Do) {
                Some(d) => {
                    lemma_in_exprs(toks, d);
                    let (body, b) = exprs_rep(toks, d);
                    lemma_readers_advance(toks, b);
                    match padded_sym(toks, b, Sym::End) {
                        Some(f) => {
                            lemma_in_exprs_widen(toks, w, d, f);
                        },
                        None => {},
                    }
                },
                None => {},
            }
        }
    }
}

/// The tokens of a source have ordered spans.
pub proof fn lemma_lexed_spans_ordered<'a>(
    s: Seq<char>,
    f: Seq<CharFlags>,
    toks: Seq<Spanned<Token<'a>>>,
)
    requires
        lexes_to(s, f, toks),
    ensures
        spans_ordered(toks),
{
    lemma_tokens_tile_source(s, f, toks);
    assert forall|a: int, b: int|
        #![trigger toks[a], toks[b]]
        0 <= a <= b < toks.len() implies toks[a].1.start <= toks[b].1.start && toks[a].1.end <= toks[b].1.end by {
        lemma_tiles_ordered(toks, a, b);
    }
}

proof fn lemma_tiles_ordered<'a>(toks: Seq<Spanned<Token<'a>>>, a: int, b: int)
    requires
        0 <= a <= b < toks.len(),
        forall|k: int| 0 <= k < toks.len() ==> #[trigger] toks[k].1.start < toks[k].1.end,
        forall|k: int| 0 <= k < toks.len() - 1 ==> #[trigger] toks[k].1.end == toks[k + 1].1.start,
    ensures
        toks[a].1.start <= toks[b].1.start,
        toks[a].1.end <= toks[b].1.end,
    decreases b - a,
{
    if a < b {
        lemma_tiles_ordered(toks, a, b - 1);
        assert(toks[b - 1].1.end == toks[b].1.start);
        assert(toks[b - 1].1.start < toks[b - 1].1.end);
        assert(toks[b].1.start < toks[b].1.end);
    }
}

/// In an expression parsed from tokens with ordered spans, every node's source range lies
/// within its parent's, and the whole within the tokens' bytes.
pub proof fn lemma_parse_ranges_nest(toks: Toks, e: ExprV)
    requires
        spans_ordered(toks),
        parses_to(toks, e),
    ensures
        toks.len() > 0,
        within(e, lo(toks, 0), hi(toks, toks.len() as int)),
{
    lemma_in_expr(toks, 0);
    lemma_expr_reads_a_token(toks, 0);
}

/// Every node of an expression parsed from the tokens of a source has a byte range that
/// lies within its parent's, and the whole within the source's bytes.
pub proof fn lemma_parsed_ranges_in_source<'a>(
    s: Seq<char>,
    f: Seq<CharFlags>,
    toks: Seq<Spanned<Token<'a>>>,
    e: ExprV,
)
    requires
        lexes_to(s, f, toks),
        parses_to(toks, e),
    ensures
        within(e, 0, vstd::utf8::encode_utf8(s).len() as int),
{
    lemma_lexed_spans_ordered(s, f, toks);
    lemma_tokens_tile_source(s, f, toks);
    lemma_parse_ranges_nest(toks, e);
}

// ---------------------------------------------------------------------------
// Names are read in order.

/// The texts of the identifier tokens of `s`, in order.
pub open spec fn idents_of(s: Toks) -> Seq<Seq<char>>
    decreases s.len(),
{
    if s.len() == 0 {
        seq![]
    } else {
        (if s[0].0 is Ident { seq![payload(s[0].0)] } else { Seq::<Seq<char>>::empty() }) + idents_of(s.drop_first())
    }
}

proof fn lemma_idents_of_concat(a: Toks, b: Toks)
    ensures
        idents_of(a + b) == idents_of(a) + idents_of(b),
    decreases a.len(),
{
    if a.len() == 0 {
        assert(a + b =~= b);
        assert(idents_of(a) + idents_of(b) =~= idents_of(b));
    } else {
        assert((a + b).drop_first() =~= a.drop_first() + b);
        lemma_idents_of_concat(a.drop_first(), b);
        assert((a + b)[0] == a[0]);
        let h = if a[0].0 is Ident { seq![payload(a[0].0)] } else { Seq::<Seq<char>>::empty() };
        assert(h + (idents_of(a.drop_first()) + idents_of(b)) =~= (h + idents_of(a.drop_first())) + idents_of(b));
    }
}

proof fn lemma_idents_of_padding(s: Toks)
    requires
        forall|k: int| 0 <= k < s.len() ==> #[trigger] s[k].0 is Padding,
    ensures
        idents_of(s) == Seq::<Seq<char>>::empty(),
    decreases s.len(),
{
    if s.len() > 0 {
        assert(s[0].0 is Padding);
        assert forall|k: int| 0 <= k < s.drop_first().len() implies #[trigger] s.drop_first()[k].0 is Padding by {
            assert(s[k + 1].0 is Padding);
        }
        lemma_idents_of_padding(s.drop_first());
        assert(Seq::<Seq<char>>::empty() + Seq::<Seq<char>>::empty() =~= Seq::<Seq<char>>::empty());
    }
}

/// The names read from `i` (the parameters of `on`, the variables of `each`) are the
/// texts of the identifier tokens they span, in source order; they span nothing but
/// identifiers and padding, and stop only where the next token after padding is no
/// identifier.
pub proof fn lemma_names_in_source_order(toks: Toks, i: int)
    requires
        0 <= i <= toks.len(),
    ensures
        i <= names_rep(toks, i).1 <= toks.len(),
        forall|k: int| i <= k < names_rep(toks, i).1 ==> #[trigger] toks[k].0 is Padding || toks[k].0 is Ident,
        names_rep(toks, i).0 == idents_of(toks.subrange(i, names_rep(toks, i).1)),
        !ident_at(toks, skip_ws(toks, names_rep(toks, i).1)),
    decreases toks.len() - i,
{
    lemma_skip_ws(toks, i);
    let j = skip_ws(toks, i);
    if ident_at(toks, j) {
        lemma_skip_ws(toks, j + 1);
        let k = skip_ws(toks, j + 1);
        lemma_names_in_source_order(toks, k);
        let (rest, e) = names_rep(toks, k);
        let a = toks.subrange(i, j);
        let b = toks.subrange(j, j + 1);
        let c = toks.subrange(j + 1, k);
        let d = toks.subrange(k, e);
        assert(toks.subrange(i, e) =~= a + (b + (c + d)));
        lemma_idents_of_concat(a, b + (c + d));
        lemma_idents_of_concat(b, c + d);
        lemma_idents_of_concat(c, d);
        assert forall|m: int| 0 <= m < a.len() implies #[trigger] a[m].0 is Padding by {
            assert(toks[i + m].0 is Padding);
        }
        assert forall|m: int| 0 <= m < c.len() implies #[trigger] c[m].0 is Padding by {
            assert(toks[j + 1 + m].0 is Padding);
        }
        lemma_idents_of_padding(a);
        lemma_idents_of_padding(c);
        assert(b.drop_first() =~= Seq::<Spanned<Token>>::empty());
        assert(idents_of(b.drop_first()) =~= Seq::<Seq<char>>::empty());
        assert(b[0] == toks[j]);
        assert(idents_of(b) =~= seq![payload(toks[j].0)] + Seq::<Seq<char>>::empty());
        assert(idents_of(b) =~= seq![payload(toks[j].0)]);
        assert(idents_of(toks.subrange(i, e)) =~= seq![payload(toks[j].0)] + rest);
    } else {
        assert(toks.subrange(i, i) =~= Seq::<Spanned<Token>>::empty());
    }
}

} // verus!
