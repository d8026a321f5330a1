//! The style check on parsed expressions: nested eaches written with dots.

use std::ops::Range;
use vstd::prelude::*;
use crate::parse::{
    all_well_built, each_elem_v, kind_preorder, kind_well_built, preorder, preorder_all,
    refs_view, well_built, Expr, ExprV, KindV,
};

verus! {

pub open spec fn min_usize(a: usize, b: usize) -> usize {
    if a <= b { a } else { b }
}

pub open spec fn max_usize(a: usize, b: usize) -> usize {
    if a >= b { a } else { b }
}

/// The smallest range that covers both `a` and `b`.
pub open spec fn cover(a: Range<usize>, b: Range<usize>) -> Range<usize> {
    Range { start: min_usize(a.start, b.start), end: max_usize(a.end, b.end) }
}

pub fn combine_ranges(a: &Range<usize>, b: &Range<usize>) -> (r: Range<usize>)
    ensures
        r == cover(*a, *b),
{
    Range {
        start: if a.start <= b.start { a.start } else { b.start },
        end: if a.end >= b.end { a.end } else { b.end },
    }
}

/// `e` is an each written with a dot whose array is itself an each (or a call without
/// arguments), as in `x...`: the style prefers `x[][]`.
pub open spec fn nested_dot_each(e: ExprV) -> bool {
    each_elem_v(e.kind) matches Some((arr, dot)) && dot && each_elem_v(arr.kind) is Some
}

/// The warnings for `nodes` from index `k` on: for each nested dot each, the range that
/// covers it and its array. Stops, with `false`, at the first one of them where either
/// range is missing.
pub open spec fn warnings_from(nodes: Seq<ExprV>, k: int) -> (Seq<Range<usize>>, bool)
    decreases nodes.len() - k,
{
    if k < 0 || k >= nodes.len() {
        (seq![], true)
    } else if nested_dot_each(nodes[k]) {
        let (arr, _) = each_elem_v(nodes[k].kind)->0;
        match (nodes[k].src, arr.src) {
            (Some(a), Some(b)) => {
                let (rest, ok) = warnings_from(nodes, k + 1);
                (seq![cover(a, b)] + rest, ok)
            },
            _ => (seq![], false),
        }
    } else {
        warnings_from(nodes, k + 1)
    }
}

impl<'src> Expr<'src> {
    /// The ranges to warn about, in the order of a traversal: each each written with a dot
    /// over another each, covering both. The flag is `false` where a node that needs a
    /// warning has no source range; the ranges then stop before it.
    pub fn nested_each_warnings(&self) -> (r: (Vec<Range<usize>>, bool))
        ensures
            (r.0@, r.1) == warnings_from(preorder(self@), 0),
    {
        let nodes = self.traverse();
        let ghost all = preorder(self@);
        let mut out: Vec<Range<usize>> = Vec::new();
        let mut k: usize = 0;
        proof {
            assert(refs_view(nodes@).len() == nodes@.len());
        }
        while k < nodes.len()
            invariant
                k <= nodes@.len(),
                refs_view(nodes@) == all,
                all == preorder(self@),
                all.len() == nodes@.len(),
                warnings_from(all, 0) == ({
                    let (rest, ok) = warnings_from(all, k as int);
                    (out@ + rest, ok)
                }),
            decreases nodes@.len() - k,
        {
            let node = nodes[k];
            assert(all[k as int] == node@);
            if let Some((arr, true)) = node.kind().as_each_elem() {
                if arr.kind().as_each_elem().is_some() {
                    match (node.location(), arr.location()) {
                        (Some(a), Some(b)) => {
                            let ghost old_out = out@;
                            out.push(combine_ranges(&a, &b));
                            proof {
                                let (rest, ok) = warnings_from(all, k + 1);
                                assert(old_out + (seq![cover(a, b)] + rest) =~= out@ + rest);
                            }
                        },
                        _ => {
                            assert(nested_dot_each(all[k as int]));
                            assert(node@.src is None || arr@.src is None);
                            assert(warnings_from(all, k as int) == (Seq::<Range<usize>>::empty(), false));
                            assert(out@ + Seq::<Range<usize>>::empty() =~= out@);
                            assert(warnings_from(all, 0) == (out@, false));
                            return (out, false);
                        },
                    }
                }
            }
            k = k + 1;
        }
        assert(out@ + Seq::<Range<usize>>::empty() =~= out@);
        (out, true)
    }
}

// ---------------------------------------------------------------------------
// For parsed expressions the check never meets a node without a range.

pub proof fn lemma_preorder_all_well_built(es: Seq<ExprV>)
    requires
        all_well_built(es),
    ensures
        all_well_built(preorder_all(es)),
    decreases es,
{
    if es.len() > 0 {
        lemma_preorder_all_well_built(es.drop_last());
        lemma_preorder_well_built(es.last());
        lemma_concat_well_built(preorder_all(es.drop_last()), preorder(es.last()));
    }
}

pub proof fn lemma_concat_well_built(a: Seq<ExprV>, b: Seq<ExprV>)
    requires
        all_well_built(a),
        all_well_built(b),
    ensures
        all_well_built(a + b),
{
    assert forall|k: int| 0 <= k < (a + b).len() implies well_built(#[trigger] (a + b)[k]) by {
        if k < a.len() {
            assert((a + b)[k] == a[k]);
        } else {
            assert((a + b)[k] == b[k - a.len()]);
        }
    }
}

/// Every node of a well-built expression is well built.
pub proof fn lemma_preorder_well_built(e: ExprV)
    requires
        well_built(e),
    ensures
        all_well_built(preorder(e)),
    decreases e,
{
    let k = e.kind;
    assert(kind_well_built(k));
    match k {
        KindV::Wrap(x) => lemma_preorder_well_built(*x),
        KindV::Subscript { arr, idx, .. } => {
            lemma_preorder_well_built(*arr);
            lemma_preorder_well_built(*idx);
            lemma_concat_well_built(preorder(*arr), preorder(*idx));
        },
        KindV::Assign { var, val } => {
            lemma_preorder_well_built(*var);
            lemma_preorder_well_built(*val);
            lemma_concat_well_built(preorder(*var), preorder(*val));
        },
        KindV::Amend { src, val } => {
            lemma_preorder_well_built(*src);
            lemma_preorder_well_built(*val);
            lemma_concat_well_built(preorder(*src), preorder(*val));
        },
        KindV::EachElem { arr, .. } => lemma_preorder_well_built(*arr),
        KindV::Binary { left, right, .. } => {
            lemma_preorder_well_built(*left);
            lemma_preorder_well_built(*right);
            lemma_concat_well_built(preorder(*left), preorder(*right));
        },
        KindV::Unary { val, .. } => lemma_preorder_well_built(*val),
        KindV::Call { args, .. } => lemma_preorder_all_well_built(args),
        KindV::SpreadUnary { arr, .. } => lemma_preorder_well_built(*arr),
        KindV::ForEach { arr, body, .. } => {
            lemma_preorder_all_well_built(body);
            lemma_preorder_well_built(*arr);
            lemma_concat_well_built(preorder_all(body), preorder(*arr));
        },
        KindV::While { cond, body } => {
            lemma_preorder_well_built(*cond);
            lemma_preorder_all_well_built(body);
            lemma_concat_well_built(preorder(*cond), preorder_all(body));
        },
        KindV::Function { body, .. } => lemma_preorder_all_well_built(body),
        _ => {},
    }
    assert(all_well_built(seq![e]));
    lemma_concat_well_built(seq![e], kind_preorder(k));
}

proof fn lemma_warnings_complete(nodes: Seq<ExprV>, k: int)
    requires
        all_well_built(nodes),
        0 <= k,
    ensures
        warnings_from(nodes, k).1,
    decreases nodes.len() - k,
{
    if k < nodes.len() {
        assert(well_built(nodes[k]));
        assert(kind_well_built(nodes[k].kind));
        lemma_warnings_complete(nodes, k + 1);
    }
}

/// The style check of a well-built expression (such as a parsed one) never meets a node
/// without a source range: it warns about every nested dot each.
pub proof fn lemma_warnings_of_well_built(e: ExprV)
    requires
        well_built(e),
    ensures
        warnings_from(preorder(e), 0).1,
{
    lemma_preorder_well_built(e);
    lemma_warnings_complete(preorder(e), 0);
}

// ---------------------------------------------------------------------------
// The check warns about every nested dot each, in traversal order.

pub open spec fn is_nested_each() -> spec_fn(ExprV) -> bool {
    |n: ExprV| nested_dot_each(n)
}

/// The range a warning about node `n` covers: `n` and its array.
pub open spec fn warn_range(n: ExprV) -> Range<usize> {
    match each_elem_v(n.kind) {
        Some((arr, _)) => cover(n.src.unwrap(), arr.src.unwrap()),
        None => n.src.unwrap(),
    }
}

pub open spec fn warn_range_fn() -> spec_fn(ExprV) -> Range<usize> {
    |n: ExprV| warn_range(n)
}

proof fn lemma_warnings_are_filtered(nodes: Seq<ExprV>, k: int)
    requires
        all_well_built(nodes),
        0 <= k <= nodes.len(),
    ensures
        warnings_from(nodes, k) == (nodes.skip(k).filter(is_nested_each()).map_values(warn_range_fn()), true),
    decreases nodes.len() - k,
{
    if k == nodes.len() {
        assert(nodes.skip(k) =~= Seq::<ExprV>::empty());
        reveal(Seq::filter);
        assert(nodes.skip(k).filter(is_nested_each()) =~= Seq::<ExprV>::empty());
        assert(nodes.skip(k).filter(is_nested_each()).map_values(warn_range_fn()) =~= Seq::<Range<usize>>::empty());
    } else {
        lemma_warnings_are_filtered(nodes, k + 1);
        let x = nodes[k];
        let tail = nodes.skip(k + 1);
        assert(nodes.skip(k) =~= seq![x] + tail);
        tail.lemma_filter_prepend(x, is_nested_each());
        assert(well_built(x));
        assert(kind_well_built(x.kind));
        let ft = tail.filter(is_nested_each());
        if nested_dot_each(x) {
            assert((seq![x] + ft).map_values(warn_range_fn()) =~= seq![warn_range(x)] + ft.map_values(warn_range_fn()));
        } else {
            assert(Seq::<ExprV>::empty() + ft =~= ft);
        }
    }
}

/// For a well-built expression (such as a parsed one) the check warns once about each node
/// that is a dot each over an each, in traversal order and about no other node, each
/// warning covering that node and its array; it meets no node without a range.
pub proof fn lemma_warns_about_every_nested_each(e: ExprV)
    requires
        well_built(e),
    ensures
        warnings_from(preorder(e), 0) == (preorder(e).filter(is_nested_each()).map_values(warn_range_fn()), true),
{
    lemma_preorder_well_built(e);
    lemma_warnings_are_filtered(preorder(e), 0);
    assert(preorder(e).skip(0) =~= preorder(e));
}

} // verus!
