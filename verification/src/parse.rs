//! The syntax tree of expressions, and what can be asked of it.

use chumsky::span::SimpleSpan;
use std::ops::Range;
use vstd::prelude::*;
use crate::lex::Token;

pub use crate::parser::parse_expr;

verus! {

#[verifier::external_type_specification]
#[verifier::external_body]
#[verifier::reject_recursive_types(T)]
#[verifier::reject_recursive_types(C)]
pub struct ExSimpleSpan<T, C>(SimpleSpan<T, C>);

/// The span that chumsky's `SimpleSpan::new(start, end)` makes.
pub uninterp spec fn simple_span(start: usize, end: usize) -> SimpleSpan;

/// Calls `chumsky::span::SimpleSpan::new(start, end)`; the result is named `simple_span`.
/// `new` sets the span's public `start` and `end` fields to its arguments (and its context
/// to `()`), so a span made from other bounds is another span.
#[verifier::external_body]
fn new_simple_span(start: usize, end: usize) -> (s: SimpleSpan)
    ensures
        s == simple_span(start, end),
        forall|a: usize, b: usize| s == #[trigger] simple_span(a, b) ==> a == start && b == end,
{
    SimpleSpan::new(start, end)
}

/// An expression, with the byte range of the source it was parsed from, if any.
#[derive(Debug, PartialEq)]
pub struct Expr<'src> {
    src: Option<Range<usize>>,
    kind: ExprKind<'src>,
}

#[derive(Debug, Clone, Copy, PartialEq, Eq, Structural)]
pub enum BinOp {
    Add,
    Sub,
    Mul,
    Div,
    Mod,
    Pow,
    Lt,
    Gt,
    Eq,
    Min,  // &
    Max,  // |
    Match,
    SpreadIdx,
    Split,
    Fuse,
    Like,
    Dict,
    Take,
    Drop,
    CommaJoin,
    TableJoin,
    Join,
    Limit,
    Window,
    In,
    Unless,
    Cross,
    Parse,
    Format,
}

#[derive(Debug, Clone, Copy, PartialEq, Eq, Structural)]
pub enum UnaryOp {
    Negate,
    Not,
    Floor,
    Cos,
    Sin,
    Tan,
    Exp,
    Ln,
    Sqrt,
    Sum,
    Prod,
    Raze,
    Min,
    Max,
    Typeof,
    Count,
    First,
    Last,
    Range,
    Keys,
    List,
    Flip,
    Rows,
    Cols,
    Table,
    Mag,
    Heading,
    Unit,
}

/// The binary operator that a token stands for.
pub open spec fn bin_op_of(t: Token) -> Option<BinOp> {
    match t {
        Token::OpPlus => Some(BinOp::Add),
        Token::OpMinus => Some(BinOp::Sub),
        Token::OpMul => Some(BinOp::Mul),
        Token::OpDiv => Some(BinOp::Div),
        Token::OpMod => Some(BinOp::Mod),
        Token::OpPow => Some(BinOp::Pow),
        Token::OpLt => Some(BinOp::Lt),
        Token::OpGt => Some(BinOp::Gt),
        Token::OpEq => Some(BinOp::Eq),
        Token::OpAnd => Some(BinOp::Min),
        Token::OpOr => Some(BinOp::Max),
        Token::OpTilde => Some(BinOp::Match),
        Token::OpAt => Some(BinOp::SpreadIdx),
        Token::OpSplit => Some(BinOp::Split),
        Token::OpFuse => Some(BinOp::Fuse),
        Token::OpLike => Some(BinOp::Like),
        Token::OpDict => Some(BinOp::Dict),
        Token::OpTake => Some(BinOp::Take),
        Token::OpDrop => Some(BinOp::Drop),
        Token::OpComma => Some(BinOp::CommaJoin),
        _ => None,
    }
}

/// The unary operator that a token stands for.
pub open spec fn unary_op_of(t: Token) -> Option<UnaryOp> {
    match t {
        Token::OpMinus => Some(UnaryOp::Negate),
        Token::OpNot => Some(UnaryOp::Not),
        _ => None,
    }
}

pub fn tok_to_bin(tok: &Token) -> (r: Option<BinOp>)
    ensures
        r == bin_op_of(*tok),
{
    match tok {
        Token::OpPlus => Some(BinOp::Add),
        Token::OpMinus => Some(BinOp::Sub),
        Token::OpMul => Some(BinOp::Mul),
        Token::OpDiv => Some(BinOp::Div),
        Token::OpMod => Some(BinOp::Mod),
        Token::OpPow => Some(BinOp::Pow),
        Token::OpLt => Some(BinOp::Lt),
        Token::OpGt => Some(BinOp::Gt),
        Token::OpEq => Some(BinOp::Eq),
        Token::OpAnd => Some(BinOp::Min),
        Token::OpOr => Some(BinOp::Max),
        Token::OpTilde => Some(BinOp::Match),
        Token::OpAt => Some(BinOp::SpreadIdx),
        Token::OpSplit => Some(BinOp::Split),
        Token::OpFuse => Some(BinOp::Fuse),
        Token::OpLike => Some(BinOp::Like),
        Token::OpDict => Some(BinOp::Dict),
        Token::OpTake => Some(BinOp::Take),
        Token::OpDrop => Some(BinOp::Drop),
        Token::OpComma => Some(BinOp::CommaJoin),
        _ => None,
    }
}

pub fn tok_to_uny(tok: &Token) -> (r: Option<UnaryOp>)
    ensures
        r == unary_op_of(*tok),
{
    match tok {
        Token::OpMinus => Some(UnaryOp::Negate),
        Token::OpNot => Some(UnaryOp::Not),
        _ => None,
    }
}

#[allow(inconsistent_fields)]
#[derive(Debug, PartialEq)]
pub enum ExprKind<'src> {
    Error,
    Ident(&'src str),
    /// A number, as its source numeral.
    Num(&'src str),
    Str(String),
    Wrap(Box<Expr<'src>>),
    Subscript { arr: Box<Expr<'src>>, idx: Box<Expr<'src>>, was_dot_notation: bool },
    /// Only where `var` can be assigned to.
    Assign { var: Box<Expr<'src>>, val: Box<Expr<'src>> },
    /// Only where `src` cannot be assigned to.
    Amend { src: Box<Expr<'src>>, val: Box<Expr<'src>> },
    EachElem { arr: Box<Expr<'src>>, was_dot_notation: bool },
    /// Also stands for an index or a foreach.
    Call { func: Box<Expr<'src>>, args: Vec<Expr<'src>> },
    Binary { left: Box<Expr<'src>>, right: Box<Expr<'src>>, kind: BinOp },
    Unary { val: Box<Expr<'src>>, op: UnaryOp },
    EmptyList,
    /// For example `-@arr`: a unary operator (`-` or `!`, the only ones there are) applied
    /// to each element.
    SpreadUnary { arr: Box<Expr<'src>>, op: UnaryOp },
    ForEach { vars: Vec<&'src str>, arr: Box<Expr<'src>>, body: Vec<Expr<'src>> },
    While { cond: Box<Expr<'src>>, body: Vec<Expr<'src>> },
    Function { name: &'src str, args: Vec<&'src str>, body: Vec<Expr<'src>> },
}

// ---------------------------------------------------------------------------
// The mathematical view of expressions.

pub struct ExprV {
    pub src: Option<Range<usize>>,
    pub kind: KindV,
}

#[allow(inconsistent_fields)]
pub enum KindV {
    Error,
    Ident(Seq<char>),
    Num(Seq<char>),
    Str(Seq<char>),
    Wrap(Box<ExprV>),
    Subscript { arr: Box<ExprV>, idx: Box<ExprV>, was_dot_notation: bool },
    Assign { var: Box<ExprV>, val: Box<ExprV> },
    Amend { src: Box<ExprV>, val: Box<ExprV> },
    EachElem { arr: Box<ExprV>, was_dot_notation: bool },
    Call { func: Box<ExprV>, args: Seq<ExprV> },
    Binary { left: Box<ExprV>, right: Box<ExprV>, kind: BinOp },
    Unary { val: Box<ExprV>, op: UnaryOp },
    EmptyList,
    SpreadUnary { arr: Box<ExprV>, op: UnaryOp },
    ForEach { vars: Seq<Seq<char>>, arr: Box<ExprV>, body: Seq<ExprV> },
    While { cond: Box<ExprV>, body: Seq<ExprV> },
    Function { name: Seq<char>, args: Seq<Seq<char>>, body: Seq<ExprV> },
}

pub open spec fn names_view(v: Seq<&str>) -> Seq<Seq<char>> {
    v.map_values(|s: &str| s@)
}

pub closed spec fn expr_view(e: Expr) -> ExprV
    decreases e,
{
    ExprV { src: e.src, kind: kind_view(e.kind) }
}

pub open spec fn kind_view(k: ExprKind) -> KindV
    decreases k,
{
    match k {
        ExprKind::Error => KindV::Error,
        ExprKind::Ident(s) => KindV::Ident(s@),
        ExprKind::Num(s) => KindV::Num(s@),
        ExprKind::Str(s) => KindV::Str(s@),
        ExprKind::Wrap(x) => KindV::Wrap(Box::new(expr_view(*x))),
        ExprKind::Subscript { arr, idx, was_dot_notation } => KindV::Subscript {
            arr: Box::new(expr_view(*arr)),
            idx: Box::new(expr_view(*idx)),
            was_dot_notation,
        },
        ExprKind::Assign { var, val } => KindV::Assign {
            var: Box::new(expr_view(*var)),
            val: Box::new(expr_view(*val)),
        },
        ExprKind::Amend { src, val } => KindV::Amend {
            src: Box::new(expr_view(*src)),
            val: Box::new(expr_view(*val)),
        },
        ExprKind::EachElem { arr, was_dot_notation } => KindV::EachElem {
            arr: Box::new(expr_view(*arr)),
            was_dot_notation,
        },
        ExprKind::Call { func, args } => KindV::Call {
            func: Box::new(expr_view(*func)),
            args: exprs_view(args@),
        },
        ExprKind::Binary { left, right, kind } => KindV::Binary {
            left: Box::new(expr_view(*left)),
            right: Box::new(expr_view(*right)),
            kind,
        },
        ExprKind::Unary { val, op } => KindV::Unary { val: Box::new(expr_view(*val)), op },
        ExprKind::EmptyList => KindV::EmptyList,
        ExprKind::SpreadUnary { arr, op } => KindV::SpreadUnary { arr: Box::new(expr_view(*arr)), op },
        ExprKind::ForEach { vars, arr, body } => KindV::ForEach {
            vars: names_view(vars@),
            arr: Box::new(expr_view(*arr)),
            body: exprs_view(body@),
        },
        ExprKind::While { cond, body } => KindV::While {
            cond: Box::new(expr_view(*cond)),
            body: exprs_view(body@),
        },
        ExprKind::Function { name, args, body } => KindV::Function {
            name: name@,
            args: names_view(args@),
            body: exprs_view(body@),
        },
    }
}

pub open spec fn exprs_view(es: Seq<Expr>) -> Seq<ExprV>
    decreases es,
{
    if es.len() == 0 {
        seq![]
    } else {
        exprs_view(es.drop_last()).push(expr_view(es.last()))
    }
}

impl<'src> View for Expr<'src> {
    type V = ExprV;

    open spec fn view(&self) -> ExprV {
        expr_view(*self)
    }
}

impl<'src> View for ExprKind<'src> {
    type V = KindV;

    open spec fn view(&self) -> KindV {
        kind_view(*self)
    }
}

pub proof fn lemma_exprs_view_len(es: Seq<Expr>)
    ensures
        exprs_view(es).len() == es.len(),
        forall|k: int| 0 <= k < es.len() ==> #[trigger] exprs_view(es)[k] == expr_view(es[k]),
    decreases es.len(),
{
    if es.len() > 0 {
        lemma_exprs_view_len(es.drop_last());
    }
}

pub proof fn lemma_exprs_view_prepend(x: Expr, es: Seq<Expr>)
    ensures
        exprs_view(seq![x] + es) == seq![expr_view(x)] + exprs_view(es),
{
    lemma_exprs_view_len(seq![x] + es);
    lemma_exprs_view_len(es);
    assert(exprs_view(seq![x] + es) =~= seq![expr_view(x)] + exprs_view(es));
}

// ---------------------------------------------------------------------------
// Questions about expressions.

/// Whether an expression of this kind can be assigned to: an identifier, a subscript of
/// something that can be, or a call with exactly one argument.
pub open spec fn is_lexpr_v(k: KindV) -> bool
    decreases k,
{
    match k {
        KindV::Ident(_) => true,
        KindV::Subscript { arr, .. } => is_lexpr_v(arr.kind),
        KindV::Call { args, .. } => args.len() == 1,
        _ => false,
    }
}

/// What an expression indexes into, through any chain of subscripts: the expression
/// itself where it is no subscript.
pub open spec fn subscript_root(k: KindV) -> KindV
    decreases k,
{
    match k {
        KindV::Subscript { arr, .. } => subscript_root(arr.kind),
        _ => k,
    }
}

/// An expression can be assigned to exactly when, below any chain of subscripts (indices
/// or fields, at any depth), it is a name or a call with one argument.
pub proof fn lemma_lexpr_by_root(k: KindV)
    ensures
        is_lexpr_v(k) <==> (subscript_root(k) is Ident || (subscript_root(k) matches KindV::Call { args, .. } && args.len() == 1)),
    decreases k,
{
    if let KindV::Subscript { arr, .. } = k {
        lemma_lexpr_by_root(arr.kind);
    }
}

/// Every node has a source range, every assignment's target can be assigned to, and no
/// amendment's source can.
pub open spec fn well_built(e: ExprV) -> bool
    decreases e,
{
    e.src is Some && kind_well_built(e.kind)
}

pub open spec fn kind_well_built(k: KindV) -> bool
    decreases k,
{
    match k {
        KindV::Wrap(x) => well_built(*x),
        KindV::Subscript { arr, idx, .. } => well_built(*arr) && well_built(*idx),
        KindV::Assign { var, val } => is_lexpr_v(var.kind) && well_built(*var) && well_built(*val),
        KindV::Amend { src, val } => !is_lexpr_v(src.kind) && well_built(*src) && well_built(*val),
        KindV::EachElem { arr, .. } => well_built(*arr),
        KindV::Call { func, args } => well_built(*func) && all_well_built(args),
        KindV::Binary { left, right, .. } => well_built(*left) && well_built(*right),
        KindV::Unary { val, .. } => well_built(*val),
        KindV::SpreadUnary { arr, .. } => well_built(*arr),
        KindV::ForEach { arr, body, .. } => well_built(*arr) && all_well_built(body),
        KindV::While { cond, body } => well_built(*cond) && all_well_built(body),
        KindV::Function { body, .. } => all_well_built(body),
        _ => true,
    }
}

pub open spec fn all_well_built(es: Seq<ExprV>) -> bool
    decreases es,
{
    forall|k: int| 0 <= k < es.len() ==> well_built(#[trigger] es[k])
}

/// `e` has a source range inside `lo..hi`, and so, inside that range, do its parts.
pub open spec fn within(e: ExprV, lo: int, hi: int) -> bool
    decreases e,
{
    match e.src {
        Some(r) => lo <= r.start && r.start <= r.end && r.end <= hi && kind_within(e.kind, r.start as int, r.end as int),
        None => false,
    }
}

/// The parts of an expression of this kind are `within` `lo..hi`.
pub open spec fn kind_within(k: KindV, lo: int, hi: int) -> bool
    decreases k,
{
    match k {
        KindV::Wrap(x) => within(*x, lo, hi),
        KindV::Subscript { arr, idx, .. } => within(*arr, lo, hi) && within(*idx, lo, hi),
        KindV::Assign { var, val } => within(*var, lo, hi) && within(*val, lo, hi),
        KindV::Amend { src, val } => within(*src, lo, hi) && within(*val, lo, hi),
        KindV::EachElem { arr, .. } => within(*arr, lo, hi),
        KindV::Call { func, args } => within(*func, lo, hi) && all_within(args, lo, hi),
        KindV::Binary { left, right, .. } => within(*left, lo, hi) && within(*right, lo, hi),
        KindV::Unary { val, .. } => within(*val, lo, hi),
        KindV::SpreadUnary { arr, .. } => within(*arr, lo, hi),
        KindV::ForEach { arr, body, .. } => within(*arr, lo, hi) && all_within(body, lo, hi),
        KindV::While { cond, body } => within(*cond, lo, hi) && all_within(body, lo, hi),
        KindV::Function { body, .. } => all_within(body, lo, hi),
        _ => true,
    }
}

pub open spec fn all_within(es: Seq<ExprV>, lo: int, hi: int) -> bool
    decreases es,
{
    forall|k: int| 0 <= k < es.len() ==> within(#[trigger] es[k], lo, hi)
}

/// Widening the bounds keeps an expression within them.
pub proof fn lemma_within_widen(e: ExprV, lo: int, hi: int, lo2: int, hi2: int)
    requires
        within(e, lo, hi),
        lo2 <= lo,
        hi <= hi2,
    ensures
        within(e, lo2, hi2),
{
}

pub proof fn lemma_all_within_widen(es: Seq<ExprV>, lo: int, hi: int, lo2: int, hi2: int)
    requires
        all_within(es, lo, hi),
        lo2 <= lo,
        hi <= hi2,
    ensures
        all_within(es, lo2, hi2),
{
    assert forall|k: int| 0 <= k < es.len() implies within(#[trigger] es[k], lo2, hi2) by {
        lemma_within_widen(es[k], lo, hi, lo2, hi2);
    }
}

pub proof fn lemma_kind_within_widen(k: KindV, lo: int, hi: int, lo2: int, hi2: int)
    requires
        kind_within(k, lo, hi),
        lo2 <= lo,
        hi <= hi2,
    ensures
        kind_within(k, lo2, hi2),
{
    match k {
        KindV::Wrap(x) => lemma_within_widen(*x, lo, hi, lo2, hi2),
        KindV::Subscript { arr, idx, .. } => {
            lemma_within_widen(*arr, lo, hi, lo2, hi2);
            lemma_within_widen(*idx, lo, hi, lo2, hi2);
        },
        KindV::Assign { var, val } => {
            lemma_within_widen(*var, lo, hi, lo2, hi2);
            lemma_within_widen(*val, lo, hi, lo2, hi2);
        },
        KindV::Amend { src, val } => {
            lemma_within_widen(*src, lo, hi, lo2, hi2);
            lemma_within_widen(*val, lo, hi, lo2, hi2);
        },
        KindV::EachElem { arr, .. } => lemma_within_widen(*arr, lo, hi, lo2, hi2),
        KindV::Call { func, args } => {
            lemma_within_widen(*func, lo, hi, lo2, hi2);
            lemma_all_within_widen(args, lo, hi, lo2, hi2);
        },
        KindV::Binary { left, right, .. } => {
            lemma_within_widen(*left, lo, hi, lo2, hi2);
            lemma_within_widen(*right, lo, hi, lo2, hi2);
        },
        KindV::Unary { val, .. } => lemma_within_widen(*val, lo, hi, lo2, hi2),
        KindV::SpreadUnary { arr, .. } => lemma_within_widen(*arr, lo, hi, lo2, hi2),
        KindV::ForEach { arr, body, .. } => {
            lemma_within_widen(*arr, lo, hi, lo2, hi2);
            lemma_all_within_widen(body, lo, hi, lo2, hi2);
        },
        KindV::While { cond, body } => {
            lemma_within_widen(*cond, lo, hi, lo2, hi2);
            lemma_all_within_widen(body, lo, hi, lo2, hi2);
        },
        KindV::Function { body, .. } => lemma_all_within_widen(body, lo, hi, lo2, hi2),
        _ => {},
    }
}

/// The array and the dot flag of an each-element expression, where a call without
/// arguments also counts as one.
pub open spec fn each_elem_v(k: KindV) -> Option<(ExprV, bool)> {
    match k {
        KindV::EachElem { arr, was_dot_notation } => Some((*arr, was_dot_notation)),
        KindV::Call { func, args } => if args.len() == 0 {
            Some((*func, false))
        } else {
            None
        },
        _ => None,
    }
}

/// The array, index and dot flag of a subscript, where a call with one argument also
/// counts as one.
pub open spec fn subscript_v(k: KindV) -> Option<(ExprV, ExprV, bool)> {
    match k {
        KindV::Subscript { arr, idx, was_dot_notation } => Some((*arr, *idx, was_dot_notation)),
        KindV::Call { func, args } => if args.len() == 1 {
            Some((*func, args[0], false))
        } else {
            None
        },
        _ => None,
    }
}

/// The nodes of an expression in the order a traversal visits them: the node itself,
/// then the nodes of its parts. A call visits its arguments but not its function; a
/// foreach visits its body before its array.
pub open spec fn preorder(e: ExprV) -> Seq<ExprV>
    decreases e,
{
    seq![e] + kind_preorder(e.kind)
}

pub open spec fn kind_preorder(k: KindV) -> Seq<ExprV>
    decreases k,
{
    match k {
        KindV::Wrap(x) => preorder(*x),
        KindV::Subscript { arr, idx, .. } => preorder(*arr) + preorder(*idx),
        KindV::Assign { var, val } => preorder(*var) + preorder(*val),
        KindV::Amend { src, val } => preorder(*src) + preorder(*val),
        KindV::EachElem { arr, .. } => preorder(*arr),
        KindV::Binary { left, right, .. } => preorder(*left) + preorder(*right),
        KindV::Unary { val, .. } => preorder(*val),
        KindV::Call { args, .. } => preorder_all(args),
        KindV::SpreadUnary { arr, .. } => preorder(*arr),
        KindV::ForEach { arr, body, .. } => preorder_all(body) + preorder(*arr),
        KindV::While { cond, body } => preorder(*cond) + preorder_all(body),
        KindV::Function { body, .. } => preorder_all(body),
        _ => seq![],
    }
}

pub open spec fn preorder_all(es: Seq<ExprV>) -> Seq<ExprV>
    decreases es,
{
    if es.len() == 0 {
        seq![]
    } else {
        preorder_all(es.drop_last()) + preorder(es.last())
    }
}

// ---------------------------------------------------------------------------
// A traversal visits every node.

/// The parts of a node that a traversal goes into: every sub-expression, except the
/// function of a call (a name).
pub open spec fn visited_parts(k: KindV) -> Seq<ExprV> {
    match k {
        KindV::Wrap(x) => seq![*x],
        KindV::Subscript { arr, idx, .. } => seq![*arr, *idx],
        KindV::Assign { var, val } => seq![*var, *val],
        KindV::Amend { src, val } => seq![*src, *val],
        KindV::EachElem { arr, .. } => seq![*arr],
        KindV::Binary { left, right, .. } => seq![*left, *right],
        KindV::Unary { val, .. } => seq![*val],
        KindV::Call { args, .. } => args,
        KindV::SpreadUnary { arr, .. } => seq![*arr],
        KindV::ForEach { arr, body, .. } => body.push(*arr),
        KindV::While { cond, body } => seq![*cond] + body,
        KindV::Function { body, .. } => body,
        _ => seq![],
    }
}

/// The number of nodes of `e` that a traversal visits: `e` and those of its visited parts.
pub open spec fn size(e: ExprV) -> nat
    decreases e,
{
    1 + kind_size(e.kind)
}

pub open spec fn kind_size(k: KindV) -> nat
    decreases k,
{
    match k {
        KindV::Wrap(x) => size(*x),
        KindV::Subscript { arr, idx, .. } => size(*arr) + size(*idx),
        KindV::Assign { var, val } => size(*var) + size(*val),
        KindV::Amend { src, val } => size(*src) + size(*val),
        KindV::EachElem { arr, .. } => size(*arr),
        KindV::Binary { left, right, .. } => size(*left) + size(*right),
        KindV::Unary { val, .. } => size(*val),
        KindV::Call { args, .. } => size_all(args),
        KindV::SpreadUnary { arr, .. } => size(*arr),
        KindV::ForEach { arr, body, .. } => size_all(body) + size(*arr),
        KindV::While { cond, body } => size(*cond) + size_all(body),
        KindV::Function { body, .. } => size_all(body),
        _ => 0,
    }
}

pub open spec fn size_all(es: Seq<ExprV>) -> nat
    decreases es,
{
    if es.len() == 0 {
        0
    } else {
        size_all(es.drop_last()) + size(es.last())
    }
}

/// Every part that a traversal goes into, of every node in `nodes`, is in `nodes`.
pub open spec fn closed_under_parts(nodes: Seq<ExprV>) -> bool {
    forall|x: ExprV, c: ExprV|
        #![trigger nodes.contains(x), visited_parts(x.kind).contains(c)]
        nodes.contains(x) && visited_parts(x.kind).contains(c) ==> nodes.contains(c)
}

proof fn lemma_contains_concat(a: Seq<ExprV>, b: Seq<ExprV>)
    ensures
        forall|x: ExprV| #[trigger] (a + b).contains(x) <==> a.contains(x) || b.contains(x),
{
    assert forall|x: ExprV| #[trigger] (a + b).contains(x) <==> a.contains(x) || b.contains(x) by {
        if (a + b).contains(x) {
            let k = choose|k: int| 0 <= k < (a + b).len() && (a + b)[k] == x;
            if k < a.len() {
                assert(a[k] == x);
            } else {
                assert(b[k - a.len()] == x);
            }
        }
        if a.contains(x) {
            let k = choose|k: int| 0 <= k < a.len() && a[k] == x;
            assert((a + b)[k] == x);
        }
        if b.contains(x) {
            let k = choose|k: int| 0 <= k < b.len() && b[k] == x;
            assert((a + b)[k + a.len()] == x);
        }
    }
}

proof fn lemma_closed_concat(a: Seq<ExprV>, b: Seq<ExprV>)
    requires
        closed_under_parts(a),
        closed_under_parts(b),
    ensures
        closed_under_parts(a + b),
{
    lemma_contains_concat(a, b);
}

proof fn lemma_first_in_preorder(e: ExprV)
    ensures
        preorder(e).contains(e),
        preorder(e)[0] == e,
{
    assert(preorder(e)[0] == e);
}

proof fn lemma_parts_in_preorder_all(es: Seq<ExprV>)
    ensures
        forall|c: ExprV| es.contains(c) ==> #[trigger] preorder_all(es).contains(c),
    decreases es,
{
    if es.len() > 0 {
        lemma_parts_in_preorder_all(es.drop_last());
        lemma_contains_concat(preorder_all(es.drop_last()), preorder(es.last()));
        lemma_first_in_preorder(es.last());
        assert forall|c: ExprV| es.contains(c) implies #[trigger] preorder_all(es).contains(c) by {
            let k = choose|k: int| 0 <= k < es.len() && es[k] == c;
            if k < es.len() - 1 {
                assert(es.drop_last()[k] == c);
            }
        }
    }
}

proof fn lemma_closed_all(es: Seq<ExprV>)
    ensures
        closed_under_parts(preorder_all(es)),
    decreases es,
{
    if es.len() > 0 {
        lemma_closed_all(es.drop_last());
        lemma_closed(es.last());
        lemma_closed_concat(preorder_all(es.drop_last()), preorder(es.last()));
    }
}

/// The nodes of a traversal of `e` hold every part that the traversal goes into, of every
/// node among them.
pub proof fn lemma_closed(e: ExprV)
    ensures
        closed_under_parts(preorder(e)),
    decreases e,
{
    let k = e.kind;
    let kp = kind_preorder(k);
    let parts = visited_parts(k);
    match k {
        KindV::Wrap(x) => lemma_closed(*x),
        KindV::Subscript { arr, idx, .. } => {
            lemma_closed(*arr);
            lemma_closed(*idx);
            lemma_closed_concat(preorder(*arr), preorder(*idx));
        },
        KindV::Assign { var, val } => {
            lemma_closed(*var);
            lemma_closed(*val);
            lemma_closed_concat(preorder(*var), preorder(*val));
        },
        KindV::Amend { src, val } => {
            lemma_closed(*src);
            lemma_closed(*val);
            lemma_closed_concat(preorder(*src), preorder(*val));
        },
        KindV::EachElem { arr, .. } => lemma_closed(*arr),
        KindV::Binary { left, right, .. } => {
            lemma_closed(*left);
            lemma_closed(*right);
            lemma_closed_concat(preorder(*left), preorder(*right));
        },
        KindV::Unary { val, .. } => lemma_closed(*val),
        KindV::Call { args, .. } => lemma_closed_all(args),
        KindV::SpreadUnary { arr, .. } => lemma_closed(*arr),
        KindV::ForEach { arr, body, .. } => {
            lemma_closed_all(body);
            lemma_closed(*arr);
            lemma_closed_concat(preorder_all(body), preorder(*arr));
        },
        KindV::While { cond, body } => {
            lemma_closed(*cond);
            lemma_closed_all(body);
            lemma_closed_concat(preorder(*cond), preorder_all(body));
        },
        KindV::Function { body, .. } => lemma_closed_all(body),
        _ => {},
    }
    assert(closed_under_parts(kp));
    // Each part of `e` is the first node of its own traversal, inside `kp`.
    assert forall|c: ExprV| parts.contains(c) implies #[trigger] kp.contains(c) by {
        match k {
            KindV::Wrap(x) => lemma_first_in_preorder(*x),
            KindV::Subscript { arr, idx, .. } => {
                lemma_first_in_preorder(*arr);
                lemma_first_in_preorder(*idx);
                lemma_contains_concat(preorder(*arr), preorder(*idx));
                assert(parts[0] == *arr && parts[1] == *idx);
            },
            KindV::Assign { var, val } => {
                lemma_first_in_preorder(*var);
                lemma_first_in_preorder(*val);
                lemma_contains_concat(preorder(*var), preorder(*val));
                assert(parts[0] == *var && parts[1] == *val);
            },
            KindV::Amend { src, val } => {
                lemma_first_in_preorder(*src);
                lemma_first_in_preorder(*val);
                lemma_contains_concat(preorder(*src), preorder(*val));
                assert(parts[0] == *src && parts[1] == *val);
            },
            KindV::EachElem { arr, .. } => lemma_first_in_preorder(*arr),
            KindV::Binary { left, right, .. } => {
                lemma_first_in_preorder(*left);
                lemma_first_in_preorder(*right);
                lemma_contains_concat(preorder(*left), preorder(*right));
                assert(parts[0] == *left && parts[1] == *right);
            },
            KindV::Unary { val, .. } => lemma_first_in_preorder(*val),
            KindV::Call { args, .. } => lemma_parts_in_preorder_all(args),
            KindV::SpreadUnary { arr, .. } => lemma_first_in_preorder(*arr),
            KindV::ForEach { arr, body, .. } => {
                lemma_parts_in_preorder_all(body);
                lemma_first_in_preorder(*arr);
                lemma_contains_concat(preorder_all(body), preorder(*arr));
                let m = choose|m: int| 0 <= m < parts.len() && parts[m] == c;
                if m < body.len() {
                    assert(body[m] == c);
                    assert(body.contains(c));
                }
            },
            KindV::While { cond, body } => {
                lemma_parts_in_preorder_all(body);
                lemma_first_in_preorder(*cond);
                lemma_contains_concat(preorder(*cond), preorder_all(body));
                let m = choose|m: int| 0 <= m < parts.len() && parts[m] == c;
                if m > 0 {
                    assert(body[m - 1] == c);
                    assert(body.contains(c));
                }
            },
            KindV::Function { body, .. } => lemma_parts_in_preorder_all(body),
            _ => {},
        }
    }
    lemma_contains_concat(seq![e], kp);
    assert forall|x: ExprV, c: ExprV|
        #![trigger preorder(e).contains(x), visited_parts(x.kind).contains(c)]
        preorder(e).contains(x) && visited_parts(x.kind).contains(c) implies preorder(e).contains(c) by {
        if seq![e].contains(x) {
            assert(x == seq![e][0]);
            assert(kp.contains(c));
        } else {
            assert(kp.contains(x));
        }
    }
}

proof fn lemma_preorder_all_len(es: Seq<ExprV>)
    ensures
        preorder_all(es).len() == size_all(es),
    decreases es,
{
    if es.len() > 0 {
        lemma_preorder_all_len(es.drop_last());
        lemma_preorder_len(es.last());
    }
}

proof fn lemma_preorder_len(e: ExprV)
    ensures
        preorder(e).len() == size(e),
    decreases e,
{
    match e.kind {
        KindV::Wrap(x) => lemma_preorder_len(*x),
        KindV::Subscript { arr, idx, .. } => {
            lemma_preorder_len(*arr);
            lemma_preorder_len(*idx);
        },
        KindV::Assign { var, val } => {
            lemma_preorder_len(*var);
            lemma_preorder_len(*val);
        },
        KindV::Amend { src, val } => {
            lemma_preorder_len(*src);
            lemma_preorder_len(*val);
        },
        KindV::EachElem { arr, .. } => lemma_preorder_len(*arr),
        KindV::Binary { left, right, .. } => {
            lemma_preorder_len(*left);
            lemma_preorder_len(*right);
        },
        KindV::Unary { val, .. } => lemma_preorder_len(*val),
        KindV::Call { args, .. } => lemma_preorder_all_len(args),
        KindV::SpreadUnary { arr, .. } => lemma_preorder_len(*arr),
        KindV::ForEach { arr, body, .. } => {
            lemma_preorder_all_len(body);
            lemma_preorder_len(*arr);
        },
        KindV::While { cond, body } => {
            lemma_preorder_len(*cond);
            lemma_preorder_all_len(body);
        },
        KindV::Function { body, .. } => lemma_preorder_all_len(body),
        _ => {},
    }
}

proof fn lemma_preorder_all_concat(a: Seq<ExprV>, b: Seq<ExprV>)
    ensures
        preorder_all(a + b) == preorder_all(a) + preorder_all(b),
    decreases b.len(),
{
    if b.len() == 0 {
        assert(a + b =~= a);
        assert(preorder_all(a) + preorder_all(b) =~= preorder_all(a));
    } else {
        assert((a + b).drop_last() =~= a + b.drop_last());
        assert((a + b).last() == b.last());
        lemma_preorder_all_concat(a, b.drop_last());
        assert(preorder_all(a) + (preorder_all(b.drop_last()) + preorder(b.last()))
            =~= (preorder_all(a) + preorder_all(b.drop_last())) + preorder(b.last()));
    }
}

proof fn lemma_preorder_all_one(x: ExprV)
    ensures
        preorder_all(seq![x]) == preorder(x),
{
    assert(seq![x].drop_last() =~= Seq::<ExprV>::empty());
    assert(preorder_all(Seq::<ExprV>::empty()) =~= Seq::<ExprV>::empty());
    assert(seq![x].last() == x);
    assert(Seq::<ExprV>::empty() + preorder(x) =~= preorder(x));
}

/// A traversal of `e` starts at `e` and then goes through its visited parts in order,
/// each with all of its nodes; it lists as many nodes as `e` has (each once), and holds
/// every part that it goes into of every node it lists: both sides of an assignment or a
/// binary operation, every argument, every statement of a body.
pub proof fn lemma_traversal_visits_every_node(e: ExprV)
    ensures
        preorder(e)[0] == e,
        preorder(e) == seq![e] + preorder_all(visited_parts(e.kind)),
        preorder(e).len() == size(e),
        closed_under_parts(preorder(e)),
{
    lemma_first_in_preorder(e);
    lemma_preorder_len(e);
    lemma_closed(e);
    match e.kind {
        KindV::Wrap(x) => lemma_preorder_all_one(*x),
        KindV::Subscript { arr, idx, .. } => {
            lemma_preorder_all_concat(seq![*arr], seq![*idx]);
            lemma_preorder_all_one(*arr);
            lemma_preorder_all_one(*idx);
            assert(seq![*arr] + seq![*idx] =~= seq![*arr, *idx]);
        },
        KindV::Assign { var, val } => {
            lemma_preorder_all_concat(seq![*var], seq![*val]);
            lemma_preorder_all_one(*var);
            lemma_preorder_all_one(*val);
            assert(seq![*var] + seq![*val] =~= seq![*var, *val]);
        },
        KindV::Amend { src, val } => {
            lemma_preorder_all_concat(seq![*src], seq![*val]);
            lemma_preorder_all_one(*src);
            lemma_preorder_all_one(*val);
            assert(seq![*src] + seq![*val] =~= seq![*src, *val]);
        },
        KindV::EachElem { arr, .. } => lemma_preorder_all_one(*arr),
        KindV::Binary { left, right, .. } => {
            lemma_preorder_all_concat(seq![*left], seq![*right]);
            lemma_preorder_all_one(*left);
            lemma_preorder_all_one(*right);
            assert(seq![*left] + seq![*right] =~= seq![*left, *right]);
        },
        KindV::Unary { val, .. } => lemma_preorder_all_one(*val),
        KindV::SpreadUnary { arr, .. } => lemma_preorder_all_one(*arr),
        KindV::ForEach { arr, body, .. } => {
            assert(body.push(*arr).drop_last() =~= body);
        },
        KindV::While { cond, body } => {
            lemma_preorder_all_concat(seq![*cond], body);
            lemma_preorder_all_one(*cond);
        },
        _ => {
            assert(preorder_all(Seq::<ExprV>::empty()) == Seq::<ExprV>::empty());
        },
    }
}

pub open spec fn refs_view(v: Seq<&Expr>) -> Seq<ExprV> {
    v.map_values(|e: &Expr| e@)
}

proof fn lemma_refs_view_push<'a, 'src>(v: Seq<&'a Expr<'src>>, e: &'a Expr<'src>)
    ensures
        refs_view(v.push(e)) == refs_view(v) + seq![e@],
{
    assert(refs_view(v.push(e)) =~= refs_view(v) + seq![e@]);
}

/// Visits each expression of `es`, in order.
fn visit_all<'a, 'src>(es: &'a Vec<Expr<'src>>, out: &mut Vec<&'a Expr<'src>>)
    ensures
        refs_view(final(out)@) == refs_view(old(out)@) + preorder_all(exprs_view(es@)),
    decreases es,
{
    let ghost start = refs_view(out@);
    proof {
        lemma_exprs_view_len(es@);
        assert(exprs_view(es@).take(0) =~= Seq::<ExprV>::empty());
        assert(start + Seq::<ExprV>::empty() =~= start);
    }
    let mut k: usize = 0;
    while k < es.len()
        invariant
            k <= es@.len(),
            exprs_view(es@).len() == es@.len(),
            forall|m: int| 0 <= m < es@.len() ==> #[trigger] exprs_view(es@)[m] == es@[m]@,
            refs_view(out@) == start + preorder_all(exprs_view(es@).take(k as int)),
        decreases es@.len() - k,
    {
        assert(decreases_to!(es => es@[k as int]));
        es[k].visit(out);
        proof {
            let vs = exprs_view(es@);
            assert(vs.take(k + 1).drop_last() =~= vs.take(k as int));
            assert(vs.take(k + 1).last() == es@[k as int]@);
            assert(start + preorder_all(vs.take(k as int)) + preorder(es@[k as int]@)
                =~= start + (preorder_all(vs.take(k as int)) + preorder(es@[k as int]@)));
        }
        k = k + 1;
    }
    assert(exprs_view(es@).take(es@.len() as int) =~= exprs_view(es@));
}

impl<'src> Expr<'src> {
    /// Appends this expression's nodes to `out`, in the order of `preorder`.
    fn visit<'a>(&'a self, out: &mut Vec<&'a Expr<'src>>)
        ensures
            refs_view(final(out)@) == refs_view(old(out)@) + preorder(self@),
        decreases self,
    {
        let ghost start = refs_view(out@);
        out.push(self);
        proof {
            lemma_refs_view_push(old(out)@, self);
        }
        let ghost mid = refs_view(out@);
        match &self.kind {
            ExprKind::Wrap(x) => x.visit(out),
            ExprKind::Error | ExprKind::Num(_) | ExprKind::Ident(_) | ExprKind::Str(_)
            | ExprKind::EmptyList => {},
            ExprKind::Subscript { arr, idx, .. } => {
                arr.visit(out);
                idx.visit(out);
            },
            ExprKind::Assign { var, val } => {
                var.visit(out);
                val.visit(out);
            },
            ExprKind::Amend { src, val } => {
                src.visit(out);
                val.visit(out);
            },
            ExprKind::EachElem { arr, .. } => arr.visit(out),
            ExprKind::Binary { left, right, .. } => {
                left.visit(out);
                right.visit(out);
            },
            ExprKind::Unary { val, .. } => val.visit(out),
            ExprKind::Call { func: _, args } => visit_all(args, out),
            ExprKind::SpreadUnary { arr, .. } => arr.visit(out),
            ExprKind::ForEach { vars: _, arr, body } => {
                visit_all(body, out);
                arr.visit(out);
            },
            ExprKind::While { cond, body } => {
                cond.visit(out);
                visit_all(body, out);
            },
            ExprKind::Function { name: _, args: _, body } => visit_all(body, out),
        }
        proof {
            assert(refs_view(out@) =~= start + preorder(self@));
        }
    }

    /// The nodes of this expression, each once, in the order of `preorder`: the node
    /// itself, then the nodes of its parts.
    pub fn traverse<'a>(&'a self) -> (nodes: Vec<&'a Expr<'src>>)
        ensures
            refs_view(nodes@) == preorder(self@),
    {
        let mut out: Vec<&'a Expr<'src>> = Vec::new();
        self.visit(&mut out);
        assert(refs_view(Seq::<&Expr>::empty()) =~= Seq::<ExprV>::empty());
        assert(Seq::<ExprV>::empty() + preorder(self@) =~= preorder(self@));
        out
    }

    pub fn location(&self) -> (r: Option<Range<usize>>)
        ensures
            r == self@.src,
    {
        match &self.src {
            Some(l) => Some(Range { start: l.start, end: l.end }),
            None => None,
        }
    }

    /// The location as a chumsky span: a span with the location's bounds, and none other.
    pub fn to_span(&self) -> (r: Option<SimpleSpan>)
        ensures
            r == match self@.src {
                Some(l) => Some(simple_span(l.start, l.end)),
                None => None,
            },
            r matches Some(sp) ==> forall|a: usize, b: usize|
                sp == #[trigger] simple_span(a, b) ==> self@.src == Some(Range { start: a, end: b }),
    {
        match &self.src {
            Some(l) => Some(new_simple_span(l.start, l.end)),
            None => None,
        }
    }

    pub fn kind(&self) -> (k: &ExprKind<'src>)
        ensures
            k@ == self@.kind,
    {
        &self.kind
    }

    pub fn new(kind: ExprKind<'src>) -> (e: Self)
        ensures
            e@ == (ExprV { src: None, kind: kind@ }),
    {
        Self { src: None, kind }
    }

    pub fn with_src(kind: ExprKind<'src>, src: Range<usize>) -> (e: Self)
        ensures
            e@ == (ExprV { src: Some(src), kind: kind@ }),
    {
        Self { src: Some(src), kind }
    }
}

impl<'src> ExprKind<'src> {
    pub fn as_each_elem(&self) -> (r: Option<(&Box<Expr<'src>>, bool)>)
        ensures
            match r {
                Some((a, d)) => each_elem_v(self@) == Some(((**a)@, d)),
                None => each_elem_v(self@) is None,
            },
    {
        match self {
            ExprKind::EachElem { arr, was_dot_notation } => Some((arr, *was_dot_notation)),
            ExprKind::Call { func, args } => {
                proof {
                    lemma_exprs_view_len(args@);
                }
                if args.len() == 0 {
                    Some((func, false))
                } else {
                    None
                }
            },
            _ => None,
        }
    }

    pub fn as_subscript(&self) -> (r: Option<(&Expr<'src>, &Expr<'src>, bool)>)
        ensures
            match r {
                Some((a, i, d)) => subscript_v(self@) == Some((a@, i@, d)),
                None => subscript_v(self@) is None,
            },
    {
        match self {
            ExprKind::Subscript { arr, idx, was_dot_notation } => Some((arr, idx, *was_dot_notation)),
            ExprKind::Call { func, args } => {
                proof {
                    lemma_exprs_view_len(args@);
                }
                if args.len() == 1 {
                    Some((func, &args[0], false))
                } else {
                    None
                }
            },
            _ => None,
        }
    }

    /// Whether this expression can be assigned to.
    pub fn is_lexpr(&self) -> (b: bool)
        ensures
            b == is_lexpr_v(self@),
        decreases self,
    {
        match self {
            // `(foo)[1]:44` amends rather than assigns, so a wrapped expression is not one.
            ExprKind::Wrap(_) => false,
            ExprKind::Error | ExprKind::Num(_) | ExprKind::Str(_) => false,
            ExprKind::Ident(_) => true,
            ExprKind::Subscript { arr, .. } => arr.kind.is_lexpr(),
            ExprKind::Assign { .. } => false,
            ExprKind::Amend { .. } => false,
            // An each-element amends rather than assigns.
            ExprKind::EachElem { .. } => false,
            ExprKind::Binary { .. } => false,
            ExprKind::Unary { .. } => false,
            ExprKind::EmptyList => false,
            ExprKind::Call { func: _, args } => {
                proof {
                    lemma_exprs_view_len(args@);
                }
                args.len() == 1
            },
            ExprKind::SpreadUnary { .. } => false,
            ExprKind::ForEach { .. } => false,
            ExprKind::While { .. } => false,
            ExprKind::Function { .. } => false,
        }
    }
}

// ---------------------------------------------------------------------------
// Copies of expressions.

fn clone_names<'src>(v: &Vec<&'src str>) -> (r: Vec<&'src str>)
    ensures
        r@ == v@,
{
    let mut r: Vec<&'src str> = Vec::new();
    let mut k: usize = 0;
    while k < v.len()
        invariant
            k <= v@.len(),
            r@ == v@.take(k as int),
        decreases v@.len() - k,
    {
        r.push(v[k]);
        k = k + 1;
        assert(r@ =~= v@.take(k as int));
    }
    assert(v@.take(v@.len() as int) =~= v@);
    r
}

fn clone_exprs<'src>(v: &Vec<Expr<'src>>) -> (r: Vec<Expr<'src>>)
    ensures
        exprs_view(r@) == exprs_view(v@),
    decreases v,
{
    let mut r: Vec<Expr<'src>> = Vec::new();
    let mut k: usize = 0;
    proof {
        lemma_exprs_view_len(v@);
    }
    while k < v.len()
        invariant
            k <= v@.len(),
            exprs_view(v@).len() == v@.len(),
            forall|m: int| 0 <= m < v@.len() ==> #[trigger] exprs_view(v@)[m] == v@[m]@,
            r@.len() == k,
            forall|m: int| 0 <= m < k ==> #[trigger] r@[m]@ == v@[m]@,
        decreases v@.len() - k,
    {
        assert(decreases_to!(v => v@[k as int]));
        let x = clone_expr(&v[k]);
        r.push(x);
        k = k + 1;
    }
    proof {
        lemma_exprs_view_len(r@);
        assert forall|m: int| 0 <= m < r@.len() implies #[trigger] exprs_view(r@)[m] == exprs_view(v@)[m] by {
            assert(r@[m]@ == v@[m]@);
        }
        assert(exprs_view(r@) =~= exprs_view(v@));
    }
    r
}

/// A copy of `e`, node for node.
fn clone_expr<'src>(e: &Expr<'src>) -> (r: Expr<'src>)
    ensures
        r@ == e@,
    decreases e,
{
    let src = match &e.src {
        Some(l) => Some(Range { start: l.start, end: l.end }),
        None => None,
    };
    Expr { src, kind: clone_kind(&e.kind) }
}

/// A copy of `k`, node for node.
fn clone_kind<'src>(k: &ExprKind<'src>) -> (r: ExprKind<'src>)
    ensures
        r@ == k@,
    decreases k,
{
    match k {
        ExprKind::Error => ExprKind::Error,
        ExprKind::Ident(s) => ExprKind::Ident(s),
        ExprKind::Num(s) => ExprKind::Num(s),
        ExprKind::Str(s) => ExprKind::Str(s.clone()),
        ExprKind::Wrap(x) => ExprKind::Wrap(Box::new(clone_expr(&**x))),
        ExprKind::Subscript { arr, idx, was_dot_notation } => ExprKind::Subscript {
            arr: Box::new(clone_expr(&**arr)),
            idx: Box::new(clone_expr(&**idx)),
            was_dot_notation: *was_dot_notation,
        },
        ExprKind::Assign { var, val } => ExprKind::Assign { var: Box::new(clone_expr(&**var)), val: Box::new(clone_expr(&**val)) },
        ExprKind::Amend { src, val } => ExprKind::Amend { src: Box::new(clone_expr(&**src)), val: Box::new(clone_expr(&**val)) },
        ExprKind::EachElem { arr, was_dot_notation } => ExprKind::EachElem {
            arr: Box::new(clone_expr(&**arr)),
            was_dot_notation: *was_dot_notation,
        },
        ExprKind::Call { func, args } => ExprKind::Call { func: Box::new(clone_expr(&**func)), args: clone_exprs(args) },
        ExprKind::Binary { left, right, kind } => ExprKind::Binary {
            left: Box::new(clone_expr(&**left)),
            right: Box::new(clone_expr(&**right)),
            kind: *kind,
        },
        ExprKind::Unary { val, op } => ExprKind::Unary { val: Box::new(clone_expr(&**val)), op: *op },
        ExprKind::EmptyList => ExprKind::EmptyList,
        ExprKind::SpreadUnary { arr, op } => ExprKind::SpreadUnary { arr: Box::new(clone_expr(&**arr)), op: *op },
        ExprKind::ForEach { vars, arr, body } => ExprKind::ForEach {
            vars: clone_names(vars),
            arr: Box::new(clone_expr(&**arr)),
            body: clone_exprs(body),
        },
        ExprKind::While { cond, body } => ExprKind::While { cond: Box::new(clone_expr(&**cond)), body: clone_exprs(body) },
        ExprKind::Function { name, args, body } => ExprKind::Function {
            name: name,
            args: clone_names(args),
            body: clone_exprs(body),
        },
    }
}

impl<'src> Clone for Expr<'src> {
    /// A copy of this expression, node for node.
    fn clone(&self) -> (r: Self)
        ensures
            r@ == self@,
    {
        clone_expr(self)
    }
}

impl<'src> Clone for ExprKind<'src> {
    /// A copy of this kind, node for node.
    fn clone(&self) -> (r: Self)
        ensures
            r@ == self@,
    {
        clone_kind(self)
    }
}

} // verus!
