use lil_syntax::lex::lexer;
use lil_syntax::lint::combine_ranges;
use lil_syntax::parse::{Expr, ExprKind};
use lil_syntax::parse::parse_expr;

fn parse(src: &'static str) -> Expr<'static> {
    let toks = Box::leak(lexer(src).unwrap().into_boxed_slice());
    parse_expr(toks, 0..src.len()).unwrap()
}

fn names<'a>(nodes: &[&Expr<'a>]) -> Vec<String> {
    nodes
        .iter()
        .map(|n| match n.kind() {
            ExprKind::Ident(s) => s.to_string(),
            ExprKind::Num(s) => s.to_string(),
            ExprKind::ForEach { .. } => "each".to_string(),
            ExprKind::Call { .. } => "call".to_string(),
            ExprKind::Binary { .. } => "bin".to_string(),
            ExprKind::While { .. } => "while".to_string(),
            _ => "other".to_string(),
        })
        .collect()
}

#[test]
fn traverse_is_preorder() {
    let e = parse("a + b");
    assert_eq!(names(&e.traverse()), vec!["bin", "a", "b"]);
    // A call visits its arguments, not its function.
    let e = parse("f[1 2]");
    assert_eq!(names(&e.traverse()), vec!["call", "1", "2"]);
    // A foreach visits its body before its array.
    let e = parse("each v in l v end");
    assert_eq!(names(&e.traverse()), vec!["each", "v", "l"]);
    // A while visits its condition before its body.
    let e = parse("while c b end");
    assert_eq!(names(&e.traverse()), vec!["while", "c", "b"]);
}

#[test]
fn lexpr_rules() {
    assert!(parse("x").kind().is_lexpr());
    assert!(parse("x[1]").kind().is_lexpr());
    assert!(parse("x.y").kind().is_lexpr());
    assert!(!parse("(x)").kind().is_lexpr());
    assert!(!parse("(x)[1]").kind().is_lexpr());
    assert!(!parse("x[1 2]").kind().is_lexpr());
    assert!(!parse("x..").kind().is_lexpr());
    assert!(!parse("1").kind().is_lexpr());
}

#[test]
fn as_each_elem_and_subscript() {
    let e = parse("f[]");
    let (arr, dot) = e.kind().as_each_elem().unwrap();
    assert!(!dot);
    assert_eq!(arr.kind(), &ExprKind::Ident("f"));
    let e = parse("x..");
    let (arr, dot) = e.kind().as_each_elem().unwrap();
    assert!(dot);
    assert_eq!(arr.kind(), &ExprKind::Ident("x"));
    assert!(parse("x").kind().as_each_elem().is_none());

    let e = parse("f[3]");
    let (arr, idx, dot) = e.kind().as_subscript().unwrap();
    assert_eq!(arr.kind(), &ExprKind::Ident("f"));
    assert_eq!(idx.kind(), &ExprKind::Num("3"));
    assert!(!dot);
    let e = parse("x.y");
    let (_, idx, dot) = e.kind().as_subscript().unwrap();
    assert_eq!(idx.kind(), &ExprKind::Str("y".to_string()));
    assert!(dot);
    assert!(parse("f[1 2]").kind().as_subscript().is_none());
}

#[test]
fn combine_ranges_covers_both() {
    assert_eq!(combine_ranges(&(3..5), &(1..4)), 1..5);
    assert_eq!(combine_ranges(&(0..9), &(2..3)), 0..9);
}

#[test]
fn nested_dot_each_is_warned() {
    let e = parse("x....");
    assert_eq!(e.nested_each_warnings(), (vec![0..5], true));
    // `x.[]` uses brackets for the inner each: no warning.
    assert_eq!(parse("x.[]").nested_each_warnings(), (vec![], true));
    assert_eq!(parse("a + b").nested_each_warnings(), (vec![], true));
    // A dot each over a call without arguments counts as nested.
    assert_eq!(parse("f[]..").nested_each_warnings(), (vec![0..5], true));
}

#[test]
fn nested_each_without_location_stops() {
    let inner = Expr::new(ExprKind::EachElem { arr: Box::new(Expr::new(ExprKind::Ident("x"))), was_dot_notation: true });
    let outer = Expr::with_src(ExprKind::EachElem { arr: Box::new(inner), was_dot_notation: true }, 0..3);
    assert_eq!(outer.nested_each_warnings(), (vec![], false));
}

fn children<'a, 'src>(e: &'a Expr<'src>) -> Vec<&'a Expr<'src>> {
    match e.kind() {
        ExprKind::Wrap(x) => vec![&**x],
        ExprKind::Subscript { arr, idx, .. } => vec![&**arr, &**idx],
        ExprKind::Assign { var, val } => vec![&**var, &**val],
        ExprKind::Amend { src, val } => vec![&**src, &**val],
        ExprKind::EachElem { arr, .. } => vec![&**arr],
        ExprKind::Call { func, args } => std::iter::once(&**func).chain(args.iter()).collect(),
        ExprKind::Binary { left, right, .. } => vec![&**left, &**right],
        ExprKind::Unary { val, .. } => vec![&**val],
        ExprKind::SpreadUnary { arr, .. } => vec![&**arr],
        ExprKind::ForEach { arr, body, .. } => std::iter::once(&**arr).chain(body.iter()).collect(),
        ExprKind::While { cond, body } => std::iter::once(&**cond).chain(body.iter()).collect(),
        ExprKind::Function { body, .. } => body.iter().collect(),
        _ => vec![],
    }
}

fn check_nested(e: &Expr, lo: usize, hi: usize) {
    let r = e.location().unwrap();
    assert!(lo <= r.start && r.start <= r.end && r.end <= hi);
    for c in children(e) {
        check_nested(c, r.start, r.end);
    }
}

#[test]
fn ranges_nest() {
    for src in [
        "x: each a b in l do a.b[1] + f[2 3] end",
        "while -x x: -@x - 1 end",
        "on f a do (a)[0]: 1 x.. y.[] end",
        " q ",
        "x: \"\u{fc}\u{e9}\" , y",
    ] {
        let e = parse(src);
        check_nested(&e, 0, src.len());
    }
}

#[test]
fn assignments_target_assignable_expressions() {
    for src in ["x: 1", "x[1]: 2", "x.y: 3", "(x): 4", "x..: 5", "f[1 2]: 6"] {
        let e = parse(src);
        match e.kind() {
            ExprKind::Assign { var, .. } => assert!(var.kind().is_lexpr()),
            ExprKind::Amend { src, .. } => assert!(!src.kind().is_lexpr()),
            _ => panic!("not an assignment"),
        }
    }
    assert!(matches!(parse("x.y: 3").kind(), ExprKind::Assign { .. }));
    assert!(matches!(parse("(x): 4").kind(), ExprKind::Amend { .. }));
}

#[test]
fn clone_copies_every_node() {
    let e = parse("x: each a in l do \"s\" f[1 2] end");
    let c = e.clone();
    assert_eq!(c, e);
    assert_eq!(names(&c.traverse()), names(&e.traverse()));
    let k = e.kind().clone();
    assert_eq!(&k, e.kind());
}

#[test]
fn span_has_the_location_bounds() {
    let e = parse(" a + b ");
    let r = e.location().unwrap();
    let sp = e.to_span().unwrap();
    assert_eq!((sp.start, sp.end), (r.start, r.end));
}
