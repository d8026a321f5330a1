use chumsky::span::SimpleSpan;
use lil_syntax::grammar::ParseError;
use lil_syntax::lex::lexer;
use lil_syntax::parse::{tok_to_bin, tok_to_uny, BinOp, Expr, ExprKind, UnaryOp};
use lil_syntax::lex::Token;
use lil_syntax::parser::parse_expr;

fn parse(src: &'static str) -> Result<Expr<'static>, ParseError> {
    let toks = Box::leak(lexer(src).unwrap().into_boxed_slice());
    parse_expr(toks, 0..src.len())
}

fn at<'a>(kind: ExprKind<'a>, start: usize, end: usize) -> Expr<'a> {
    Expr::with_src(kind, start..end)
}

fn bx(e: Expr<'_>) -> Box<Expr<'_>> {
    Box::new(e)
}

#[test]
fn binary_spans_cover_padding_of_atoms() {
    let e = parse("a + b").unwrap();
    let expected = at(
        ExprKind::Binary {
            left: bx(at(ExprKind::Ident("a"), 0, 2)),
            right: bx(at(ExprKind::Ident("b"), 4, 5)),
            kind: BinOp::Add,
        },
        0,
        5,
    );
    assert_eq!(e, expected);
}

#[test]
fn binary_operators_group_to_the_right() {
    let e = parse("1-2-3").unwrap();
    let expected = at(
        ExprKind::Binary {
            left: bx(at(ExprKind::Num("1"), 0, 1)),
            right: bx(at(
                ExprKind::Binary {
                    left: bx(at(ExprKind::Num("2"), 2, 3)),
                    right: bx(at(ExprKind::Num("3"), 4, 5)),
                    kind: BinOp::Sub,
                },
                2,
                5,
            )),
            kind: BinOp::Sub,
        },
        0,
        5,
    );
    assert_eq!(e, expected);
}

#[test]
fn assignment_to_an_identifier() {
    let e = parse("x: 1").unwrap();
    let expected = at(
        ExprKind::Assign { var: bx(at(ExprKind::Ident("x"), 0, 1)), val: bx(at(ExprKind::Num("1"), 3, 4)) },
        0,
        4,
    );
    assert_eq!(e, expected);
}

#[test]
fn wrapped_subscript_amends() {
    let e = parse("(x)[1]: 2").unwrap();
    let wrap = at(ExprKind::Wrap(bx(at(ExprKind::Ident("x"), 1, 2))), 0, 3);
    let sub = at(
        ExprKind::Subscript { arr: bx(wrap), idx: bx(at(ExprKind::Num("1"), 4, 5)), was_dot_notation: false },
        0,
        6,
    );
    let expected = at(ExprKind::Amend { src: bx(sub), val: bx(at(ExprKind::Num("2"), 8, 9)) }, 0, 9);
    assert_eq!(e, expected);
}

#[test]
fn call_with_arguments() {
    let e = parse("f[1 2]").unwrap();
    let expected = at(
        ExprKind::Call {
            func: bx(at(ExprKind::Ident("f"), 0, 1)),
            args: vec![at(ExprKind::Num("1"), 2, 4), at(ExprKind::Num("2"), 4, 5)],
        },
        0,
        6,
    );
    assert_eq!(e, expected);
    // A call with one argument can be assigned to.
    let e = parse("f[1]: 2").unwrap();
    assert!(matches!(e.kind(), ExprKind::Assign { .. }));
}

#[test]
fn field_access_with_a_dot() {
    let e = parse("x.y").unwrap();
    let expected = at(
        ExprKind::Subscript {
            arr: bx(at(ExprKind::Ident("x"), 0, 1)),
            idx: bx(at(ExprKind::Str("y".to_string()), 2, 3)),
            was_dot_notation: true,
        },
        0,
        3,
    );
    assert_eq!(e, expected);
    let e = parse("x.2").unwrap();
    assert!(matches!(e.kind(), ExprKind::Subscript { was_dot_notation: true, .. }));
}

#[test]
fn each_with_dots() {
    let e = parse("x..").unwrap();
    let expected = at(ExprKind::EachElem { arr: bx(at(ExprKind::Ident("x"), 0, 1)), was_dot_notation: true }, 0, 3);
    assert_eq!(e, expected);
    // A dot before `.ident` is an each, and the field access follows.
    let e = parse("x..y").unwrap();
    let each = at(ExprKind::EachElem { arr: bx(at(ExprKind::Ident("x"), 0, 1)), was_dot_notation: true }, 0, 2);
    let expected = at(
        ExprKind::Subscript { arr: bx(each), idx: bx(at(ExprKind::Str("y".to_string()), 3, 4)), was_dot_notation: true },
        0,
        4,
    );
    assert_eq!(e, expected);
    // A dot before `[` is an each; `[]` is another one.
    let e = parse("x.[]").unwrap();
    let inner = at(ExprKind::EachElem { arr: bx(at(ExprKind::Ident("x"), 0, 1)), was_dot_notation: true }, 0, 2);
    let expected = at(ExprKind::EachElem { arr: bx(inner), was_dot_notation: false }, 0, 4);
    assert_eq!(e, expected);
}

#[test]
fn each_loop() {
    let e = parse("each a in l a end").unwrap();
    let expected = at(
        ExprKind::ForEach {
            vars: vec!["a"],
            arr: bx(at(ExprKind::Ident("l"), 10, 12)),
            body: vec![at(ExprKind::Ident("a"), 12, 14)],
        },
        0,
        17,
    );
    assert_eq!(e, expected);
    assert!(parse("each a b in l do a end").is_ok());
}

#[test]
fn while_loop() {
    let e = parse("while x do y end").unwrap();
    let expected = at(
        ExprKind::While { cond: bx(at(ExprKind::Ident("x"), 5, 8)), body: vec![at(ExprKind::Ident("y"), 11, 13)] },
        0,
        16,
    );
    assert_eq!(e, expected);
    // Without `do`, the padding after the condition is read before the body.
    let e = parse("while x.y z end").unwrap();
    match e.kind() {
        ExprKind::While { body, .. } => assert_eq!(body[0].location(), Some(10..12)),
        _ => panic!("not a while"),
    }
}

#[test]
fn function_definition() {
    let e = parse("on f x do x end").unwrap();
    let expected = at(
        ExprKind::Function { name: "f", args: vec!["x"], body: vec![at(ExprKind::Ident("x"), 10, 12)] },
        0,
        15,
    );
    assert_eq!(e, expected);
    // `do` is required after a function's arguments.
    assert!(parse("on f x x end").is_err());
}

#[test]
fn unary_and_spread() {
    let e = parse("-x").unwrap();
    let expected = at(ExprKind::Unary { val: bx(at(ExprKind::Ident("x"), 1, 2)), op: UnaryOp::Negate }, 0, 2);
    assert_eq!(e, expected);
    let e = parse("-@x").unwrap();
    let expected = at(ExprKind::SpreadUnary { arr: bx(at(ExprKind::Ident("x"), 2, 3)), op: UnaryOp::Negate }, 0, 3);
    assert_eq!(e, expected);
    let e = parse("!-x").unwrap();
    assert!(matches!(e.kind(), ExprKind::Unary { op: UnaryOp::Not, .. }));
}

#[test]
fn empty_list_string_and_number() {
    assert_eq!(parse("()").unwrap(), at(ExprKind::EmptyList, 0, 2));
    assert_eq!(parse("\"s\"").unwrap(), at(ExprKind::Str("s".to_string()), 0, 3));
    assert_eq!(parse(" 7 ").unwrap(), at(ExprKind::Num("7"), 0, 3));
}

#[test]
fn parse_errors() {
    // The error is the furthest failure. At the end of input it spans from the start of
    // `eoi` to the end of the last token.
    assert_eq!(parse("a +"), Err(ParseError { span: 0..3, found: None }));
    assert_eq!(parse(""), Err(ParseError { span: 0..0, found: None }));
    assert_eq!(parse(")"), Err(ParseError { span: 0..1, found: Some(0) }));
    // An empty index may not hold padding: `[ ]` after a parenthesis is no accessor, and
    // the index expression failed furthest, at `]`.
    assert_eq!(parse("(x)[ ]"), Err(ParseError { span: 5..6, found: Some(5) }));
    // After an identifier it is a call without arguments.
    assert!(matches!(parse("x[ ]").unwrap().kind(), ExprKind::Call { .. }));
    assert_eq!(parse("a b"), Err(ParseError { span: 2..3, found: Some(2) }));
    // A field access does not read the padding after it; the accessors tried after the
    // padding failed at the end of input.
    assert_eq!(parse("x.y "), Err(ParseError { span: 0..4, found: None }));
}

#[test]
fn parse_error_at_furthest_failure() {
    // A binary operator is tested by reading a token and rejecting it, which counts as a
    // failure after that token but reports the token itself.
    assert_eq!(parse("a[1"), Err(ParseError { span: 2..3, found: Some(2) }));
    assert_eq!(parse("(1"), Err(ParseError { span: 1..2, found: Some(1) }));
    assert_eq!(parse("1 + (2"), Err(ParseError { span: 5..6, found: Some(5) }));
    // Reading padding before the end of input fails at the end of input.
    assert_eq!(parse("each x in"), Err(ParseError { span: 0..9, found: None }));
    assert_eq!(parse("a[1] ["), Err(ParseError { span: 0..6, found: None }));
    assert_eq!(parse("on f do end x"), Err(ParseError { span: 12..13, found: Some(8) }));
    assert_eq!(parse("x:y:z ]"), Err(ParseError { span: 6..7, found: Some(6) }));
    // The end-of-input range starts where `eoi` does.
    let toks = lexer("a +").unwrap();
    assert_eq!(parse_expr(&toks, 7..9), Err(ParseError { span: 7..3, found: None }));
    assert_eq!(parse_expr(&[], 4..5), Err(ParseError { span: 4..5, found: None }));
}

#[test]
fn parsed_nodes_are_all_located() {
    for src in ["x: each a in l do a.b[1] + f[2 3] end", "while -x x: x - 1 end", "on f a do (a)[0]: 1 end"] {
        let e = parse(src).unwrap();
        for node in e.traverse() {
            let loc = node.location().unwrap();
            assert!(loc.start < loc.end && loc.end <= src.len());
        }
    }
}

#[test]
fn spans_convert_to_chumsky() {
    let e = parse("a + b").unwrap();
    assert_eq!(e.to_span(), Some(SimpleSpan::new(0, 5)));
    assert_eq!(Expr::new(ExprKind::EmptyList).to_span(), None);
    assert_eq!(Expr::new(ExprKind::EmptyList).location(), None);
}

#[test]
fn operator_tokens() {
    assert_eq!(tok_to_bin(&Token::OpAnd), Some(BinOp::Min));
    assert_eq!(tok_to_bin(&Token::OpOr), Some(BinOp::Max));
    assert_eq!(tok_to_bin(&Token::OpComma), Some(BinOp::CommaJoin));
    assert_eq!(tok_to_bin(&Token::OpNot), None);
    assert_eq!(tok_to_uny(&Token::OpMinus), Some(UnaryOp::Negate));
    assert_eq!(tok_to_uny(&Token::OpPlus), None);
}
