use diamondback::parser::{parse_expr, parse_identifier, parse_text, ParseError, TextError};
use diamondback::sexpr::{read_sexp, SAtom, SExpr};
use diamondback::types::{BinaryOp, Binding, Expr, UnitaryOp, ZeroOp};

fn num(n: i64) -> Box<Expr> {
    Box::new(Expr::EZeroOp(ZeroOp::Number(n)))
}

fn ident(s: &str) -> Box<Expr> {
    Box::new(Expr::EZeroOp(ZeroOp::Identifier(s.to_string())))
}

#[test]
fn parses_number_as_tagged_word() {
    assert_eq!(parse_text("5").unwrap(), Expr::EZeroOp(ZeroOp::Number(10)));
    assert_eq!(parse_text("-7").unwrap(), Expr::EZeroOp(ZeroOp::Number(-14)));
}

#[test]
fn parses_literal_range_edges() {
    assert_eq!(
        parse_text("4611686018427387903").unwrap(),
        Expr::EZeroOp(ZeroOp::Number(9223372036854775806))
    );
    assert_eq!(
        parse_text("-4611686018427387904").unwrap(),
        Expr::EZeroOp(ZeroOp::Number(i64::MIN))
    );
    assert_eq!(
        parse_text("4611686018427387904"),
        Err(TextError::Parse(ParseError::NumberOverflow))
    );
    assert_eq!(
        parse_text("-4611686018427387905"),
        Err(TextError::Parse(ParseError::NumberOverflow))
    );
}

#[test]
fn parses_booleans_input_and_names() {
    assert_eq!(parse_text("true").unwrap(), Expr::EZeroOp(ZeroOp::OpTrue));
    assert_eq!(parse_text("false").unwrap(), Expr::EZeroOp(ZeroOp::OpFalse));
    assert_eq!(parse_text("input").unwrap(), Expr::EZeroOp(ZeroOp::Input));
    assert_eq!(parse_text("abc").unwrap(), *ident("abc"));
}

#[test]
fn parses_unary_forms() {
    assert_eq!(parse_text("(add1 3)").unwrap(), Expr::EUnitaryOp(UnitaryOp::Add1, num(6)));
    assert_eq!(parse_text("(sub1 3)").unwrap(), Expr::EUnitaryOp(UnitaryOp::Sub1, num(6)));
    assert_eq!(parse_text("(isnum 3)").unwrap(), Expr::EUnitaryOp(UnitaryOp::IsNum, num(6)));
    assert_eq!(
        parse_text("(isbool true)").unwrap(),
        Expr::EUnitaryOp(UnitaryOp::IsBool, Box::new(Expr::EZeroOp(ZeroOp::OpTrue)))
    );
    assert_eq!(
        parse_text("(loop (break 1))").unwrap(),
        Expr::EUnitaryOp(
            UnitaryOp::Loop,
            Box::new(Expr::EUnitaryOp(UnitaryOp::Break, num(2)))
        )
    );
}

#[test]
fn parses_binary_forms() {
    let cases = [
        ("+", BinaryOp::Plus),
        ("-", BinaryOp::Minus),
        ("*", BinaryOp::Times),
        ("<", BinaryOp::Less),
        (">", BinaryOp::Greater),
        ("<=", BinaryOp::LessEqual),
        (">=", BinaryOp::GreaterEqual),
        ("=", BinaryOp::Equal),
    ];
    for (word, op) in cases {
        let text = format!("({} 1 2)", word);
        assert_eq!(parse_text(&text).unwrap(), Expr::EBinaryOp(op, num(2), num(4)));
    }
}

#[test]
fn parses_let_set_if_block() {
    assert_eq!(
        parse_text("(let ((x 1) (y x)) (set! y 2))").unwrap(),
        Expr::Let(
            vec![Binding("x".to_string(), num(2)), Binding("y".to_string(), ident("x"))],
            Box::new(Expr::SetBinding(Binding("y".to_string(), num(4))))
        )
    );
    assert_eq!(
        parse_text("(if true 1 2)").unwrap(),
        Expr::If(Box::new(Expr::EZeroOp(ZeroOp::OpTrue)), num(2), num(4))
    );
    assert_eq!(
        parse_text("(block 1 2 3)").unwrap(),
        Expr::Block(vec![*num(2), *num(4), *num(6)])
    );
}

#[test]
fn keyword_cannot_be_bound() {
    assert_eq!(
        parse_text("(let ((add1 1)) 2)"),
        Err(TextError::Parse(ParseError::KeywordAsIdentifier))
    );
    assert_eq!(
        parse_text("(set! loop 2)"),
        Err(TextError::Parse(ParseError::KeywordAsIdentifier))
    );
    assert_eq!(parse_text("(set! input 1)"), Err(TextError::Parse(ParseError::KeywordAsIdentifier)));
    assert_eq!(parse_identifier("x1"), "x1".to_string());
}

#[test]
fn keyword_atom_is_read_as_a_name() {
    assert_eq!(parse_text("let").unwrap(), *ident("let"));
}

#[test]
fn rejects_empty_let_and_block() {
    assert_eq!(parse_text("(let () 1)"), Err(TextError::Parse(ParseError::EmptyLet)));
    assert_eq!(parse_text("(block)"), Err(TextError::Parse(ParseError::EmptyBlock)));
}

#[test]
fn rejects_bad_bindings_and_forms() {
    assert_eq!(parse_text("(let (x) 1)"), Err(TextError::Parse(ParseError::BadBinding)));
    assert_eq!(parse_text("(let ((1 2)) 1)"), Err(TextError::Parse(ParseError::BadBinding)));
    assert_eq!(parse_text("(foo 1)"), Err(TextError::Parse(ParseError::Malformed)));
    assert_eq!(parse_text("(add1 1 2)"), Err(TextError::Parse(ParseError::Malformed)));
    assert_eq!(parse_text("(let x 1)"), Err(TextError::Parse(ParseError::Malformed)));
    assert_eq!(parse_text("()"), Err(TextError::Parse(ParseError::Malformed)));
}

#[test]
fn rejects_float_atoms() {
    assert_eq!(parse_text("1.5"), Err(TextError::Parse(ParseError::NotAnAtom)));
}

#[test]
fn first_error_from_the_left_wins() {
    assert_eq!(
        parse_text("(+ 1.5 (let () 1))"),
        Err(TextError::Parse(ParseError::NotAnAtom))
    );
    assert_eq!(
        parse_text("(+ (let () 1) 1.5)"),
        Err(TextError::Parse(ParseError::EmptyLet))
    );
}

#[test]
fn rejects_text_that_is_no_sexp() {
    assert_eq!(parse_text("(1"), Err(TextError::NotSexp));
    assert_eq!(parse_text("1 2"), Err(TextError::NotSexp));
}

#[test]
fn reads_sexp_tree() {
    let s = read_sexp("(a 1 2.5 (b))").unwrap();
    assert_eq!(
        s,
        SExpr::List(vec![
            SExpr::Atom(SAtom::S("a".to_string())),
            SExpr::Atom(SAtom::I(1)),
            SExpr::Atom(SAtom::F),
            SExpr::List(vec![SExpr::Atom(SAtom::S("b".to_string()))]),
        ])
    );
}

#[test]
fn parses_from_tree() {
    let s = SExpr::List(vec![
        SExpr::Atom(SAtom::S("add1".to_string())),
        SExpr::Atom(SAtom::I(20)),
    ]);
    assert_eq!(parse_expr(&s), Expr::EUnitaryOp(UnitaryOp::Add1, num(40)));
}
