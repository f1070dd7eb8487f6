//! From s-expressions to expressions of the source language.
use vstd::prelude::*;

use crate::labels::{binds_programs, exprs_programs, programs};
use crate::sexpr::{read_sexp, sexp_reading, sexprs_model, SAtom, SAtomV, SExpr, SExprV};
use crate::text::text_is;
use crate::types::{
    binds_model, exprs_model, BinaryOp, Binding, Expr, ExprV, UnitaryOp, ZeroOp, ZeroOpV,
};

verus! {

/// Why an s-expression is not an expression of the language.
#[derive(Debug, Clone, Copy, PartialEq, Eq, Structural)]
pub enum ParseError {
    /// An integer outside the range that the tagged representation holds.
    NumberOverflow,
    /// A list, or a floating-point atom, where an atom was expected.
    NotAnAtom,
    /// A keyword used as the name of a binding.
    KeywordAsIdentifier,
    /// A `let` with no bindings.
    EmptyLet,
    /// A `block` with no subexpressions.
    EmptyBlock,
    /// A binding that is not a list of a name and an expression.
    BadBinding,
    /// A list that is no form of the language.
    Malformed,
}

/// The smallest integer literal the language accepts.
pub const MIN_LITERAL: i64 = -4611686018427387904;

/// The largest integer literal the language accepts.
pub const MAX_LITERAL: i64 = 4611686018427387903;

/// The words that cannot name a binding.
pub open spec fn is_keyword(s: Seq<char>) -> bool {
    ||| s == "true"@
    ||| s == "false"@
    ||| s == "input"@
    ||| s == "let"@
    ||| s == "set!"@
    ||| s == "if"@
    ||| s == "block"@
    ||| s == "loop"@
    ||| s == "break"@
    ||| s == "add1"@
    ||| s == "sub1"@
    ||| s == "isnum"@
    ||| s == "isbool"@
}

/// A name is refused as the name of a binding exactly when it is one of the
/// language's thirteen words (`true`, `false`, `input`, `let`, `set!`, `if`,
/// `block`, `loop`, `break`, `add1`, `sub1`, `isnum`, `isbool`); any other
/// name is kept as it is.
pub proof fn lemma_reserved_words(s: Seq<char>)
    ensures
        spec_parse_identifier(s) == if s == "true"@ || s == "false"@ || s == "input"@ || s
            == "let"@ || s == "set!"@ || s == "if"@ || s == "block"@ || s == "loop"@ || s
            == "break"@ || s == "add1"@ || s == "sub1"@ || s == "isnum"@ || s == "isbool"@ {
            Err::<Seq<char>, ParseError>(ParseError::KeywordAsIdentifier)
        } else {
            Ok(s)
        },
{
}

/// A name checked against the keywords.
pub open spec fn spec_parse_identifier(s: Seq<char>) -> Result<Seq<char>, ParseError> {
    if is_keyword(s) {
        Err(ParseError::KeywordAsIdentifier)
    } else {
        Ok(s)
    }
}

/// An atom read as an expression. An integer `n` stands for the tagged
/// value `2 * n`.
pub open spec fn spec_parse_zero_op(sx: SExprV) -> Result<ExprV, ParseError> {
    match sx {
        SExprV::Atom(SAtomV::I(n)) => if MIN_LITERAL <= n <= MAX_LITERAL {
            Ok(ExprV::EZeroOp(ZeroOpV::Number((2 * n) as i64)))
        } else {
            Err(ParseError::NumberOverflow)
        },
        SExprV::Atom(SAtomV::S(s)) => if s == "true"@ {
            Ok(ExprV::EZeroOp(ZeroOpV::OpTrue))
        } else if s == "false"@ {
            Ok(ExprV::EZeroOp(ZeroOpV::OpFalse))
        } else if s == "input"@ {
            Ok(ExprV::EZeroOp(ZeroOpV::Input))
        } else {
            Ok(ExprV::EZeroOp(ZeroOpV::Identifier(s)))
        },
        _ => Err(ParseError::NotAnAtom),
    }
}

/// The operator of one operand that a word names.
pub open spec fn spec_unitary_op(s: Seq<char>) -> Option<UnitaryOp> {
    if s == "add1"@ {
        Some(UnitaryOp::Add1)
    } else if s == "sub1"@ {
        Some(UnitaryOp::Sub1)
    } else if s == "isnum"@ {
        Some(UnitaryOp::IsNum)
    } else if s == "isbool"@ {
        Some(UnitaryOp::IsBool)
    } else if s == "loop"@ {
        Some(UnitaryOp::Loop)
    } else if s == "break"@ {
        Some(UnitaryOp::Break)
    } else {
        None
    }
}

/// The operator of two operands that a word names.
pub open spec fn spec_binary_op(s: Seq<char>) -> Option<BinaryOp> {
    if s == "+"@ {
        Some(BinaryOp::Plus)
    } else if s == "-"@ {
        Some(BinaryOp::Minus)
    } else if s == "*"@ {
        Some(BinaryOp::Times)
    } else if s == ">"@ {
        Some(BinaryOp::Greater)
    } else if s == ">="@ {
        Some(BinaryOp::GreaterEqual)
    } else if s == "<"@ {
        Some(BinaryOp::Less)
    } else if s == "<="@ {
        Some(BinaryOp::LessEqual)
    } else if s == "="@ {
        Some(BinaryOp::Equal)
    } else {
        None
    }
}

/// The word at the head of a list, if the list starts with a symbol.
pub open spec fn head_word(v: Seq<SExprV>) -> Option<Seq<char>> {
    if v.len() > 0 {
        match v[0] {
            SExprV::Atom(SAtomV::S(s)) => Some(s),
            _ => None,
        }
    } else {
        None
    }
}

/// An s-expression read as an expression of the language; the first error
/// met, reading left to right, where it is none.
pub open spec fn spec_parse_expr(sx: SExprV) -> Result<ExprV, ParseError>
    decreases sx, 0int,
{
    match sx {
        SExprV::Atom(_) => spec_parse_zero_op(sx),
        SExprV::List(v) => {
            let word = head_word(v);
            if word is Some && v.len() == 2 && spec_unitary_op(word->0) is Some {
                match spec_parse_expr(v[1]) {
                    Ok(x) => Ok(ExprV::EUnitaryOp(spec_unitary_op(word->0)->0, Box::new(x))),
                    Err(e) => Err(e),
                }
            } else if word is Some && v.len() == 3 && spec_binary_op(word->0) is Some {
                match spec_parse_expr(v[1]) {
                    Ok(x) => match spec_parse_expr(v[2]) {
                        Ok(y) => Ok(
                            ExprV::EBinaryOp(spec_binary_op(word->0)->0, Box::new(x), Box::new(y)),
                        ),
                        Err(e) => Err(e),
                    },
                    Err(e) => Err(e),
                }
            } else if word == Some("let"@) && v.len() == 3 && v[1] is List {
                if v[1]->List_0.len() == 0 {
                    Err(ParseError::EmptyLet)
                } else {
                    match spec_parse_binds(v[1]->List_0, 0) {
                        Ok(bs) => match spec_parse_expr(v[2]) {
                            Ok(body) => Ok(ExprV::Let(bs, Box::new(body))),
                            Err(e) => Err(e),
                        },
                        Err(e) => Err(e),
                    }
                }
            } else if word == Some("set!"@) && v.len() == 3 && v[1] matches SExprV::Atom(
                SAtomV::S(_),
            ) {
                match spec_parse_identifier(v[1]->Atom_0->S_0) {
                    Ok(name) => match spec_parse_expr(v[2]) {
                        Ok(x) => Ok(ExprV::SetBinding(name, Box::new(x))),
                        Err(e) => Err(e),
                    },
                    Err(e) => Err(e),
                }
            } else if word == Some("if"@) && v.len() == 4 {
                match spec_parse_expr(v[1]) {
                    Ok(c) => match spec_parse_expr(v[2]) {
                        Ok(t) => match spec_parse_expr(v[3]) {
                            Ok(f) => Ok(ExprV::If(Box::new(c), Box::new(t), Box::new(f))),
                            Err(e) => Err(e),
                        },
                        Err(e) => Err(e),
                    },
                    Err(e) => Err(e),
                }
            } else if word == Some("block"@) {
                if v.len() == 1 {
                    Err(ParseError::EmptyBlock)
                } else {
                    match spec_parse_block(v, 1) {
                        Ok(es) => Ok(ExprV::Block(es)),
                        Err(e) => Err(e),
                    }
                }
            } else {
                Err(ParseError::Malformed)
            }
        },
    }
}

/// The bindings `bs[i..]` of a `let`, each a list of a name and an expression.
pub open spec fn spec_parse_binds(bs: Seq<SExprV>, i: int) -> Result<
    Seq<(Seq<char>, ExprV)>,
    ParseError,
>
    decreases bs, bs.len() - i,
{
    if i < 0 || i >= bs.len() {
        Ok(Seq::empty())
    } else if bs[i] is List && bs[i]->List_0.len() == 2 && bs[i]->List_0[0] matches SExprV::Atom(
        SAtomV::S(_),
    ) {
        match spec_parse_identifier(bs[i]->List_0[0]->Atom_0->S_0) {
            Ok(id) => match spec_parse_expr(bs[i]->List_0[1]) {
                Ok(x) => match spec_parse_binds(bs, i + 1) {
                    Ok(rest) => Ok(seq![(id, x)] + rest),
                    Err(e) => Err(e),
                },
                Err(e) => Err(e),
            },
            Err(e) => Err(e),
        }
    } else {
        Err(ParseError::BadBinding)
    }
}

/// The expressions `es[i..]` of a `block`.
pub open spec fn spec_parse_block(es: Seq<SExprV>, i: int) -> Result<Seq<ExprV>, ParseError>
    decreases es, es.len() - i,
{
    if i < 0 || i >= es.len() {
        Ok(Seq::empty())
    } else {
        match spec_parse_expr(es[i]) {
            Ok(x) => match spec_parse_block(es, i + 1) {
                Ok(rest) => Ok(seq![x] + rest),
                Err(e) => Err(e),
            },
            Err(e) => Err(e),
        }
    }
}

/// No name that an expression binds (in a `let`, a `set!` or a parameter
/// list) is a keyword.
pub open spec fn binders_ok(e: ExprV) -> bool
    decreases e, 0int,
{
    match e {
        ExprV::EZeroOp(_) => true,
        ExprV::EUnitaryOp(_, x) => binders_ok(*x),
        ExprV::EBinaryOp(_, x, y) => binders_ok(*x) && binders_ok(*y),
        ExprV::Let(bs, body) => binds_ok(bs, 0) && binders_ok(*body),
        ExprV::SetBinding(name, x) => !is_keyword(name) && binders_ok(*x),
        ExprV::If(c, t, f) => binders_ok(*c) && binders_ok(*t) && binders_ok(*f),
        ExprV::Block(es) => all_binders_ok(es, 0),
        ExprV::FuncDef(_, params, body) => (forall|i: int|
            0 <= i < params.len() ==> !is_keyword(#[trigger] params[i])) && binders_ok(*body),
        ExprV::FuncCall(_, args) => all_binders_ok(args, 0),
        ExprV::Program(defs, body) => all_binders_ok(defs, 0) && binders_ok(*body),
    }
}

/// No name that the bindings `bs[i..]` bind, or that their expressions
/// bind, is a keyword.
pub open spec fn binds_ok(bs: Seq<(Seq<char>, ExprV)>, i: int) -> bool
    decreases bs, bs.len() - i,
{
    if i < 0 || i >= bs.len() {
        true
    } else {
        !is_keyword(bs[i].0) && binders_ok(bs[i].1) && binds_ok(bs, i + 1)
    }
}

/// No name that the expressions `es[i..]` bind is a keyword.
pub open spec fn all_binders_ok(es: Seq<ExprV>, i: int) -> bool
    decreases es, es.len() - i,
{
    if i < 0 || i >= es.len() {
        true
    } else {
        binders_ok(es[i]) && all_binders_ok(es, i + 1)
    }
}

/// An expression that parses binds no keyword: `let` and `set!` refuse one.
pub proof fn lemma_parsed_binders_not_keywords(sx: SExprV)
    ensures
        spec_parse_expr(sx) matches Ok(e) ==> binders_ok(e),
    decreases sx, 0int,
{
    match sx {
        SExprV::Atom(_) => {},
        SExprV::List(v) => {
            let word = head_word(v);
            if word is Some && v.len() == 2 && spec_unitary_op(word->0) is Some {
                lemma_parsed_binders_not_keywords(v[1]);
            } else if word is Some && v.len() == 3 && spec_binary_op(word->0) is Some {
                lemma_parsed_binders_not_keywords(v[1]);
                lemma_parsed_binders_not_keywords(v[2]);
            } else if word == Some("let"@) && v.len() == 3 && v[1] is List {
                lemma_parsed_binds_not_keywords(v[1]->List_0, 0);
                lemma_parsed_binders_not_keywords(v[2]);
            } else if word == Some("set!"@) && v.len() == 3 && v[1] matches SExprV::Atom(
                SAtomV::S(_),
            ) {
                lemma_parsed_binders_not_keywords(v[2]);
            } else if word == Some("if"@) && v.len() == 4 {
                lemma_parsed_binders_not_keywords(v[1]);
                lemma_parsed_binders_not_keywords(v[2]);
                lemma_parsed_binders_not_keywords(v[3]);
            } else if word == Some("block"@) && v.len() > 1 {
                lemma_parsed_block_not_keywords(v, 1);
            }
        },
    }
}

/// The bindings `bs[i..]` of a `let` that parse bind no keyword.
pub proof fn lemma_parsed_binds_not_keywords(bs: Seq<SExprV>, i: int)
    ensures
        spec_parse_binds(bs, i) matches Ok(r) ==> binds_ok(r, 0),
    decreases bs, bs.len() - i,
{
    if 0 <= i < bs.len() && bs[i] is List && bs[i]->List_0.len() == 2 && bs[i]->List_0[0] matches SExprV::Atom(
        SAtomV::S(_),
    ) {
        lemma_parsed_binders_not_keywords(bs[i]->List_0[1]);
        lemma_parsed_binds_not_keywords(bs, i + 1);
        if let Ok(r) = spec_parse_binds(bs, i) {
            let rest = spec_parse_binds(bs, i + 1)->Ok_0;
            assert(r == seq![r[0]] + rest);
            lemma_binds_ok_shift(r, rest);
        }
    }
}

/// `binds_ok` of a sequence with one binding in front.
proof fn lemma_binds_ok_shift(r: Seq<(Seq<char>, ExprV)>, rest: Seq<(Seq<char>, ExprV)>)
    requires
        r.len() == rest.len() + 1,
        forall|j: int| 0 <= j < rest.len() ==> r[j + 1] == rest[j],
        binds_ok(rest, 0),
        !is_keyword(r[0].0),
        binders_ok(r[0].1),
    ensures
        binds_ok(r, 0),
{
    assert forall|k: int| 0 <= k <= rest.len() implies binds_ok(r, k + 1) == binds_ok(rest, k) by {
        lemma_binds_ok_offset(r, rest, k);
    }
}

proof fn lemma_binds_ok_offset(r: Seq<(Seq<char>, ExprV)>, rest: Seq<(Seq<char>, ExprV)>, k: int)
    requires
        r.len() == rest.len() + 1,
        forall|j: int| 0 <= j < rest.len() ==> r[j + 1] == rest[j],
        0 <= k <= rest.len(),
    ensures
        binds_ok(r, k + 1) == binds_ok(rest, k),
    decreases rest.len() - k,
{
    if k < rest.len() {
        lemma_binds_ok_offset(r, rest, k + 1);
    }
}

/// The expressions `es[i..]` of a block that parse bind no keyword.
pub proof fn lemma_parsed_block_not_keywords(es: Seq<SExprV>, i: int)
    ensures
        spec_parse_block(es, i) matches Ok(r) ==> all_binders_ok(r, 0),
    decreases es, es.len() - i,
{
    if 0 <= i < es.len() {
        lemma_parsed_binders_not_keywords(es[i]);
        lemma_parsed_block_not_keywords(es, i + 1);
        if let Ok(r) = spec_parse_block(es, i) {
            let rest = spec_parse_block(es, i + 1)->Ok_0;
            lemma_all_ok_shift(r, rest);
        }
    }
}

/// `all_binders_ok` of a sequence with one expression in front.
proof fn lemma_all_ok_shift(r: Seq<ExprV>, rest: Seq<ExprV>)
    requires
        r.len() == rest.len() + 1,
        forall|j: int| 0 <= j < rest.len() ==> r[j + 1] == rest[j],
        all_binders_ok(rest, 0),
        binders_ok(r[0]),
    ensures
        all_binders_ok(r, 0),
{
    lemma_all_ok_offset(r, rest, 0);
}

proof fn lemma_all_ok_offset(r: Seq<ExprV>, rest: Seq<ExprV>, k: int)
    requires
        r.len() == rest.len() + 1,
        forall|j: int| 0 <= j < rest.len() ==> r[j + 1] == rest[j],
        0 <= k <= rest.len(),
    ensures
        all_binders_ok(r, k + 1) == all_binders_ok(rest, k),
    decreases rest.len() - k,
{
    if k < rest.len() {
        lemma_all_ok_offset(r, rest, k + 1);
    }
}

/// A `let` whose first binding names one of the language's thirteen words
/// is refused for it, whatever the rest of the `let`.
pub proof fn lemma_let_refuses_reserved(
    w: Seq<char>,
    x: SExprV,
    more: Seq<SExprV>,
    body: SExprV,
)
    requires
        w == "true"@ || w == "false"@ || w == "input"@ || w == "let"@ || w == "set!"@ || w
            == "if"@ || w == "block"@ || w == "loop"@ || w == "break"@ || w == "add1"@ || w
            == "sub1"@ || w == "isnum"@ || w == "isbool"@,
    ensures
        spec_parse_expr(
            SExprV::List(
                seq![
                    SExprV::Atom(SAtomV::S("let"@)),
                    SExprV::List(seq![SExprV::List(seq![SExprV::Atom(SAtomV::S(w)), x])] + more),
                    body,
                ],
            ),
        ) == Err::<ExprV, ParseError>(ParseError::KeywordAsIdentifier),
{
    lemma_reserved_words(w);
    lemma_operator_words();
    let bs = seq![SExprV::List(seq![SExprV::Atom(SAtomV::S(w)), x])] + more;
    let v = seq![SExprV::Atom(SAtomV::S("let"@)), SExprV::List(bs), body];
    assert(bs[0] == SExprV::List(seq![SExprV::Atom(SAtomV::S(w)), x]));
    assert(bs.len() > 0);
    assert(spec_parse_binds(bs, 0) == Err::<Seq<(Seq<char>, ExprV)>, ParseError>(
        ParseError::KeywordAsIdentifier,
    ));
    assert(head_word(v) == Some("let"@));
    assert(v[1] == SExprV::List(bs));
    assert(v[1]->List_0 == bs);
}

/// A `set!` of one of the language's thirteen words is refused for it.
pub proof fn lemma_set_refuses_reserved(w: Seq<char>, x: SExprV)
    requires
        w == "true"@ || w == "false"@ || w == "input"@ || w == "let"@ || w == "set!"@ || w
            == "if"@ || w == "block"@ || w == "loop"@ || w == "break"@ || w == "add1"@ || w
            == "sub1"@ || w == "isnum"@ || w == "isbool"@,
    ensures
        spec_parse_expr(
            SExprV::List(seq![SExprV::Atom(SAtomV::S("set!"@)), SExprV::Atom(SAtomV::S(w)), x]),
        ) == Err::<ExprV, ParseError>(ParseError::KeywordAsIdentifier),
{
    lemma_reserved_words(w);
    lemma_operator_words();
}

/// `let` and `set!` name no operator.
proof fn lemma_operator_words()
    ensures
        spec_unitary_op("let"@) is None,
        spec_binary_op("let"@) is None,
        spec_unitary_op("set!"@) is None,
        spec_binary_op("set!"@) is None,
        "let"@ != "set!"@,
{
    reveal_strlit("let");
    reveal_strlit("set!");
    reveal_strlit("add1");
    reveal_strlit("sub1");
    reveal_strlit("isnum");
    reveal_strlit("isbool");
    reveal_strlit("loop");
    reveal_strlit("break");
    reveal_strlit("+");
    reveal_strlit("-");
    reveal_strlit("*");
    reveal_strlit(">");
    reveal_strlit(">=");
    reveal_strlit("<");
    reveal_strlit("<=");
    reveal_strlit("=");
    assert("let"@[0] != "loop"@[1]);
    assert("set!"@[0] != "sub1"@[1]);
}

/// An expression that parses has no `Program` node: the language has no
/// syntax for one, so every parsed program gets the guarantees that
/// `compile_expr` gives such expressions.
pub proof fn lemma_parsed_no_program(sx: SExprV)
    ensures
        spec_parse_expr(sx) matches Ok(e) ==> programs(e) == 0,
    decreases sx, 0int,
{
    match sx {
        SExprV::Atom(_) => {},
        SExprV::List(v) => {
            let word = head_word(v);
            if word is Some && v.len() == 2 && spec_unitary_op(word->0) is Some {
                lemma_parsed_no_program(v[1]);
            } else if word is Some && v.len() == 3 && spec_binary_op(word->0) is Some {
                lemma_parsed_no_program(v[1]);
                lemma_parsed_no_program(v[2]);
            } else if word == Some("let"@) && v.len() == 3 && v[1] is List {
                lemma_parsed_binds_no_program(v[1]->List_0, 0);
                lemma_parsed_no_program(v[2]);
            } else if word == Some("set!"@) && v.len() == 3 && v[1] matches SExprV::Atom(
                SAtomV::S(_),
            ) {
                lemma_parsed_no_program(v[2]);
            } else if word == Some("if"@) && v.len() == 4 {
                lemma_parsed_no_program(v[1]);
                lemma_parsed_no_program(v[2]);
                lemma_parsed_no_program(v[3]);
            } else if word == Some("block"@) && v.len() > 1 {
                lemma_parsed_block_no_program(v, 1);
            }
        },
    }
}

/// The bindings `bs[i..]` of a `let` that parse have no `Program` node.
pub proof fn lemma_parsed_binds_no_program(bs: Seq<SExprV>, i: int)
    ensures
        spec_parse_binds(bs, i) matches Ok(r) ==> binds_programs(r, 0) == 0,
    decreases bs, bs.len() - i,
{
    if 0 <= i < bs.len() && bs[i] is List && bs[i]->List_0.len() == 2 && bs[i]->List_0[0] matches SExprV::Atom(
        SAtomV::S(_),
    ) {
        lemma_parsed_no_program(bs[i]->List_0[1]);
        lemma_parsed_binds_no_program(bs, i + 1);
        if let Ok(r) = spec_parse_binds(bs, i) {
            let rest = spec_parse_binds(bs, i + 1)->Ok_0;
            assert(r == seq![r[0]] + rest);
            lemma_binds_programs_offset(r, rest, 0);
        }
    }
}

proof fn lemma_binds_programs_offset(
    r: Seq<(Seq<char>, ExprV)>,
    rest: Seq<(Seq<char>, ExprV)>,
    k: int,
)
    requires
        r.len() == rest.len() + 1,
        forall|j: int| 0 <= j < rest.len() ==> r[j + 1] == rest[j],
        0 <= k <= rest.len(),
    ensures
        binds_programs(r, k + 1) == binds_programs(rest, k),
    decreases rest.len() - k,
{
    if k < rest.len() {
        lemma_binds_programs_offset(r, rest, k + 1);
    }
}

/// The expressions `es[i..]` of a block that parse have no `Program` node.
pub proof fn lemma_parsed_block_no_program(es: Seq<SExprV>, i: int)
    ensures
        spec_parse_block(es, i) matches Ok(r) ==> exprs_programs(r, 0) == 0,
    decreases es, es.len() - i,
{
    if 0 <= i < es.len() {
        lemma_parsed_no_program(es[i]);
        lemma_parsed_block_no_program(es, i + 1);
        if let Ok(r) = spec_parse_block(es, i) {
            let rest = spec_parse_block(es, i + 1)->Ok_0;
            lemma_exprs_programs_offset(r, rest, 0);
        }
    }
}

proof fn lemma_exprs_programs_offset(r: Seq<ExprV>, rest: Seq<ExprV>, k: int)
    requires
        r.len() == rest.len() + 1,
        forall|j: int| 0 <= j < rest.len() ==> r[j + 1] == rest[j],
        0 <= k <= rest.len(),
    ensures
        exprs_programs(r, k + 1) == exprs_programs(rest, k),
    decreases rest.len() - k,
{
    if k < rest.len() {
        lemma_exprs_programs_offset(r, rest, k + 1);
    }
}

/// The model of a parse outcome.
pub open spec fn expr_outcome(r: Result<Expr, ParseError>) -> Result<ExprV, ParseError> {
    match r {
        Ok(e) => Ok(e@),
        Err(x) => Err(x),
    }
}

/// Whether `s` is one of the keywords.
fn is_keyword_text(s: &str) -> (r: bool)
    ensures
        r == is_keyword(s@),
{
    text_is(s, "true") || text_is(s, "false") || text_is(s, "input") || text_is(s, "let")
        || text_is(s, "set!") || text_is(s, "if") || text_is(s, "block") || text_is(s, "loop")
        || text_is(s, "break") || text_is(s, "add1") || text_is(s, "sub1") || text_is(s, "isnum")
        || text_is(s, "isbool")
}

/// Checks that a name is no keyword, and copies it; the error where it is one.
fn read_identifier(s: &str) -> (r: Result<String, ParseError>)
    ensures
        match r {
            Ok(t) => spec_parse_identifier(s@) == Ok::<Seq<char>, ParseError>(t@),
            Err(e) => spec_parse_identifier(s@) == Err::<Seq<char>, ParseError>(e),
        },
{
    if is_keyword_text(s) {
        Err(ParseError::KeywordAsIdentifier)
    } else {
        Ok(s.to_owned())
    }
}

/// Reads an atom as an expression, or says why it is none.
fn read_zero_op(sexp: &SExpr) -> (r: Result<Expr, ParseError>)
    ensures
        expr_outcome(r) == spec_parse_zero_op(sexp@),
{
    match sexp {
        SExpr::Atom(SAtom::I(n)) => {
            if *n <= MAX_LITERAL && *n >= MIN_LITERAL {
                Ok(Expr::EZeroOp(ZeroOp::Number(2 * *n)))
            } else {
                Err(ParseError::NumberOverflow)
            }
        },
        SExpr::Atom(SAtom::S(op)) => {
            if text_is(op.as_str(), "true") {
                Ok(Expr::EZeroOp(ZeroOp::OpTrue))
            } else if text_is(op.as_str(), "false") {
                Ok(Expr::EZeroOp(ZeroOp::OpFalse))
            } else if text_is(op.as_str(), "input") {
                Ok(Expr::EZeroOp(ZeroOp::Input))
            } else {
                Ok(Expr::EZeroOp(ZeroOp::Identifier(op.clone())))
            }
        },
        _ => Err(ParseError::NotAnAtom),
    }
}

/// The operator of one operand that `op` names.
fn unitary_op(op: &str) -> (r: Option<UnitaryOp>)
    ensures
        r == spec_unitary_op(op@),
{
    if text_is(op, "add1") {
        Some(UnitaryOp::Add1)
    } else if text_is(op, "sub1") {
        Some(UnitaryOp::Sub1)
    } else if text_is(op, "isnum") {
        Some(UnitaryOp::IsNum)
    } else if text_is(op, "isbool") {
        Some(UnitaryOp::IsBool)
    } else if text_is(op, "loop") {
        Some(UnitaryOp::Loop)
    } else if text_is(op, "break") {
        Some(UnitaryOp::Break)
    } else {
        None
    }
}

/// The operator of two operands that `op` names.
fn binary_op(op: &str) -> (r: Option<BinaryOp>)
    ensures
        r == spec_binary_op(op@),
{
    if text_is(op, "+") {
        Some(BinaryOp::Plus)
    } else if text_is(op, "-") {
        Some(BinaryOp::Minus)
    } else if text_is(op, "*") {
        Some(BinaryOp::Times)
    } else if text_is(op, ">") {
        Some(BinaryOp::Greater)
    } else if text_is(op, ">=") {
        Some(BinaryOp::GreaterEqual)
    } else if text_is(op, "<") {
        Some(BinaryOp::Less)
    } else if text_is(op, "<=") {
        Some(BinaryOp::LessEqual)
    } else if text_is(op, "=") {
        Some(BinaryOp::Equal)
    } else {
        None
    }
}

/// The model of a bindings outcome.
pub open spec fn binds_outcome(r: Result<Vec<Binding>, ParseError>) -> Result<
    Seq<(Seq<char>, ExprV)>,
    ParseError,
> {
    match r {
        Ok(bs) => Ok(binds_model(bs@)),
        Err(x) => Err(x),
    }
}

/// Reads the bindings of a `let`, or says why they are none.
fn read_bind(vec: &Vec<SExpr>) -> (r: Result<Vec<Binding>, ParseError>)
    ensures
        binds_outcome(r) == spec_parse_binds(sexprs_model(vec@), 0),
    decreases vec,
{
    let ghost model = sexprs_model(vec@);
    let mut array: Vec<Binding> = Vec::new();
    let mut i: usize = 0;
    proof {
        assert(binds_model(array@) + Seq::<(Seq<char>, ExprV)>::empty() =~= Seq::empty());
    }
    while i < vec.len()
        invariant
            i <= vec.len(),
            model == sexprs_model(vec@),
            match spec_parse_binds(model, i as int) {
                Ok(rest) => spec_parse_binds(model, 0) == Ok::<
                    Seq<(Seq<char>, ExprV)>,
                    ParseError,
                >(binds_model(array@) + rest),
                Err(e) => spec_parse_binds(model, 0) == Err::<
                    Seq<(Seq<char>, ExprV)>,
                    ParseError,
                >(e),
            },
        decreases vec.len() - i,
    {
        let binding = &vec[i];
        assert(model[i as int] == binding@);
        if let SExpr::List(inner) = binding {
            if inner.len() == 2 {
                if let SExpr::Atom(SAtom::S(s)) = &inner[0] {
                    assert(binding@->List_0[0] == inner[0]@);
                    assert(binding@->List_0[1] == inner[1]@);
                    let name = match read_identifier(s.as_str()) {
                        Ok(name) => name,
                        Err(e) => {
                            return Err(e);
                        },
                    };
                    proof {
                        assert(decreases_to!(vec => vec@));
                        assert(decreases_to!(vec@ => vec@[i as int]));
                        assert(decreases_to!(vec@[i as int] => vec@[i as int]->List_0));
                        assert(decreases_to!(inner => inner@));
                        assert(decreases_to!(inner@ => inner@[1]));
                    }
                    let x = match read_expr(&inner[1]) {
                        Ok(x) => x,
                        Err(e) => {
                            return Err(e);
                        },
                    };
                    let ghost before = binds_model(array@);
                    array.push(Binding(name, Box::new(x)));
                    proof {
                        assert(binds_model(array@) =~= before + seq![(s@, x@)]);
                        match spec_parse_binds(model, i + 1) {
                            Ok(rest) => {
                                assert(before + (seq![(s@, x@)] + rest) =~= binds_model(array@)
                                    + rest);
                            },
                            Err(_) => {},
                        }
                    }
                    i = i + 1;
                    continue ;
                }
            }
        }
        return Err(ParseError::BadBinding);
    }
    proof {
        assert(binds_model(array@) + Seq::<(Seq<char>, ExprV)>::empty() =~= binds_model(array@));
    }
    Ok(array)
}

/// The model of a block outcome.
pub open spec fn exprs_outcome(r: Result<Vec<Expr>, ParseError>) -> Result<Seq<ExprV>, ParseError> {
    match r {
        Ok(es) => Ok(exprs_model(es@)),
        Err(x) => Err(x),
    }
}

/// Reads the subexpressions `vec[1..]` of a `block`.
fn read_block(vec: &Vec<SExpr>) -> (r: Result<Vec<Expr>, ParseError>)
    requires
        vec.len() >= 1,
    ensures
        exprs_outcome(r) == spec_parse_block(sexprs_model(vec@), 1),
    decreases vec,
{
    let ghost model = sexprs_model(vec@);
    let mut out: Vec<Expr> = Vec::new();
    let mut i: usize = 1;
    proof {
        assert(exprs_model(out@) + Seq::<ExprV>::empty() =~= Seq::empty());
    }
    while i < vec.len()
        invariant
            1 <= i <= vec.len(),
            model == sexprs_model(vec@),
            match spec_parse_block(model, i as int) {
                Ok(rest) => spec_parse_block(model, 1) == Ok::<Seq<ExprV>, ParseError>(
                    exprs_model(out@) + rest,
                ),
                Err(e) => spec_parse_block(model, 1) == Err::<Seq<ExprV>, ParseError>(e),
            },
        decreases vec.len() - i,
    {
        assert(model[i as int] == vec[i as int]@);
        proof {
            assert(decreases_to!(vec => vec@));
            assert(decreases_to!(vec@ => vec@[i as int]));
        }
        let x = match read_expr(&vec[i]) {
            Ok(x) => x,
            Err(e) => {
                return Err(e);
            },
        };
        let ghost before = exprs_model(out@);
        out.push(x);
        proof {
            assert(exprs_model(out@) =~= before + seq![x@]);
            match spec_parse_block(model, i + 1) {
                Ok(rest) => {
                    assert(before + (seq![x@] + rest) =~= exprs_model(out@) + rest);
                },
                Err(_) => {},
            }
        }
        i = i + 1;
    }
    proof {
        assert(exprs_model(out@) + Seq::<ExprV>::empty() =~= exprs_model(out@));
    }
    Ok(out)
}

/// Reads an s-expression as an expression of the language, or says why it
/// is none: the first error met, in the order the reader works.
fn read_expr(sexp: &SExpr) -> (r: Result<Expr, ParseError>)
    ensures
        expr_outcome(r) == spec_parse_expr(sexp@),
    decreases sexp,
{
    match sexp {
        SExpr::Atom(_) => read_zero_op(sexp),
        SExpr::List(vec) => {
            let ghost v = sexp@->List_0;
            assert(v =~= sexprs_model(vec@));
            proof {
                assert(decreases_to!(sexp => sexp->List_0));
                assert(decreases_to!(vec => vec@));
            }
            if vec.len() >= 1 {
                if let SExpr::Atom(SAtom::S(op)) = &vec[0] {
                    assert(head_word(v) == Some(op@));
                    let n = vec.len();
                    if n == 2 {
                        if let Some(uop) = unitary_op(op.as_str()) {
                            assert(decreases_to!(vec@ => vec@[1]));
                            let x = read_expr(&vec[1])?;
                            return Ok(Expr::EUnitaryOp(uop, Box::new(x)));
                        }
                    }
                    if n == 3 {
                        if let Some(bop) = binary_op(op.as_str()) {
                            assert(decreases_to!(vec@ => vec@[1]));
                            assert(decreases_to!(vec@ => vec@[2]));
                            let x = read_expr(&vec[1])?;
                            let y = read_expr(&vec[2])?;
                            return Ok(Expr::EBinaryOp(bop, Box::new(x), Box::new(y)));
                        }
                    }
                    if n == 3 && text_is(op.as_str(), "let") {
                        if let SExpr::List(vec_let) = &vec[1] {
                            assert(v[1] == vec[1]@);
                            assert(v[1]->List_0 =~= sexprs_model(vec_let@));
                            if vec_let.len() == 0 {
                                return Err(ParseError::EmptyLet);
                            }
                            proof {
                                assert(decreases_to!(vec@ => vec@[1]));
                                assert(decreases_to!(vec@[1] => vec@[1]->List_0));
                                assert(decreases_to!(vec@ => vec@[2]));
                            }
                            let bs = read_bind(vec_let)?;
                            let body = read_expr(&vec[2])?;
                            let e = Expr::Let(bs, Box::new(body));
                            assert(e@->Let_0 =~= binds_model(bs@));
                            return Ok(e);
                        }
                    }
                    if n == 3 && text_is(op.as_str(), "set!") {
                        if let SExpr::Atom(SAtom::S(var)) = &vec[1] {
                            assert(v[1] == vec[1]@);
                            let name = read_identifier(var.as_str())?;
                            assert(decreases_to!(vec@ => vec@[2]));
                            let x = read_expr(&vec[2])?;
                            return Ok(Expr::SetBinding(Binding(name, Box::new(x))));
                        }
                    }
                    if n == 4 && text_is(op.as_str(), "if") {
                        assert(decreases_to!(vec@ => vec@[1]));
                        assert(decreases_to!(vec@ => vec@[2]));
                        assert(decreases_to!(vec@ => vec@[3]));
                        let c = read_expr(&vec[1])?;
                        let t = read_expr(&vec[2])?;
                        let f = read_expr(&vec[3])?;
                        return Ok(Expr::If(Box::new(c), Box::new(t), Box::new(f)));
                    }
                    if text_is(op.as_str(), "block") {
                        if n == 1 {
                            return Err(ParseError::EmptyBlock);
                        }
                        let es = read_block(vec)?;
                        let e = Expr::Block(es);
                        assert(e@->Block_0 =~= exprs_model(es@));
                        return Ok(e);
                    }
                }
            }
            Err(ParseError::Malformed)
        },
    }
}

/// Checks that a name is no keyword, and copies it. The name must be no
/// keyword.
pub fn parse_identifier(s: &str) -> (r: String)
    requires
        spec_parse_identifier(s@) is Ok,
    ensures
        spec_parse_identifier(s@) == Ok::<Seq<char>, ParseError>(r@),
{
    match read_identifier(s) {
        Ok(t) => t,
        Err(_) => s.to_owned(),
    }
}

/// Reads an atom as an expression without operands. The atom must be one:
/// a number in the literal range, or a symbol.
pub fn parse_zero_op(sexp: &SExpr) -> (r: Expr)
    requires
        spec_parse_zero_op(sexp@) is Ok,
    ensures
        spec_parse_zero_op(sexp@) == Ok::<ExprV, ParseError>(r@),
{
    match read_zero_op(sexp) {
        Ok(e) => e,
        Err(_) => Expr::EZeroOp(ZeroOp::OpFalse),
    }
}

/// Reads the bindings of a `let`. Each must be a list of a name that is no
/// keyword and an expression.
pub fn parse_bind(vec: &Vec<SExpr>) -> (r: Vec<Binding>)
    requires
        spec_parse_binds(sexprs_model(vec@), 0) is Ok,
    ensures
        spec_parse_binds(sexprs_model(vec@), 0) == Ok::<Seq<(Seq<char>, ExprV)>, ParseError>(
            binds_model(r@),
        ),
{
    match read_bind(vec) {
        Ok(bs) => bs,
        Err(_) => Vec::new(),
    }
}

/// Reads an s-expression as an expression of the language. The
/// s-expression must be one: `parse_text` reports why where it is not.
pub fn parse_expr(sexp: &SExpr) -> (r: Expr)
    requires
        spec_parse_expr(sexp@) is Ok,
    ensures
        spec_parse_expr(sexp@) == Ok::<ExprV, ParseError>(r@),
{
    match read_expr(sexp) {
        Ok(e) => e,
        Err(_) => Expr::EZeroOp(ZeroOp::OpFalse),
    }
}

/// Reads a program text: one s-expression, read as an expression (which
/// has no `Program` node).
pub fn parse_text(text: &str) -> (r: Result<Expr, TextError>)
    ensures
        match sexp_reading(text@) {
            None => r matches Err(TextError::NotSexp),
            Some(s) => match spec_parse_expr(s) {
                Ok(e) => r matches Ok(x) && x@ == e && programs(e) == 0,
                Err(x) => r matches Err(TextError::Parse(y)) && y == x,
            },
        },
{
    proof {
        if let Some(s) = sexp_reading(text@) {
            lemma_parsed_no_program(s);
        }
    }
    match read_sexp(text) {
        Ok(s) => match read_expr(&s) {
            Ok(e) => Ok(e),
            Err(x) => Err(TextError::Parse(x)),
        },
        Err(_) => Err(TextError::NotSexp),
    }
}

/// Why a program text is not a program.
#[derive(Debug, Clone, Copy, PartialEq, Eq)]
pub enum TextError {
    /// The text is not one s-expression.
    NotSexp,
    /// The s-expression is not an expression of the language.
    Parse(ParseError),
}

} // verus!
