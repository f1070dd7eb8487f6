use vstd::prelude::*;

verus! {

/// A machine register of the x86-64 target.
#[derive(Debug, Clone, Copy, Hash, PartialEq, Eq, Structural)]
pub enum Register {
    RAX,
    RBX,
    RCX,
    RDX,
    RSP,
    RDI,
    RSI,
    RBP,
    R8,
    R9,
}

/// An instruction operand.
#[derive(Debug, Hash, Eq, PartialEq)]
pub enum Val {
    Reg(Register),
    Imm(i64),
    RegOffset(Register, i64),
    ValTrue,
    ValFalse,
    Label(String),
}

/// The mathematical model of an operand: labels are character sequences.
pub enum ValV {
    Reg(Register),
    Imm(i64),
    RegOffset(Register, i64),
    ValTrue,
    ValFalse,
    Label(Seq<char>),
}

impl View for Val {
    type V = ValV;

    open spec fn view(&self) -> ValV {
        match self {
            Val::Reg(r) => ValV::Reg(*r),
            Val::Imm(n) => ValV::Imm(*n),
            Val::RegOffset(r, n) => ValV::RegOffset(*r, *n),
            Val::ValTrue => ValV::ValTrue,
            Val::ValFalse => ValV::ValFalse,
            Val::Label(s) => ValV::Label(s@),
        }
    }
}

impl Clone for Val {
    fn clone(&self) -> (r: Self)
        ensures
            r == *self,
    {
        match self {
            Val::Reg(r) => Val::Reg(*r),
            Val::Imm(n) => Val::Imm(*n),
            Val::RegOffset(r, n) => Val::RegOffset(*r, *n),
            Val::ValTrue => Val::ValTrue,
            Val::ValFalse => Val::ValFalse,
            Val::Label(s) => Val::Label(s.clone()),
        }
    }
}

/// An x86-64 instruction, as the compiler emits it.
#[derive(Debug, PartialEq, Eq)]
pub enum Instr {
    IMov(Val, Val),
    IAdd(Val, Val),
    ISub(Val, Val),
    IMul(Val, Val),
    And(Val, Val),
    Xor(Val, Val),
    Not(Val),
    Shl(Val, Val),
    Sal(Val, Val),
    Sar(Val, Val),
    Cmp(Val, Val),
    Test(Val, Val),
    Cmovg(Val, Val),
    Cmovge(Val, Val),
    Cmovl(Val, Val),
    Cmovle(Val, Val),
    Cmovz(Val, Val),
    Inc(Val),
    ILabel(Val),
    Jmp(Val),
    Je(Val),
    Jo(Val),
    Jnz(Val),
    Call(Val),
    Ret,
}

/// The mathematical model of an instruction.
pub enum InstrV {
    IMov(ValV, ValV),
    IAdd(ValV, ValV),
    ISub(ValV, ValV),
    IMul(ValV, ValV),
    And(ValV, ValV),
    Xor(ValV, ValV),
    Not(ValV),
    Shl(ValV, ValV),
    Sal(ValV, ValV),
    Sar(ValV, ValV),
    Cmp(ValV, ValV),
    Test(ValV, ValV),
    Cmovg(ValV, ValV),
    Cmovge(ValV, ValV),
    Cmovl(ValV, ValV),
    Cmovle(ValV, ValV),
    Cmovz(ValV, ValV),
    Inc(ValV),
    ILabel(ValV),
    Jmp(ValV),
    Je(ValV),
    Jo(ValV),
    Jnz(ValV),
    Call(ValV),
    Ret,
}

impl View for Instr {
    type V = InstrV;

    open spec fn view(&self) -> InstrV {
        match self {
            Instr::IMov(a, b) => InstrV::IMov(a@, b@),
            Instr::IAdd(a, b) => InstrV::IAdd(a@, b@),
            Instr::ISub(a, b) => InstrV::ISub(a@, b@),
            Instr::IMul(a, b) => InstrV::IMul(a@, b@),
            Instr::And(a, b) => InstrV::And(a@, b@),
            Instr::Xor(a, b) => InstrV::Xor(a@, b@),
            Instr::Not(a) => InstrV::Not(a@),
            Instr::Shl(a, b) => InstrV::Shl(a@, b@),
            Instr::Sal(a, b) => InstrV::Sal(a@, b@),
            Instr::Sar(a, b) => InstrV::Sar(a@, b@),
            Instr::Cmp(a, b) => InstrV::Cmp(a@, b@),
            Instr::Test(a, b) => InstrV::Test(a@, b@),
            Instr::Cmovg(a, b) => InstrV::Cmovg(a@, b@),
            Instr::Cmovge(a, b) => InstrV::Cmovge(a@, b@),
            Instr::Cmovl(a, b) => InstrV::Cmovl(a@, b@),
            Instr::Cmovle(a, b) => InstrV::Cmovle(a@, b@),
            Instr::Cmovz(a, b) => InstrV::Cmovz(a@, b@),
            Instr::Inc(a) => InstrV::Inc(a@),
            Instr::ILabel(a) => InstrV::ILabel(a@),
            Instr::Jmp(a) => InstrV::Jmp(a@),
            Instr::Je(a) => InstrV::Je(a@),
            Instr::Jo(a) => InstrV::Jo(a@),
            Instr::Jnz(a) => InstrV::Jnz(a@),
            Instr::Call(a) => InstrV::Call(a@),
            Instr::Ret => InstrV::Ret,
        }
    }
}

/// The model of an instruction buffer.
pub open spec fn instrs_view(s: Seq<Instr>) -> Seq<InstrV> {
    Seq::new(s.len(), |i: int| s[i]@)
}

/// An operator without operands.
#[derive(Debug, PartialEq, Eq)]
pub enum ZeroOp {
    Number(i64),
    OpTrue,
    OpFalse,
    Input,
    Identifier(String),
}

/// The model of a nullary operator.
pub enum ZeroOpV {
    Number(i64),
    OpTrue,
    OpFalse,
    Input,
    Identifier(Seq<char>),
}

impl View for ZeroOp {
    type V = ZeroOpV;

    open spec fn view(&self) -> ZeroOpV {
        match self {
            ZeroOp::Number(n) => ZeroOpV::Number(*n),
            ZeroOp::OpTrue => ZeroOpV::OpTrue,
            ZeroOp::OpFalse => ZeroOpV::OpFalse,
            ZeroOp::Input => ZeroOpV::Input,
            ZeroOp::Identifier(s) => ZeroOpV::Identifier(s@),
        }
    }
}

/// An operator with one operand.
#[derive(Debug, Clone, Copy, PartialEq, Eq, Structural)]
pub enum UnitaryOp {
    Add1,
    Sub1,
    IsNum,
    IsBool,
    Loop,
    Break,
}

/// An operator with two operands.
#[derive(Debug, Clone, Copy, PartialEq, Eq, Structural)]
pub enum BinaryOp {
    Plus,
    Minus,
    Times,
    Less,
    Greater,
    LessEqual,
    GreaterEqual,
    Equal,
}

/// A name bound to an expression, in a `let` or a `set!`.
#[derive(Debug, PartialEq, Eq)]
pub struct Binding(pub String, pub Box<Expr>);

/// An expression of the source language.
#[derive(Debug, PartialEq, Eq)]
pub enum Expr {
    Let(Vec<Binding>, Box<Expr>),
    SetBinding(Binding),
    EZeroOp(ZeroOp),
    EUnitaryOp(UnitaryOp, Box<Expr>),
    EBinaryOp(BinaryOp, Box<Expr>, Box<Expr>),
    If(Box<Expr>, Box<Expr>, Box<Expr>),
    Block(Vec<Expr>),
    FuncDef(String, Vec<String>, Box<Expr>),
    FuncCall(String, Vec<Box<Expr>>),
    Program(Vec<Expr>, Box<Expr>),
}

/// The mathematical model of an expression: names are character sequences,
/// and sequences of subexpressions are `Seq`s.
pub enum ExprV {
    Let(Seq<(Seq<char>, ExprV)>, Box<ExprV>),
    SetBinding(Seq<char>, Box<ExprV>),
    EZeroOp(ZeroOpV),
    EUnitaryOp(UnitaryOp, Box<ExprV>),
    EBinaryOp(BinaryOp, Box<ExprV>, Box<ExprV>),
    If(Box<ExprV>, Box<ExprV>, Box<ExprV>),
    Block(Seq<ExprV>),
    FuncDef(Seq<char>, Seq<Seq<char>>, Box<ExprV>),
    FuncCall(Seq<char>, Seq<ExprV>),
    Program(Seq<ExprV>, Box<ExprV>),
}

impl Expr {
    /// The model of this expression (its view).
    pub open spec fn model(&self) -> ExprV
        decreases self,
    {
        match self {
            Expr::Let(bs, body) => ExprV::Let(
                Seq::new(
                    bs@.len(),
                    |i: int|
                        if 0 <= i < bs@.len() {
                            (bs@[i].0@, bs@[i].1.model())
                        } else {
                            (Seq::empty(), ExprV::Block(Seq::empty()))
                        },
                ),
                Box::new(body.model()),
            ),
            Expr::SetBinding(Binding(name, x)) => ExprV::SetBinding(name@, Box::new(x.model())),
            Expr::EZeroOp(op) => ExprV::EZeroOp(op@),
            Expr::EUnitaryOp(op, x) => ExprV::EUnitaryOp(*op, Box::new(x.model())),
            Expr::EBinaryOp(op, x, y) => ExprV::EBinaryOp(*op, Box::new(x.model()), Box::new(y.model())),
            Expr::If(c, t, f) => ExprV::If(Box::new(c.model()), Box::new(t.model()), Box::new(f.model())),
            Expr::Block(es) => ExprV::Block(
                Seq::new(
                    es@.len(),
                    |i: int|
                        if 0 <= i < es@.len() {
                            es@[i].model()
                        } else {
                            ExprV::Block(Seq::empty())
                        },
                ),
            ),
            Expr::FuncDef(name, params, body) => ExprV::FuncDef(
                name@,
                Seq::new(params@.len(), |i: int| params@[i]@),
                Box::new(body.model()),
            ),
            Expr::FuncCall(name, args) => ExprV::FuncCall(
                name@,
                Seq::new(
                    args@.len(),
                    |i: int|
                        if 0 <= i < args@.len() {
                            args@[i].model()
                        } else {
                            ExprV::Block(Seq::empty())
                        },
                ),
            ),
            Expr::Program(defs, body) => ExprV::Program(
                Seq::new(
                    defs@.len(),
                    |i: int|
                        if 0 <= i < defs@.len() {
                            defs@[i].model()
                        } else {
                            ExprV::Block(Seq::empty())
                        },
                ),
                Box::new(body.model()),
            ),
        }
    }
}

impl View for Expr {
    type V = ExprV;

    open spec fn view(&self) -> ExprV {
        self.model()
    }
}

/// The models of a sequence of bindings.
pub open spec fn binds_model(s: Seq<Binding>) -> Seq<(Seq<char>, ExprV)> {
    Seq::new(s.len(), |i: int| (s[i].0@, s[i].1.model()))
}

/// The models of a sequence of expressions.
pub open spec fn exprs_model(s: Seq<Expr>) -> Seq<ExprV> {
    Seq::new(s.len(), |i: int| s[i].model())
}

/// The models of a sequence of boxed expressions.
pub open spec fn boxed_model(s: Seq<Box<Expr>>) -> Seq<ExprV> {
    Seq::new(s.len(), |i: int| s[i].model())
}

/// The models of a sequence of names.
pub open spec fn names_model(s: Seq<String>) -> Seq<Seq<char>> {
    Seq::new(s.len(), |i: int| s[i]@)
}

} // verus!
