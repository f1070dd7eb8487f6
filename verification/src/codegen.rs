//! The model of code generation: what the compiler emits for each form, as a
//! function of the expression, the stack slot, the scope and the state so far.
use vstd::prelude::*;

use crate::text::decimal;
use crate::types::{BinaryOp, ExprV, InstrV, Register, UnitaryOp, ValV, ZeroOpV};

verus! {

/// The slot of the first stack temporary.
pub const STACK_BASE: i64 = 2;

/// A bound on program size under which no stack slot, offset or label
/// number overflows an `i64`. A program tree of this many nodes needs more
/// memory than a 64-bit machine can address.
pub const LIMIT: i64 = 72057594037927936;

/// What is in scope while an expression compiles: the enclosing function,
/// where each variable lives, and the label that `break` leaves to (empty
/// outside a loop).
pub struct Scope {
    pub func: Seq<char>,
    pub names: Map<Seq<char>, ValV>,
    pub break_label: Seq<char>,
}

/// What code generation has produced so far: the instructions, the last
/// label number handed out, and the arity of each function defined.
pub struct Gen {
    pub code: Seq<InstrV>,
    pub uid: int,
    pub defs: Map<Seq<char>, nat>,
}

/// Why an expression cannot be compiled.
pub enum CgError {
    InputOutsideMain,
    UnboundVariable(Seq<char>),
    BreakOutsideLoop,
    DuplicateBinding,
    ExpectedDefinition,
    NameInUse,
    FunctionNotFound,
    WrongArgCount,
    NestedFuncDef,
}

/// `g` with `s` appended to its code.
pub open spec fn emit(g: Gen, s: Seq<InstrV>) -> Gen {
    Gen { code: g.code + s, ..g }
}

pub open spec fn reg(r: Register) -> ValV {
    ValV::Reg(r)
}

pub open spec fn label(s: Seq<char>) -> ValV {
    ValV::Label(s)
}

/// `mov dst, src`.
pub open spec fn mov(dst: ValV, src: ValV) -> InstrV {
    InstrV::IMov(dst, src)
}

/// Jumps to `expect_numeric` unless register `r` holds a number.
pub open spec fn check_num(r: Register) -> Seq<InstrV> {
    seq![InstrV::Test(reg(r), ValV::Imm(1)), InstrV::Jnz(label("expect_numeric"@))]
}

/// Jumps to `overflow` when the last arithmetic overflowed.
pub open spec fn on_overflow() -> InstrV {
    InstrV::Jo(label("overflow"@))
}

/// The register that carries argument `i` (0 to 5) of a call.
pub open spec fn arg_reg(i: int) -> Register {
    if i == 0 {
        Register::RDI
    } else if i == 1 {
        Register::RSI
    } else if i == 2 {
        Register::RDX
    } else if i == 3 {
        Register::RCX
    } else if i == 4 {
        Register::R8
    } else {
        Register::R9
    }
}

/// Where parameter `i` of a function lives: the first six in registers,
/// the others at fixed offsets from the stack pointer. The offset of a
/// seventh or later parameter is `8 * (5 - i)`, the value that wrapping
/// unsigned arithmetic gives once cast back to a signed word (an optimised
/// build); a build with overflow checks would stop there instead.
pub open spec fn param_loc(i: int) -> ValV {
    if i < 6 {
        reg(arg_reg(i))
    } else {
        ValV::RegOffset(Register::RSP, (8 * (5 - i)) as i64)
    }
}

/// The code that follows the operand of an operator of one operand.
pub open spec fn unary_tail(op: UnitaryOp, sc: Scope) -> Result<Seq<InstrV>, CgError> {
    let rax = reg(Register::RAX);
    match op {
        UnitaryOp::Add1 => Ok(
            check_num(Register::RAX) + seq![InstrV::IAdd(rax, ValV::Imm(2)), on_overflow()],
        ),
        UnitaryOp::Sub1 => Ok(
            check_num(Register::RAX) + seq![InstrV::ISub(rax, ValV::Imm(2)), on_overflow()],
        ),
        UnitaryOp::IsNum => Ok(
            seq![
                InstrV::Not(rax),
                InstrV::And(rax, ValV::Imm(1)),
                InstrV::Shl(rax, ValV::Imm(1)),
                InstrV::Inc(rax),
            ],
        ),
        UnitaryOp::IsBool => Ok(
            seq![InstrV::And(rax, ValV::Imm(1)), InstrV::Shl(rax, ValV::Imm(1)), InstrV::Inc(rax)],
        ),
        UnitaryOp::Break => if sc.break_label.len() == 0 {
            Err(CgError::BreakOutsideLoop)
        } else {
            Ok(seq![InstrV::Jmp(label("end_"@ + sc.break_label))])
        },
        UnitaryOp::Loop => Ok(Seq::empty()),
    }
}

/// The code that combines the two operands, the first in `rax` and the
/// second in `rbx`.
pub open spec fn binary_tail(op: BinaryOp) -> Seq<InstrV> {
    let rax = reg(Register::RAX);
    let rbx = reg(Register::RBX);
    match op {
        BinaryOp::Equal => seq![
            InstrV::Xor(rbx, rax),
            mov(reg(Register::RBP), ValV::ValTrue),
            mov(rax, ValV::ValFalse),
            InstrV::Cmovz(rax, reg(Register::RBP)),
        ] + check_num(Register::RBX),
        BinaryOp::Plus => check_num(Register::RAX) + check_num(Register::RBX) + seq![
            InstrV::IAdd(rax, rbx),
            on_overflow(),
        ],
        BinaryOp::Minus => check_num(Register::RAX) + check_num(Register::RBX) + seq![
            InstrV::ISub(rax, rbx),
            on_overflow(),
        ],
        BinaryOp::Times => check_num(Register::RAX) + check_num(Register::RBX) + seq![
            InstrV::Sar(rax, ValV::Imm(1)),
            InstrV::Sar(rbx, ValV::Imm(1)),
            InstrV::IMul(rax, rbx),
            on_overflow(),
            InstrV::Sal(rax, ValV::Imm(1)),
            on_overflow(),
        ],
        _ => check_num(Register::RAX) + check_num(Register::RBX) + seq![
            InstrV::Cmp(rax, rbx),
            mov(rax, ValV::ValFalse),
            mov(rbx, ValV::ValTrue),
            match op {
                BinaryOp::Greater => InstrV::Cmovg(rax, rbx),
                BinaryOp::GreaterEqual => InstrV::Cmovge(rax, rbx),
                BinaryOp::Less => InstrV::Cmovl(rax, rbx),
                _ => InstrV::Cmovle(rax, rbx),
            },
        ],
    }
}

/// The code for an operator without operands.
pub open spec fn cg_zero_op(op: ZeroOpV, sc: Scope) -> Result<Seq<InstrV>, CgError> {
    let rax = reg(Register::RAX);
    match op {
        ZeroOpV::Number(n) => Ok(seq![mov(rax, ValV::Imm(n))]),
        ZeroOpV::OpTrue => Ok(seq![mov(rax, ValV::ValTrue)]),
        ZeroOpV::OpFalse => Ok(seq![mov(rax, ValV::ValFalse)]),
        ZeroOpV::Input => if sc.func == "main"@ {
            Ok(seq![mov(rax, reg(Register::RDI))])
        } else {
            Err(CgError::InputOutsideMain)
        },
        ZeroOpV::Identifier(s) => if sc.names.contains_key(s) {
            Ok(seq![mov(rax, sc.names[s])])
        } else {
            Err(CgError::UnboundVariable(s))
        },
    }
}

/// `code` appended to `g`, or the error.
pub open spec fn then_emit(g: Gen, code: Result<Seq<InstrV>, CgError>) -> Result<Gen, CgError> {
    match code {
        Ok(c) => Ok(emit(g, c)),
        Err(err) => Err(err),
    }
}

/// The scope of a function body: its parameters bound to their places.
/// Two parameters of one name are an error.
pub open spec fn param_scope(params: Seq<Seq<char>>, i: int, sc: Scope) -> Result<Scope, CgError>
    decreases params.len() - i,
{
    if i < 0 || i >= params.len() {
        Ok(sc)
    } else if sc.names.contains_key(params[i]) {
        Err(CgError::DuplicateBinding)
    } else {
        param_scope(
            params,
            i + 1,
            Scope { names: sc.names.insert(params[i], param_loc(i)), ..sc },
        )
    }
}

/// The code for `e`, with the next free stack slot at `stack`: the first
/// error met in the order the compiler works, where there is one.
pub open spec fn cg(e: ExprV, stack: int, sc: Scope, g: Gen) -> Result<Gen, CgError>
    decreases e, 0int,
{
    let rax = reg(Register::RAX);
    match e {
        ExprV::EZeroOp(op) => then_emit(g, cg_zero_op(op, sc)),
        ExprV::EUnitaryOp(op, x) => if op == UnitaryOp::Loop {
            let id = g.uid + 1;
            let name = "loop_"@ + decimal(id);
            let g1 = Gen { uid: id, code: g.code + seq![InstrV::ILabel(label(name + ":"@))], ..g };
            match cg(*x, stack, Scope { break_label: name, ..sc }, g1) {
                Ok(g2) => Ok(
                    emit(
                        g2,
                        seq![
                            InstrV::Jmp(label(name)),
                            InstrV::ILabel(label("end_"@ + name + ":"@)),
                        ],
                    ),
                ),
                Err(err) => Err(err),
            }
        } else {
            match cg(*x, stack, sc, g) {
                Ok(g1) => then_emit(g1, unary_tail(op, sc)),
                Err(err) => Err(err),
            }
        },
        ExprV::EBinaryOp(op, x, y) => match cg(*y, stack, sc, g) {
            Ok(g1) => {
                let slot = ValV::RegOffset(Register::RSP, stack as i64);
                match cg(*x, stack + 1, sc, emit(g1, seq![mov(slot, rax)])) {
                    Ok(g2) => Ok(emit(g2, seq![mov(reg(Register::RBX), slot)] + binary_tail(op))),
                    Err(err) => Err(err),
                }
            },
            Err(err) => Err(err),
        },
        ExprV::Let(bs, body) => match cg_let(bs, 0, stack, sc, g) {
            Ok((g1, stack1, sc1)) => cg(*body, stack1, sc1, g1),
            Err(err) => Err(err),
        },
        ExprV::SetBinding(name, x) => match cg(*x, stack, sc, g) {
            Ok(g1) => if sc.names.contains_key(name) {
                Ok(emit(g1, seq![mov(sc.names[name], rax)]))
            } else {
                Err(CgError::UnboundVariable(name))
            },
            Err(err) => Err(err),
        },
        ExprV::If(c, t, f) => match cg(*c, stack, sc, g) {
            Ok(g1) => {
                let id = g1.uid + 1;
                let if_false = "if_false_"@ + decimal(id);
                let end_if = "end_if_"@ + decimal(id);
                let g2 = Gen {
                    uid: id,
                    code: g1.code + seq![
                        InstrV::Cmp(rax, ValV::ValFalse),
                        InstrV::Je(label(if_false)),
                    ],
                    ..g1
                };
                match cg(*t, stack, sc, g2) {
                    Ok(g3) => {
                        let g4 = emit(
                            g3,
                            seq![InstrV::Jmp(label(end_if)), InstrV::ILabel(label(if_false + ":"@))],
                        );
                        match cg(*f, stack, sc, g4) {
                            Ok(g5) => Ok(
                                emit(
                                    g5,
                                    seq![
                                        InstrV::Jmp(label(end_if)),
                                        InstrV::ILabel(label(end_if + ":"@)),
                                    ],
                                ),
                            ),
                            Err(err) => Err(err),
                        }
                    },
                    Err(err) => Err(err),
                }
            },
            Err(err) => Err(err),
        },
        ExprV::Block(es) => cg_block(es, 0, stack, sc, g),
        ExprV::FuncDef(_, _, _) => Err(CgError::NestedFuncDef),
        ExprV::FuncCall(name, args) => match cg_regs(args, 0, stack, sc, g) {
            Ok(g1) => match cg_spill(args, args.len() - 2, stack, sc, g1) {
                Ok((g2, stk)) => if !g2.defs.contains_key(name) {
                    Err(CgError::FunctionNotFound)
                } else if g2.defs[name] != args.len() {
                    Err(CgError::WrongArgCount)
                } else {
                    let rsp = reg(Register::RSP);
                    Ok(
                        emit(
                            g2,
                            seq![
                                InstrV::IAdd(rsp, ValV::Imm((8 * stk) as i64)),
                                InstrV::Call(label("def_"@ + name)),
                                InstrV::ISub(rsp, ValV::Imm((8 * stk) as i64)),
                            ],
                        ),
                    )
                },
                Err(err) => Err(err),
            },
            Err(err) => Err(err),
        },
        ExprV::Program(defs, body) => match cg_defs(defs, 0, g) {
            Ok(g1) => {
                let g2 = emit(g1, seq![InstrV::ILabel(label("our_code_starts_here:"@))]);
                match cg(*body, stack, sc, g2) {
                    Ok(g3) => Ok(emit(g3, seq![InstrV::Ret])),
                    Err(err) => Err(err),
                }
            },
            Err(err) => Err(err),
        },
    }
}

/// The bindings `bs[i..]` of a `let`, each evaluated and stored in the next
/// stack slot, where the following ones and the body see it.
pub open spec fn cg_let(
    bs: Seq<(Seq<char>, ExprV)>,
    i: int,
    stack: int,
    sc: Scope,
    g: Gen,
) -> Result<(Gen, int, Scope), CgError>
    decreases bs, bs.len() - i,
{
    if i < 0 || i >= bs.len() {
        Ok((g, stack, sc))
    } else {
        match cg(bs[i].1, stack, sc, g) {
            Ok(g1) => {
                let slot = ValV::RegOffset(Register::RSP, stack as i64);
                cg_let(
                    bs,
                    i + 1,
                    stack + 1,
                    Scope { names: sc.names.insert(bs[i].0, slot), ..sc },
                    emit(g1, seq![mov(slot, reg(Register::RAX))]),
                )
            },
            Err(err) => Err(err),
        }
    }
}

/// The expressions `es[i..]` of a block, one after the other.
pub open spec fn cg_block(es: Seq<ExprV>, i: int, stack: int, sc: Scope, g: Gen) -> Result<
    Gen,
    CgError,
>
    decreases es, es.len() - i,
{
    if i < 0 || i >= es.len() {
        Ok(g)
    } else {
        match cg(es[i], stack, sc, g) {
            Ok(g1) => cg_block(es, i + 1, stack, sc, g1),
            Err(err) => Err(err),
        }
    }
}

/// Arguments `args[i..6]` of a call, each moved to its register.
pub open spec fn cg_regs(args: Seq<ExprV>, i: int, stack: int, sc: Scope, g: Gen) -> Result<
    Gen,
    CgError,
>
    decreases args, args.len() - i,
{
    if i < 0 || i >= args.len() || i >= 6 {
        Ok(g)
    } else {
        match cg(args[i], stack, sc, g) {
            Ok(g1) => cg_regs(
                args,
                i + 1,
                stack,
                sc,
                emit(g1, seq![mov(reg(arg_reg(i)), reg(Register::RAX))]),
            ),
            Err(err) => Err(err),
        }
    }
}

/// Arguments `args[i]`, `args[i - 1]`, down to `args[5]`, each pushed to the
/// next stack slot; with the slot that follows them.
pub open spec fn cg_spill(args: Seq<ExprV>, i: int, stk: int, sc: Scope, g: Gen) -> Result<
    (Gen, int),
    CgError,
>
    decreases args, i + 1,
{
    if i < 5 || i >= args.len() {
        Ok((g, stk))
    } else {
        match cg(args[i], stk, sc, g) {
            Ok(g1) => cg_spill(
                args,
                i - 1,
                stk + 1,
                sc,
                emit(g1, seq![mov(ValV::RegOffset(Register::RSP, stk as i64), reg(Register::RAX))]),
            ),
            Err(err) => Err(err),
        }
    }
}

/// A function definition: its label, its body in the scope of its
/// parameters with stack temporaries from `STACK_BASE`, and a return. The
/// name must be new.
pub open spec fn cg_def(d: ExprV, g: Gen) -> Result<Gen, CgError>
    decreases d, 0int,
{
    match d {
        ExprV::FuncDef(name, params, body) => if g.defs.contains_key(name) {
            Err(CgError::NameInUse)
        } else {
            let g1 = Gen {
                defs: g.defs.insert(name, params.len()),
                code: g.code + seq![InstrV::ILabel(label("def_"@ + name + ":"@))],
                ..g
            };
            let sc0 = Scope { func: name, names: Map::empty(), break_label: Seq::empty() };
            match param_scope(params, 0, sc0) {
                Ok(sc) => match cg(*body, STACK_BASE as int, sc, g1) {
                    Ok(g2) => Ok(emit(g2, seq![InstrV::Ret])),
                    Err(err) => Err(err),
                },
                Err(err) => Err(err),
            }
        },
        _ => Err(CgError::ExpectedDefinition),
    }
}

/// The function definitions `defs[i..]` of a program, in order.
pub open spec fn cg_defs(defs: Seq<ExprV>, i: int, g: Gen) -> Result<Gen, CgError>
    decreases defs, defs.len() - i,
{
    if i < 0 || i >= defs.len() {
        Ok(g)
    } else {
        match cg_def(defs[i], g) {
            Ok(g1) => cg_defs(defs, i + 1, g1),
            Err(err) => Err(err),
        }
    }
}

/// The number of nodes of an expression that code generation visits, each
/// as often as it is visited (the arguments of a call as `cg_regs` and
/// `cg_spill` take them), and one more for each binding and parameter: a
/// bound on the stack slots and label numbers its code takes.
pub open spec fn expr_size(e: ExprV) -> nat
    decreases e, 0int,
{
    match e {
        ExprV::EZeroOp(_) => 1,
        ExprV::EUnitaryOp(_, x) => 1 + expr_size(*x),
        ExprV::EBinaryOp(_, x, y) => 1 + expr_size(*x) + expr_size(*y),
        ExprV::Let(bs, body) => 1 + binds_size(bs, 0) + expr_size(*body),
        ExprV::SetBinding(_, x) => 1 + expr_size(*x),
        ExprV::If(c, t, f) => 1 + expr_size(*c) + expr_size(*t) + expr_size(*f),
        ExprV::Block(es) => 1 + exprs_size(es, 0),
        ExprV::FuncDef(_, params, body) => 1 + params.len() + expr_size(*body),
        ExprV::FuncCall(_, args) => 1 + regs_size(args, 0) + spill_size(args, args.len() - 2),
        ExprV::Program(defs, body) => 1 + exprs_size(defs, 0) + expr_size(*body),
    }
}

/// The sizes of the bindings `bs[i..]`, one more for each.
pub open spec fn binds_size(bs: Seq<(Seq<char>, ExprV)>, i: int) -> nat
    decreases bs, bs.len() - i,
{
    if i < 0 || i >= bs.len() {
        0
    } else {
        1 + expr_size(bs[i].1) + binds_size(bs, i + 1)
    }
}

/// The sizes of the arguments `args[i..6]` of a call.
pub open spec fn regs_size(args: Seq<ExprV>, i: int) -> nat
    decreases args, args.len() - i,
{
    if i < 0 || i >= args.len() || i >= 6 {
        0
    } else {
        expr_size(args[i]) + regs_size(args, i + 1)
    }
}

/// The sizes of the arguments `args[i]` down to `args[5]` of a call.
pub open spec fn spill_size(args: Seq<ExprV>, i: int) -> nat
    decreases args, i + 1,
{
    if i < 5 || i >= args.len() {
        0
    } else {
        expr_size(args[i]) + spill_size(args, i - 1)
    }
}

/// The sizes of the expressions `es[i..]`.
pub open spec fn exprs_size(es: Seq<ExprV>, i: int) -> nat
    decreases es, es.len() - i,
{
    if i < 0 || i >= es.len() {
        0
    } else {
        expr_size(es[i]) + exprs_size(es, i + 1)
    }
}

/// The number of `if` and `loop` forms in an expression: the label numbers
/// its code takes.
pub open spec fn branches(e: ExprV) -> nat
    decreases e, 0int,
{
    match e {
        ExprV::EZeroOp(_) => 0,
        ExprV::EUnitaryOp(op, x) => if op == UnitaryOp::Loop {
            1 + branches(*x)
        } else {
            branches(*x)
        },
        ExprV::EBinaryOp(_, x, y) => branches(*x) + branches(*y),
        ExprV::Let(bs, body) => binds_branches(bs, 0) + branches(*body),
        ExprV::SetBinding(_, x) => branches(*x),
        ExprV::If(c, t, f) => 1 + branches(*c) + branches(*t) + branches(*f),
        ExprV::Block(es) => exprs_branches(es, 0),
        ExprV::FuncDef(_, _, body) => branches(*body),
        ExprV::FuncCall(_, args) => regs_branches(args, 0) + spill_branches(args, args.len() - 2),
        ExprV::Program(defs, body) => exprs_branches(defs, 0) + branches(*body),
    }
}

/// The `if` and `loop` forms of the bindings `bs[i..]`.
pub open spec fn binds_branches(bs: Seq<(Seq<char>, ExprV)>, i: int) -> nat
    decreases bs, bs.len() - i,
{
    if i < 0 || i >= bs.len() {
        0
    } else {
        branches(bs[i].1) + binds_branches(bs, i + 1)
    }
}

/// The `if` and `loop` forms of the arguments `args[i..6]` of a call.
pub open spec fn regs_branches(args: Seq<ExprV>, i: int) -> nat
    decreases args, args.len() - i,
{
    if i < 0 || i >= args.len() || i >= 6 {
        0
    } else {
        branches(args[i]) + regs_branches(args, i + 1)
    }
}

/// The `if` and `loop` forms of the arguments `args[i]` down to `args[5]`.
pub open spec fn spill_branches(args: Seq<ExprV>, i: int) -> nat
    decreases args, i + 1,
{
    if i < 5 || i >= args.len() {
        0
    } else {
        branches(args[i]) + spill_branches(args, i - 1)
    }
}

/// The `if` and `loop` forms of the expressions `es[i..]`.
pub open spec fn exprs_branches(es: Seq<ExprV>, i: int) -> nat
    decreases es, es.len() - i,
{
    if i < 0 || i >= es.len() {
        0
    } else {
        branches(es[i]) + exprs_branches(es, i + 1)
    }
}

/// A call compiles only where the function it names is defined with as
/// many parameters as the call has arguments, neither fewer nor more.
pub proof fn lemma_call_arity(name: Seq<char>, args: Seq<ExprV>, stack: int, sc: Scope, g: Gen)
    ensures
        cg(ExprV::FuncCall(name, args), stack, sc, g) matches Ok(h) ==> h.defs.contains_key(name)
            && h.defs[name] == args.len(),
{
}

} // verus!
