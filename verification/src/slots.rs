//! Where compiled code writes in memory, and the proof that code for an
//! expression writes only in the stack slots it was given or in the place
//! of a variable in scope.
use vstd::prelude::*;

use crate::codegen::{
    arg_reg, binary_tail, binds_size, cg, cg_block, cg_let, cg_regs, cg_spill, cg_zero_op,
    check_num, emit, expr_size, exprs_size, label, mov, reg, regs_size, spill_size, unary_tail, Gen,
    Scope,
};
use crate::labels::{added, binds_programs, exprs_programs, grows, programs, regs_programs, spill_programs};
use crate::text::decimal;
use crate::types::{BinaryOp, ExprV, InstrV, Register, UnitaryOp, ValV, ZeroOpV};

verus! {

/// The operand an instruction writes to, where it writes one.
pub open spec fn dest(i: InstrV) -> Option<ValV> {
    match i {
        InstrV::IMov(d, _) => Some(d),
        InstrV::IAdd(d, _) => Some(d),
        InstrV::ISub(d, _) => Some(d),
        InstrV::IMul(d, _) => Some(d),
        InstrV::And(d, _) => Some(d),
        InstrV::Xor(d, _) => Some(d),
        InstrV::Not(d) => Some(d),
        InstrV::Shl(d, _) => Some(d),
        InstrV::Sal(d, _) => Some(d),
        InstrV::Sar(d, _) => Some(d),
        InstrV::Cmovg(d, _) => Some(d),
        InstrV::Cmovge(d, _) => Some(d),
        InstrV::Cmovl(d, _) => Some(d),
        InstrV::Cmovle(d, _) => Some(d),
        InstrV::Cmovz(d, _) => Some(d),
        InstrV::Inc(d) => Some(d),
        _ => None,
    }
}

/// Whether a write to `d` stays in the stack slots from `stack` up or in
/// the place of a variable of `names`.
pub open spec fn write_ok(d: ValV, stack: int, names: Map<Seq<char>, ValV>) -> bool {
    match d {
        ValV::RegOffset(_, k) => k >= stack || exists|n: Seq<char>|
            #[trigger] names.contains_key(n) && names[n] == d,
        _ => true,
    }
}

/// Every write of `code` to memory stays in the stack slots from `stack`
/// up or in the place of a variable of `names`.
pub open spec fn writes_ok(code: Seq<InstrV>, stack: int, names: Map<Seq<char>, ValV>) -> bool {
    forall|i: int|
        0 <= i < code.len() && (#[trigger] dest(code[i])) is Some ==> write_ok(
            dest(code[i])->0,
            stack,
            names,
        )
}

/// Every variable of `inner` lives where one of `outer` lives, or in a
/// stack slot from `stack` up.
pub open spec fn scope_within(
    inner: Map<Seq<char>, ValV>,
    outer: Map<Seq<char>, ValV>,
    stack: int,
) -> bool {
    forall|n: Seq<char>|
        #[trigger] inner.contains_key(n) ==> (inner[n] matches ValV::RegOffset(_, k) && k >= stack)
            || exists|m: Seq<char>| #[trigger] outer.contains_key(m) && outer[m] == inner[n]
}

/// A write that is fine in an inner scope with more slots taken is fine
/// in the outer one.
pub proof fn lemma_write_widen(
    d: ValV,
    s1: int,
    inner: Map<Seq<char>, ValV>,
    stack: int,
    outer: Map<Seq<char>, ValV>,
)
    requires
        write_ok(d, s1, inner),
        s1 >= stack,
        scope_within(inner, outer, stack),
    ensures
        write_ok(d, stack, outer),
{
    match d {
        ValV::RegOffset(_, k) => {
            if k < s1 {
                let n = choose|n: Seq<char>| #[trigger] inner.contains_key(n) && inner[n] == d;
                assert(inner.contains_key(n));
            }
        },
        _ => {},
    }
}

/// Code whose writes are fine in an inner scope with more slots taken
/// writes fine in the outer one.
pub proof fn lemma_writes_widen(
    c: Seq<InstrV>,
    s1: int,
    inner: Map<Seq<char>, ValV>,
    stack: int,
    outer: Map<Seq<char>, ValV>,
)
    requires
        writes_ok(c, s1, inner),
        s1 >= stack,
        scope_within(inner, outer, stack),
    ensures
        writes_ok(c, stack, outer),
{
    assert forall|i: int| 0 <= i < c.len() && (#[trigger] dest(c[i])) is Some implies write_ok(
        dest(c[i])->0,
        stack,
        outer,
    ) by {
        lemma_write_widen(dest(c[i])->0, s1, inner, stack, outer);
    }
}

/// A scope lies within itself.
pub proof fn lemma_scope_within_refl(names: Map<Seq<char>, ValV>, stack: int)
    ensures
        scope_within(names, names, stack),
{
    assert forall|n: Seq<char>| #[trigger] names.contains_key(n) implies (
    names[n] matches ValV::RegOffset(_, k) && k >= stack) || exists|m: Seq<char>|
        #[trigger] names.contains_key(m) && names[m] == names[n] by {
        assert(names.contains_key(n) && names[n] == names[n]);
    }
}

/// `a` then `b`, each of whose writes are fine, writes fine.
pub proof fn lemma_writes_add(a: Seq<InstrV>, b: Seq<InstrV>, stack: int, names: Map<Seq<char>, ValV>)
    requires
        writes_ok(a, stack, names),
        writes_ok(b, stack, names),
    ensures
        writes_ok(a + b, stack, names),
{
    let c = a + b;
    assert forall|i: int| 0 <= i < c.len() && (#[trigger] dest(c[i])) is Some implies write_ok(
        dest(c[i])->0,
        stack,
        names,
    ) by {
        if i < a.len() {
            assert(c[i] == a[i]);
        } else {
            assert(c[i] == b[i - a.len()]);
        }
    }
}

/// The code between `g` and `g2` is the code between `g` and `g1`, then
/// between `g1` and `g2`.
pub proof fn lemma_added_split(g: Gen, g1: Gen, g2: Gen)
    requires
        grows(g, g1),
        grows(g1, g2),
    ensures
        added(g, g2) == added(g, g1) + added(g1, g2),
        grows(g, g2),
{
    let n = g.code.len() as int;
    let n1 = g1.code.len() as int;
    assert forall|i: int| 0 <= i < n1 implies g2.code[i] == g1.code[i] by {
        assert(g2.code.subrange(0, n1)[i] == g2.code[i]);
    }
    assert forall|i: int| 0 <= i < n implies g1.code[i] == g.code[i] by {
        assert(g1.code.subrange(0, n)[i] == g1.code[i]);
    }
    assert(g2.code.subrange(0, n) =~= g.code);
    assert(added(g, g2) =~= added(g, g1) + added(g1, g2));
}

/// The code that operators emit around their operands writes registers
/// only.
pub proof fn lemma_tails_write_regs(
    b: BinaryOp,
    u: UnitaryOp,
    z: ZeroOpV,
    sc: Scope,
    stack: int,
    names: Map<Seq<char>, ValV>,
)
    ensures
        writes_ok(binary_tail(b), stack, names),
        unary_tail(u, sc) matches Ok(c) ==> writes_ok(c, stack, names),
        cg_zero_op(z, sc) matches Ok(c) ==> writes_ok(c, stack, names),
{
    let rax = ValV::Reg(Register::RAX);
    let rbx = ValV::Reg(Register::RBX);
    let over = InstrV::Jo(label("overflow"@));
    assert(writes_ok(check_num(Register::RAX), stack, names));
    assert(writes_ok(check_num(Register::RBX), stack, names));
    lemma_writes_add(check_num(Register::RAX), check_num(Register::RBX), stack, names);
    let both = check_num(Register::RAX) + check_num(Register::RBX);
    match b {
        BinaryOp::Equal => {
            let front = seq![
                InstrV::Xor(rbx, rax),
                InstrV::IMov(ValV::Reg(Register::RBP), ValV::ValTrue),
                InstrV::IMov(rax, ValV::ValFalse),
                InstrV::Cmovz(rax, ValV::Reg(Register::RBP)),
            ];
            assert(writes_ok(front, stack, names));
            lemma_writes_add(front, check_num(Register::RBX), stack, names);
        },
        BinaryOp::Plus => {
            let rest = seq![InstrV::IAdd(rax, rbx), over];
            assert(writes_ok(rest, stack, names));
            lemma_writes_add(both, rest, stack, names);
        },
        BinaryOp::Minus => {
            let rest = seq![InstrV::ISub(rax, rbx), over];
            assert(writes_ok(rest, stack, names));
            lemma_writes_add(both, rest, stack, names);
        },
        BinaryOp::Times => {
            let rest = seq![
                InstrV::Sar(rax, ValV::Imm(1)),
                InstrV::Sar(rbx, ValV::Imm(1)),
                InstrV::IMul(rax, rbx),
                over,
                InstrV::Sal(rax, ValV::Imm(1)),
                over,
            ];
            assert(writes_ok(rest, stack, names));
            lemma_writes_add(both, rest, stack, names);
        },
        _ => {
            let last = match b {
                BinaryOp::Greater => InstrV::Cmovg(rax, rbx),
                BinaryOp::GreaterEqual => InstrV::Cmovge(rax, rbx),
                BinaryOp::Less => InstrV::Cmovl(rax, rbx),
                _ => InstrV::Cmovle(rax, rbx),
            };
            let rest = seq![
                InstrV::Cmp(rax, rbx),
                InstrV::IMov(rax, ValV::ValFalse),
                InstrV::IMov(rbx, ValV::ValTrue),
                last,
            ];
            assert(writes_ok(rest, stack, names));
            lemma_writes_add(both, rest, stack, names);
        },
    }
    match u {
        UnitaryOp::Add1 => {
            let rest = seq![InstrV::IAdd(rax, ValV::Imm(2)), over];
            assert(writes_ok(rest, stack, names));
            lemma_writes_add(check_num(Register::RAX), rest, stack, names);
        },
        UnitaryOp::Sub1 => {
            let rest = seq![InstrV::ISub(rax, ValV::Imm(2)), over];
            assert(writes_ok(rest, stack, names));
            lemma_writes_add(check_num(Register::RAX), rest, stack, names);
        },
        UnitaryOp::IsNum => {
            let c = seq![
                InstrV::Not(rax),
                InstrV::And(rax, ValV::Imm(1)),
                InstrV::Shl(rax, ValV::Imm(1)),
                InstrV::Inc(rax),
            ];
            assert(writes_ok(c, stack, names));
        },
        UnitaryOp::IsBool => {
            let c = seq![
                InstrV::And(rax, ValV::Imm(1)),
                InstrV::Shl(rax, ValV::Imm(1)),
                InstrV::Inc(rax),
            ];
            assert(writes_ok(c, stack, names));
        },
        _ => {},
    }
}

/// Scopes nest: what lies within a scope that lies within another lies
/// within that one.
pub proof fn lemma_scope_within_trans(
    a: Map<Seq<char>, ValV>,
    b: Map<Seq<char>, ValV>,
    c: Map<Seq<char>, ValV>,
    sb: int,
    sc: int,
)
    requires
        scope_within(a, b, sb),
        scope_within(b, c, sc),
        sb >= sc,
    ensures
        scope_within(a, c, sc),
{
    assert forall|n: Seq<char>| #[trigger] a.contains_key(n) implies (
    a[n] matches ValV::RegOffset(_, k) && k >= sc) || exists|m: Seq<char>|
        #[trigger] c.contains_key(m) && c[m] == a[n] by {
        if !(a[n] matches ValV::RegOffset(_, k) && k >= sb) {
            let m = choose|m: Seq<char>| #[trigger] b.contains_key(m) && b[m] == a[n];
            assert(b.contains_key(m));
        }
    }
}

/// Appending `s` to `g`'s code, with the label number raised by `bump`.
pub proof fn lemma_grows_by(g: Gen, h: Gen, s: Seq<InstrV>)
    requires
        h.code == g.code + s,
        g.uid <= h.uid,
        h.defs == g.defs,
    ensures
        grows(g, h),
        added(g, h) == s,
{
    assert(added(g, h) =~= s);
    assert(h.code.subrange(0, g.code.len() as int) =~= g.code);
}

/// A step whose writes are fine, then code whose writes are fine.
pub proof fn lemma_writes_then(g: Gen, g1: Gen, s: Seq<InstrV>, stack: int, names: Map<Seq<char>, ValV>)
    requires
        grows(g, g1),
        writes_ok(added(g, g1), stack, names),
        writes_ok(s, stack, names),
    ensures
        grows(g, emit(g1, s)),
        writes_ok(added(g, emit(g1, s)), stack, names),
{
    lemma_grows_by(g1, emit(g1, s), s);
    lemma_added_split(g, g1, emit(g1, s));
    lemma_writes_add(added(g, g1), s, stack, names);
}

/// Two steps whose writes are fine.
pub proof fn lemma_writes_chain(g: Gen, g1: Gen, g2: Gen, stack: int, names: Map<Seq<char>, ValV>)
    requires
        grows(g, g1),
        grows(g1, g2),
        writes_ok(added(g, g1), stack, names),
        writes_ok(added(g1, g2), stack, names),
    ensures
        grows(g, g2),
        writes_ok(added(g, g2), stack, names),
{
    lemma_added_split(g, g1, g2);
    lemma_writes_add(added(g, g1), added(g1, g2), stack, names);
}

/// Code generation of `e` with the free stack slot `stack`, where it
/// succeeds, appends code that writes memory only in the slots from
/// `stack` up or in the place of a variable in scope.
#[verifier::rlimit(80)]
pub proof fn lemma_cg_writes(e: ExprV, stack: int, sc: Scope, g: Gen)
    requires
        programs(e) == 0,
        i64::MIN <= stack,
        stack + expr_size(e) <= i64::MAX,
    ensures
        cg(e, stack, sc, g) matches Ok(h) ==> grows(g, h) && writes_ok(added(g, h), stack, sc.names),
    decreases e, 0int,
{
    let rax = reg(Register::RAX);
    let names = sc.names;
    match e {
        ExprV::EZeroOp(op) => {
            lemma_tails_write_regs(BinaryOp::Plus, UnitaryOp::Add1, op, sc, stack, names);
            match cg_zero_op(op, sc) {
                Ok(c) => lemma_grows_by(g, emit(g, c), c),
                Err(_) => {},
            }
        },
        ExprV::EUnitaryOp(op, x) => {
            if op == UnitaryOp::Loop {
                let id = g.uid + 1;
                let name = "loop_"@ + decimal(id);
                let head = seq![InstrV::ILabel(label(name + ":"@))];
                let g1 = Gen { uid: id, code: g.code + head, ..g };
                let sc1 = Scope { break_label: name, ..sc };
                lemma_cg_writes(*x, stack, sc1, g1);
                match cg(*x, stack, sc1, g1) {
                    Ok(g2) => {
                        lemma_grows_by(g, g1, head);
                        assert(writes_ok(head, stack, names));
                        lemma_writes_chain(g, g1, g2, stack, names);
                        let tail = seq![
                            InstrV::Jmp(label(name)),
                            InstrV::ILabel(label("end_"@ + name + ":"@)),
                        ];
                        assert(writes_ok(tail, stack, names));
                        lemma_writes_then(g, g2, tail, stack, names);
                    },
                    Err(_) => {},
                }
            } else {
                lemma_cg_writes(*x, stack, sc, g);
                match cg(*x, stack, sc, g) {
                    Ok(g1) => {
                        lemma_tails_write_regs(BinaryOp::Plus, op, ZeroOpV::OpTrue, sc, stack, names);
                        match unary_tail(op, sc) {
                            Ok(c) => lemma_writes_then(g, g1, c, stack, names),
                            Err(_) => {},
                        }
                    },
                    Err(_) => {},
                }
            }
        },
        ExprV::EBinaryOp(op, x, y) => {
            lemma_cg_writes(*y, stack, sc, g);
            match cg(*y, stack, sc, g) {
                Ok(g1) => {
                    let slot = ValV::RegOffset(Register::RSP, stack as i64);
                    let m = seq![mov(slot, rax)];
                    let g1m = emit(g1, m);
                    assert(writes_ok(m, stack, names));
                    lemma_writes_then(g, g1, m, stack, names);
                    lemma_cg_writes(*x, stack + 1, sc, g1m);
                    match cg(*x, stack + 1, sc, g1m) {
                        Ok(g2) => {
                            lemma_scope_within_refl(names, stack);
                            lemma_writes_widen(added(g1m, g2), stack + 1, names, stack, names);
                            lemma_writes_chain(g, g1m, g2, stack, names);
                            lemma_tails_write_regs(op, UnitaryOp::Add1, ZeroOpV::OpTrue, sc, stack, names);
                            let front = seq![mov(reg(Register::RBX), slot)];
                            assert(writes_ok(front, stack, names));
                            lemma_writes_add(front, binary_tail(op), stack, names);
                            lemma_writes_then(g, g2, front + binary_tail(op), stack, names);
                        },
                        Err(_) => {},
                    }
                },
                Err(_) => {},
            }
        },
        ExprV::Let(bs, body) => {
            lemma_let_writes(bs, 0, stack, sc, g);
            match cg_let(bs, 0, stack, sc, g) {
                Ok((g1, stack1, sc1)) => {
                    lemma_cg_writes(*body, stack1, sc1, g1);
                    match cg(*body, stack1, sc1, g1) {
                        Ok(g2) => {
                            lemma_writes_widen(added(g1, g2), stack1, sc1.names, stack, names);
                            lemma_writes_chain(g, g1, g2, stack, names);
                        },
                        Err(_) => {},
                    }
                },
                Err(_) => {},
            }
        },
        ExprV::SetBinding(name, x) => {
            lemma_cg_writes(*x, stack, sc, g);
            match cg(*x, stack, sc, g) {
                Ok(g1) => {
                    if names.contains_key(name) {
                        let m = seq![mov(names[name], rax)];
                        assert(dest(m[0]) == Some(names[name]));
                        assert(write_ok(names[name], stack, names));
                        assert(writes_ok(m, stack, names));
                        lemma_writes_then(g, g1, m, stack, names);
                    }
                },
                Err(_) => {},
            }
        },
        ExprV::If(c, t, f) => {
            lemma_cg_writes(*c, stack, sc, g);
            match cg(*c, stack, sc, g) {
                Ok(g1) => {
                    let id = g1.uid + 1;
                    let if_false = "if_false_"@ + decimal(id);
                    let end_if = "end_if_"@ + decimal(id);
                    let test = seq![InstrV::Cmp(rax, ValV::ValFalse), InstrV::Je(label(if_false))];
                    let g2 = Gen { uid: id, code: g1.code + test, ..g1 };
                    lemma_cg_writes(*t, stack, sc, g2);
                    match cg(*t, stack, sc, g2) {
                        Ok(g3) => {
                            let mid = seq![
                                InstrV::Jmp(label(end_if)),
                                InstrV::ILabel(label(if_false + ":"@)),
                            ];
                            let g4 = emit(g3, mid);
                            lemma_cg_writes(*f, stack, sc, g4);
                            match cg(*f, stack, sc, g4) {
                                Ok(g5) => {
                                    let tail = seq![
                                        InstrV::Jmp(label(end_if)),
                                        InstrV::ILabel(label(end_if + ":"@)),
                                    ];
                                    lemma_grows_by(g1, g2, test);
                                    assert(writes_ok(test, stack, names));
                                    lemma_writes_chain(g, g1, g2, stack, names);
                                    lemma_writes_chain(g, g2, g3, stack, names);
                                    assert(writes_ok(mid, stack, names));
                                    lemma_writes_then(g, g3, mid, stack, names);
                                    lemma_writes_chain(g, g4, g5, stack, names);
                                    assert(writes_ok(tail, stack, names));
                                    lemma_writes_then(g, g5, tail, stack, names);
                                },
                                Err(_) => {},
                            }
                        },
                        Err(_) => {},
                    }
                },
                Err(_) => {},
            }
        },
        ExprV::Block(es) => {
            lemma_block_writes(es, 0, stack, sc, g);
        },
        ExprV::FuncDef(_, _, _) => {},
        ExprV::FuncCall(name, args) => {
            lemma_regs_writes(args, 0, stack, sc, g);
            match cg_regs(args, 0, stack, sc, g) {
                Ok(g1) => {
                    lemma_spill_writes(args, args.len() - 2, stack, sc, g1);
                    match cg_spill(args, args.len() - 2, stack, sc, g1) {
                        Ok((g2, stk)) => {
                            if g2.defs.contains_key(name) && g2.defs[name] == args.len() {
                                lemma_writes_chain(g, g1, g2, stack, names);
                                let rsp = reg(Register::RSP);
                                let tail = seq![
                                    InstrV::IAdd(rsp, ValV::Imm((8 * stk) as i64)),
                                    InstrV::Call(label("def_"@ + name)),
                                    InstrV::ISub(rsp, ValV::Imm((8 * stk) as i64)),
                                ];
                                assert(writes_ok(tail, stack, names));
                                lemma_writes_then(g, g2, tail, stack, names);
                            }
                        },
                        Err(_) => {},
                    }
                },
                Err(_) => {},
            }
        },
        ExprV::Program(_, _) => {},
    }
}

/// `cg_let` over the bindings `bs[i..]` writes only from `stack` up or in
/// the places of variables in scope, and the scope it leaves binds its
/// variables there too.
pub proof fn lemma_let_writes(
    bs: Seq<(Seq<char>, ExprV)>,
    i: int,
    stack: int,
    sc: Scope,
    g: Gen,
)
    requires
        binds_programs(bs, i) == 0,
        i64::MIN <= stack,
        stack + binds_size(bs, i) <= i64::MAX,
    ensures
        cg_let(bs, i, stack, sc, g) matches Ok((h, stack1, sc1)) ==> grows(g, h) && writes_ok(
            added(g, h),
            stack,
            sc.names,
        ) && stack <= stack1 <= stack + binds_size(bs, i) && scope_within(
            sc1.names,
            sc.names,
            stack,
        ),
    decreases bs, bs.len() - i,
{
    let names = sc.names;
    if i < 0 || i >= bs.len() {
        lemma_grows_by(g, g, Seq::empty());
        lemma_scope_within_refl(names, stack);
    } else {
        lemma_cg_writes(bs[i].1, stack, sc, g);
        match cg(bs[i].1, stack, sc, g) {
            Ok(g1) => {
                let slot = ValV::RegOffset(Register::RSP, stack as i64);
                let m = seq![mov(slot, reg(Register::RAX))];
                let g1m = emit(g1, m);
                assert(writes_ok(m, stack, names));
                lemma_writes_then(g, g1, m, stack, names);
                let sc1 = Scope { names: names.insert(bs[i].0, slot), ..sc };
                lemma_let_writes(bs, i + 1, stack + 1, sc1, g1m);
                match cg_let(bs, i + 1, stack + 1, sc1, g1m) {
                    Ok((h, stack2, sc2)) => {
                        assert(scope_within(sc1.names, names, stack)) by {
                            assert forall|n: Seq<char>| #[trigger] sc1.names.contains_key(n) implies (
                            sc1.names[n] matches ValV::RegOffset(_, k) && k >= stack) || exists|
                                m: Seq<char>,
                            | #[trigger] names.contains_key(m) && names[m] == sc1.names[n] by {
                                if n != bs[i].0 {
                                    assert(names.contains_key(n) && names[n] == sc1.names[n]);
                                }
                            }
                        }
                        lemma_writes_widen(added(g1m, h), stack + 1, sc1.names, stack, names);
                        lemma_writes_chain(g, g1m, h, stack, names);
                        lemma_scope_within_trans(sc2.names, sc1.names, names, stack + 1, stack);
                    },
                    Err(_) => {},
                }
            },
            Err(_) => {},
        }
    }
}

/// `cg_block` over the expressions `es[i..]` writes only from `stack` up
/// or in the places of variables in scope.
pub proof fn lemma_block_writes(es: Seq<ExprV>, i: int, stack: int, sc: Scope, g: Gen)
    requires
        exprs_programs(es, i) == 0,
        i64::MIN <= stack,
        stack + exprs_size(es, i) <= i64::MAX,
    ensures
        cg_block(es, i, stack, sc, g) matches Ok(h) ==> grows(g, h) && writes_ok(
            added(g, h),
            stack,
            sc.names,
        ),
    decreases es, es.len() - i,
{
    if i < 0 || i >= es.len() {
        lemma_grows_by(g, g, Seq::empty());
    } else {
        lemma_cg_writes(es[i], stack, sc, g);
        match cg(es[i], stack, sc, g) {
            Ok(g1) => {
                lemma_block_writes(es, i + 1, stack, sc, g1);
                match cg_block(es, i + 1, stack, sc, g1) {
                    Ok(h) => lemma_writes_chain(g, g1, h, stack, sc.names),
                    Err(_) => {},
                }
            },
            Err(_) => {},
        }
    }
}

/// `cg_regs` over the arguments `args[i..6]` writes only registers and
/// what the arguments' code writes.
pub proof fn lemma_regs_writes(args: Seq<ExprV>, i: int, stack: int, sc: Scope, g: Gen)
    requires
        regs_programs(args, i) == 0,
        i64::MIN <= stack,
        stack + regs_size(args, i) <= i64::MAX,
    ensures
        cg_regs(args, i, stack, sc, g) matches Ok(h) ==> grows(g, h) && writes_ok(
            added(g, h),
            stack,
            sc.names,
        ),
    decreases args, args.len() - i,
{
    let names = sc.names;
    if i < 0 || i >= args.len() || i >= 6 {
        lemma_grows_by(g, g, Seq::empty());
    } else {
        lemma_cg_writes(args[i], stack, sc, g);
        match cg(args[i], stack, sc, g) {
            Ok(g1) => {
                let m = seq![mov(reg(arg_reg(i)), reg(Register::RAX))];
                let g1m = emit(g1, m);
                assert(writes_ok(m, stack, names));
                lemma_writes_then(g, g1, m, stack, names);
                lemma_regs_writes(args, i + 1, stack, sc, g1m);
                match cg_regs(args, i + 1, stack, sc, g1m) {
                    Ok(h) => lemma_writes_chain(g, g1m, h, stack, names),
                    Err(_) => {},
                }
            },
            Err(_) => {},
        }
    }
}

/// `cg_spill` over the arguments `args[i]` down to `args[5]`, pushed from
/// slot `stk` up, writes only from `stk` up or in the places of variables
/// in scope.
pub proof fn lemma_spill_writes(args: Seq<ExprV>, i: int, stk: int, sc: Scope, g: Gen)
    requires
        spill_programs(args, i) == 0,
        i64::MIN <= stk,
        stk + spill_size(args, i) <= i64::MAX,
    ensures
        cg_spill(args, i, stk, sc, g) matches Ok((h, _)) ==> grows(g, h) && writes_ok(
            added(g, h),
            stk,
            sc.names,
        ),
    decreases args, i + 1,
{
    let names = sc.names;
    if i < 5 || i >= args.len() {
        lemma_grows_by(g, g, Seq::empty());
    } else {
        lemma_cg_writes(args[i], stk, sc, g);
        match cg(args[i], stk, sc, g) {
            Ok(g1) => {
                let m = seq![mov(ValV::RegOffset(Register::RSP, stk as i64), reg(Register::RAX))];
                let g1m = emit(g1, m);
                assert(writes_ok(m, stk, names));
                lemma_writes_then(g, g1, m, stk, names);
                assert(expr_size(args[i]) >= 1);
                lemma_spill_writes(args, i - 1, stk + 1, sc, g1m);
                match cg_spill(args, i - 1, stk + 1, sc, g1m) {
                    Ok((h, _)) => {
                        lemma_scope_within_refl(names, stk);
                        lemma_writes_widen(added(g1m, h), stk + 1, names, stk, names);
                        lemma_writes_chain(g, g1m, h, stk, names);
                    },
                    Err(_) => {},
                }
            },
            Err(_) => {},
        }
    }
}

/// Code for an expression writes memory only in the stack slots from its
/// free slot `stack` up, where its temporaries and `let` variables go, or
/// in the place of a variable already in scope, which only `set!` writes:
/// evaluating an expression never overwrites a variable of the code around
/// it. Every slot it takes must fit in an `i64`. Left out: an expression
/// with a `Program` node, whose functions are compiled with stack slots of
/// their own.
pub proof fn lemma_writes_above(e: ExprV, stack: int, sc: Scope, g: Gen)
    requires
        programs(e) == 0,
        i64::MIN <= stack,
        stack + expr_size(e) <= i64::MAX,
    ensures
        cg(e, stack, sc, g) matches Ok(h) ==> writes_ok(added(g, h), stack, sc.names),
{
    lemma_cg_writes(e, stack, sc, g);
}

} // verus!
