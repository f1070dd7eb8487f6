//! Where compiled code jumps and calls to, and the proof that each such
//! label is one the code defines or one of the runtime's error handlers.
use vstd::prelude::*;

use crate::codegen::{
    arg_reg, binary_tail, cg, cg_block, cg_def, cg_defs, cg_let, cg_regs, cg_spill, cg_zero_op,
    check_num, emit, label, mov, param_scope, reg, unary_tail, Gen, Scope, STACK_BASE,
};
use crate::labels::{added, grows};
use crate::text::decimal;
use crate::types::{BinaryOp, ExprV, InstrV, Register, UnitaryOp, ValV, ZeroOpV};

verus! {

/// The label that an instruction jumps to or calls, where it does.
pub open spec fn target(i: InstrV) -> Option<Seq<char>> {
    match i {
        InstrV::Jmp(ValV::Label(t)) => Some(t),
        InstrV::Je(ValV::Label(t)) => Some(t),
        InstrV::Jo(ValV::Label(t)) => Some(t),
        InstrV::Jnz(ValV::Label(t)) => Some(t),
        InstrV::Call(ValV::Label(t)) => Some(t),
        _ => None,
    }
}

/// The runtime's error handlers, which compiled code jumps to but does not
/// define.
pub open spec fn handler(t: Seq<char>) -> bool {
    t == "overflow"@ || t == "expect_numeric"@
}

/// Whether `code` defines the label that `t` names (`t` and a colon).
pub open spec fn defines(code: Seq<InstrV>, t: Seq<char>) -> bool {
    exists|i: int| 0 <= i < code.len() && #[trigger] code[i] == InstrV::ILabel(ValV::Label(t + ":"@))
}

/// Every jump or call in `code` goes to a runtime handler or to a label
/// that `code` defines.
pub open spec fn targets_defined(code: Seq<InstrV>) -> bool {
    forall|i: int|
        0 <= i < code.len() && (#[trigger] target(code[i])) is Some ==> handler(target(code[i])->0)
            || defines(code, target(code[i])->0)
}

/// Where a jump in a stretch of code may go: to a handler, to a label the
/// stretch defines, to the end of the enclosing loop `brk` (where there is
/// one), or to a function named in `names`.
pub open spec fn reaches(t: Seq<char>, code: Seq<InstrV>, brk: Seq<char>, names: Set<Seq<char>>) -> bool {
    ||| handler(t)
    ||| defines(code, t)
    ||| (brk.len() > 0 && t == "end_"@ + brk)
    ||| exists|n: Seq<char>| #[trigger] names.contains(n) && t == "def_"@ + n
}

/// Every jump or call in `code` reaches, as above.
pub open spec fn targets_reach(code: Seq<InstrV>, brk: Seq<char>, names: Set<Seq<char>>) -> bool {
    forall|i: int|
        0 <= i < code.len() && (#[trigger] target(code[i])) is Some ==> reaches(
            target(code[i])->0,
            code,
            brk,
            names,
        )
}

/// The step from `g` to `h`, inside the loop whose label is `brk` (empty
/// outside a loop), appends code whose jumps reach, and which defines the
/// label of each function it adds.
pub open spec fn closed(g: Gen, h: Gen, brk: Seq<char>) -> bool {
    &&& grows(g, h)
    &&& targets_reach(added(g, h), brk, h.defs.dom())
    &&& forall|n: Seq<char>|
        #[trigger] h.defs.contains_key(n) && !g.defs.contains_key(n) ==> defines(
            added(g, h),
            "def_"@ + n,
        )
}

/// What `a` defines, `a` with code on either side defines too.
pub proof fn lemma_defines_extend(a: Seq<InstrV>, b: Seq<InstrV>, t: Seq<char>)
    ensures
        defines(a, t) ==> defines(a + b, t),
        defines(b, t) ==> defines(a + b, t),
{
    if defines(a, t) {
        let i = choose|i: int| 0 <= i < a.len() && #[trigger] a[i] == InstrV::ILabel(ValV::Label(t + ":"@));
        assert((a + b)[i] == a[i]);
    }
    if defines(b, t) {
        let i = choose|i: int| 0 <= i < b.len() && #[trigger] b[i] == InstrV::ILabel(ValV::Label(t + ":"@));
        assert((a + b)[a.len() + i] == b[i]);
    }
}

/// A jump that reaches from `a` reaches from `a` with code on either side,
/// and with more functions defined.
pub proof fn lemma_reaches_extend(
    t: Seq<char>,
    a: Seq<InstrV>,
    b: Seq<InstrV>,
    brk: Seq<char>,
    n1: Set<Seq<char>>,
    n2: Set<Seq<char>>,
)
    requires
        n1.subset_of(n2),
    ensures
        reaches(t, a, brk, n1) ==> reaches(t, a + b, brk, n2),
        reaches(t, b, brk, n1) ==> reaches(t, a + b, brk, n2),
{
    lemma_defines_extend(a, b, t);
    if exists|n: Seq<char>| n1.contains(n) && t == "def_"@ + n {
        let n = choose|n: Seq<char>| n1.contains(n) && t == "def_"@ + n;
        assert(n2.contains(n));
    }
}

/// Two steps one after the other, inside one loop.
pub proof fn lemma_closed_chain(g: Gen, g1: Gen, g2: Gen, brk: Seq<char>)
    requires
        closed(g, g1, brk),
        closed(g1, g2, brk),
    ensures
        closed(g, g2, brk),
{
    let n = g.code.len() as int;
    let n1 = g1.code.len() as int;
    assert forall|i: int| 0 <= i < n1 implies g2.code[i] == g1.code[i] by {
        assert(g2.code.subrange(0, n1)[i] == g2.code[i]);
    }
    assert forall|i: int| 0 <= i < n implies g1.code[i] == g.code[i] by {
        assert(g1.code.subrange(0, n)[i] == g1.code[i]);
    }
    assert(g2.code.subrange(0, n) =~= g.code);
    let a = added(g, g1);
    let b = added(g1, g2);
    assert(added(g, g2) =~= a + b);
    let c = a + b;
    assert forall|i: int| 0 <= i < c.len() && (#[trigger] target(c[i])) is Some implies reaches(
        target(c[i])->0,
        c,
        brk,
        g2.defs.dom(),
    ) by {
        if i < a.len() {
            assert(c[i] == a[i]);
            lemma_reaches_extend(target(c[i])->0, a, b, brk, g1.defs.dom(), g2.defs.dom());
        } else {
            assert(c[i] == b[i - a.len()]);
            lemma_reaches_extend(target(c[i])->0, a, b, brk, g2.defs.dom(), g2.defs.dom());
        }
    }
    assert forall|m: Seq<char>| #[trigger]
        g2.defs.contains_key(m) && !g.defs.contains_key(m) implies defines(c, "def_"@ + m) by {
        lemma_defines_extend(a, b, "def_"@ + m);
        if !g1.defs.contains_key(m) {
            assert(defines(b, "def_"@ + m));
        } else {
            assert(defines(a, "def_"@ + m));
        }
    }
}

/// A step that appends code whose jumps reach by themselves and which adds
/// no function.
pub proof fn lemma_closed_plain(g: Gen, h: Gen, s: Seq<InstrV>, brk: Seq<char>)
    requires
        targets_reach(s, brk, h.defs.dom()),
        h.code == g.code + s,
        g.uid <= h.uid,
        h.defs == g.defs,
    ensures
        closed(g, h, brk),
{
    assert(added(g, h) =~= s);
    assert(h.code.subrange(0, g.code.len() as int) =~= g.code);
}

/// No step at all.
pub proof fn lemma_closed_stay(g: Gen, brk: Seq<char>)
    ensures
        closed(g, g, brk),
{
    assert(added(g, g) =~= Seq::empty());
    assert(g.code.subrange(0, g.code.len() as int) =~= g.code);
}

/// A step, then code whose jumps reach by themselves.
pub proof fn lemma_closed_then(g: Gen, g1: Gen, s: Seq<InstrV>, brk: Seq<char>)
    requires
        closed(g, g1, brk),
        targets_reach(s, brk, g1.defs.dom()),
    ensures
        closed(g, emit(g1, s), brk),
{
    lemma_closed_plain(g1, emit(g1, s), s, brk);
    lemma_closed_chain(g, g1, emit(g1, s), brk);
}

/// `a` then `b`, each of whose jumps reach, has jumps that reach.
pub proof fn lemma_reach_add(a: Seq<InstrV>, b: Seq<InstrV>, brk: Seq<char>, names: Set<Seq<char>>)
    requires
        targets_reach(a, brk, names),
        targets_reach(b, brk, names),
    ensures
        targets_reach(a + b, brk, names),
{
    let c = a + b;
    assert forall|i: int| 0 <= i < c.len() && (#[trigger] target(c[i])) is Some implies reaches(
        target(c[i])->0,
        c,
        brk,
        names,
    ) by {
        lemma_reaches_extend(target(c[i])->0, a, b, brk, names, names);
        if i < a.len() {
            assert(c[i] == a[i]);
        } else {
            assert(c[i] == b[i - a.len()]);
        }
    }
}

/// A jump that reaches from `m` reaches from `m` with code on both sides.
pub proof fn lemma_reaches_mid(
    t: Seq<char>,
    p: Seq<InstrV>,
    m: Seq<InstrV>,
    q: Seq<InstrV>,
    brk: Seq<char>,
    n1: Set<Seq<char>>,
    n2: Set<Seq<char>>,
)
    requires
        reaches(t, m, brk, n1),
        n1.subset_of(n2),
    ensures
        reaches(t, p + m + q, brk, n2),
{
    lemma_reaches_extend(t, p, m, brk, n1, n1);
    lemma_reaches_extend(t, p + m, q, brk, n1, n2);
}

/// The code that operators emit around their operands jumps only to the
/// runtime's handlers, or for `break` to the end of its loop.
pub proof fn lemma_tails_reach(
    b: BinaryOp,
    u: UnitaryOp,
    z: ZeroOpV,
    sc: Scope,
    brk: Seq<char>,
    names: Set<Seq<char>>,
)
    ensures
        targets_reach(binary_tail(b), brk, names),
        unary_tail(u, sc) matches Ok(c) ==> targets_reach(c, sc.break_label, names),
        cg_zero_op(z, sc) matches Ok(c) ==> targets_reach(c, brk, names),
{
    let rax = ValV::Reg(Register::RAX);
    let rbx = ValV::Reg(Register::RBX);
    let over = InstrV::Jo(label("overflow"@));
    assert(targets_reach(check_num(Register::RAX), brk, names));
    assert(targets_reach(check_num(Register::RBX), brk, names));
    lemma_reach_add(check_num(Register::RAX), check_num(Register::RBX), brk, names);
    let both = check_num(Register::RAX) + check_num(Register::RBX);
    match b {
        BinaryOp::Equal => {
            let front = seq![
                InstrV::Xor(rbx, rax),
                InstrV::IMov(ValV::Reg(Register::RBP), ValV::ValTrue),
                InstrV::IMov(rax, ValV::ValFalse),
                InstrV::Cmovz(rax, ValV::Reg(Register::RBP)),
            ];
            assert(targets_reach(front, brk, names));
            lemma_reach_add(front, check_num(Register::RBX), brk, names);
        },
        BinaryOp::Plus => {
            let rest = seq![InstrV::IAdd(rax, rbx), over];
            assert(targets_reach(rest, brk, names));
            lemma_reach_add(both, rest, brk, names);
        },
        BinaryOp::Minus => {
            let rest = seq![InstrV::ISub(rax, rbx), over];
            assert(targets_reach(rest, brk, names));
            lemma_reach_add(both, rest, brk, names);
        },
        BinaryOp::Times => {
            let rest = seq![
                InstrV::Sar(rax, ValV::Imm(1)),
                InstrV::Sar(rbx, ValV::Imm(1)),
                InstrV::IMul(rax, rbx),
                over,
                InstrV::Sal(rax, ValV::Imm(1)),
                over,
            ];
            assert(targets_reach(rest, brk, names));
            lemma_reach_add(both, rest, brk, names);
        },
        _ => {
            let last = match b {
                BinaryOp::Greater => InstrV::Cmovg(rax, rbx),
                BinaryOp::GreaterEqual => InstrV::Cmovge(rax, rbx),
                BinaryOp::Less => InstrV::Cmovl(rax, rbx),
                _ => InstrV::Cmovle(rax, rbx),
            };
            let rest = seq![
                InstrV::Cmp(rax, rbx),
                InstrV::IMov(rax, ValV::ValFalse),
                InstrV::IMov(rbx, ValV::ValTrue),
                last,
            ];
            assert(targets_reach(rest, brk, names));
            lemma_reach_add(both, rest, brk, names);
        },
    }
    let bl = sc.break_label;
    assert(targets_reach(check_num(Register::RAX), bl, names));
    match u {
        UnitaryOp::Add1 => {
            let rest = seq![InstrV::IAdd(rax, ValV::Imm(2)), over];
            assert(targets_reach(rest, bl, names));
            lemma_reach_add(check_num(Register::RAX), rest, bl, names);
        },
        UnitaryOp::Sub1 => {
            let rest = seq![InstrV::ISub(rax, ValV::Imm(2)), over];
            assert(targets_reach(rest, bl, names));
            lemma_reach_add(check_num(Register::RAX), rest, bl, names);
        },
        _ => {},
    }
}

/// A parameter scope keeps the loop it is in.
pub proof fn lemma_param_scope_break(params: Seq<Seq<char>>, i: int, sc: Scope)
    ensures
        param_scope(params, i, sc) matches Ok(s) ==> s.break_label == sc.break_label,
    decreases params.len() - i,
{
    if 0 <= i < params.len() && !sc.names.contains_key(params[i]) {
        lemma_param_scope_break(
            params,
            i + 1,
            Scope { names: sc.names.insert(params[i], crate::codegen::param_loc(i)), ..sc },
        );
    }
}

/// A loop: its head, its body (whose `break`s leave to its end), the jump
/// back to the head and its end.
pub proof fn lemma_closed_loop(g: Gen, g1: Gen, g2: Gen, g3: Gen, brk: Seq<char>)
    requires
        g1 == (Gen {
            uid: g.uid + 1,
            code: g.code + seq![
                InstrV::ILabel(label("loop_"@ + decimal(g.uid + 1) + ":"@)),
            ],
            ..g
        }),
        closed(g1, g2, "loop_"@ + decimal(g.uid + 1)),
        g3 == emit(
            g2,
            seq![
                InstrV::Jmp(label("loop_"@ + decimal(g.uid + 1))),
                InstrV::ILabel(label("end_"@ + ("loop_"@ + decimal(g.uid + 1)) + ":"@)),
            ],
        ),
    ensures
        closed(g, g3, brk),
{
    let name = "loop_"@ + decimal(g.uid + 1);
    let p = seq![InstrV::ILabel(label(name + ":"@))];
    let m = added(g1, g2);
    let q = seq![InstrV::Jmp(label(name)), InstrV::ILabel(label("end_"@ + name + ":"@))];
    let c = p + m + q;
    assert(g2.code.subrange(0, g1.code.len() as int) == g1.code);
    assert forall|i: int| 0 <= i < g.code.len() implies g3.code[i] == g.code[i] by {
        assert(g2.code.subrange(0, g1.code.len() as int)[i] == g2.code[i]);
        assert(g1.code[i] == g.code[i]);
    }
    assert(g3.code.subrange(0, g.code.len() as int) =~= g.code);
    assert(g2.code =~= g1.code + m);
    assert(g3.code =~= g.code + c);
    assert(added(g, g3) =~= c);
    assert(c[0] == InstrV::ILabel(label(name + ":"@)));
    assert(defines(c, name));
    let last = c.len() - 1;
    assert(c[last] == InstrV::ILabel(label("end_"@ + name + ":"@)));
    assert(defines(c, "end_"@ + name));
    assert forall|i: int| 0 <= i < c.len() && (#[trigger] target(c[i])) is Some implies reaches(
        target(c[i])->0,
        c,
        brk,
        g3.defs.dom(),
    ) by {
        if 1 <= i < 1 + m.len() {
            assert(c[i] == m[i - 1]);
            lemma_reaches_mid(target(c[i])->0, p, m, q, name, g2.defs.dom(), g3.defs.dom());
        } else if i == 1 + m.len() {
            assert(c[i] == q[0]);
        } else if i == 2 + m.len() {
            assert(c[i] == q[1]);
        }
    }
    assert forall|n: Seq<char>| #[trigger]
        g3.defs.contains_key(n) && !g.defs.contains_key(n) implies defines(c, "def_"@ + n) by {
        assert(defines(m, "def_"@ + n));
        lemma_defines_extend(p, m, "def_"@ + n);
        lemma_defines_extend(p + m, q, "def_"@ + n);
    }
}

/// An `if` after its condition: the test, the true branch, the false label,
/// the false branch and the end label; each jump goes to a label of its own.
pub proof fn lemma_closed_if(
    g1: Gen,
    g2: Gen,
    g3: Gen,
    g4: Gen,
    g5: Gen,
    g6: Gen,
    brk: Seq<char>,
)
    requires
        g2 == (Gen {
            uid: g1.uid + 1,
            code: g1.code + seq![
                InstrV::Cmp(ValV::Reg(Register::RAX), ValV::ValFalse),
                InstrV::Je(label("if_false_"@ + decimal(g1.uid + 1))),
            ],
            ..g1
        }),
        closed(g2, g3, brk),
        g4 == emit(
            g3,
            seq![
                InstrV::Jmp(label("end_if_"@ + decimal(g1.uid + 1))),
                InstrV::ILabel(label("if_false_"@ + decimal(g1.uid + 1) + ":"@)),
            ],
        ),
        closed(g4, g5, brk),
        g6 == emit(
            g5,
            seq![
                InstrV::Jmp(label("end_if_"@ + decimal(g1.uid + 1))),
                InstrV::ILabel(label("end_if_"@ + decimal(g1.uid + 1) + ":"@)),
            ],
        ),
    ensures
        closed(g1, g6, brk),
{
    let id = g1.uid + 1;
    let if_false = "if_false_"@ + decimal(id);
    let end_if = "end_if_"@ + decimal(id);
    let p = seq![
        InstrV::Cmp(ValV::Reg(Register::RAX), ValV::ValFalse),
        InstrV::Je(label(if_false)),
    ];
    let b = added(g2, g3);
    let q = seq![InstrV::Jmp(label(end_if)), InstrV::ILabel(label(if_false + ":"@))];
    let c = added(g4, g5);
    let r = seq![InstrV::Jmp(label(end_if)), InstrV::ILabel(label(end_if + ":"@))];
    let x = p + b + q + c + r;
    assert(g3.code =~= g2.code + b);
    assert(g5.code =~= g4.code + c);
    assert(g6.code =~= g1.code + x);
    assert(g6.code.subrange(0, g1.code.len() as int) =~= g1.code);
    assert(added(g1, g6) =~= x);
    let lb = b.len() as int;
    let lc = c.len() as int;
    assert(x[3 + lb] == q[1]);
    assert(defines(x, if_false));
    assert(x[5 + lb + lc] == r[1]);
    assert(defines(x, end_if));
    assert(x =~= p + b + (q + c + r));
    assert(x =~= (p + b + q) + c + r);
    assert forall|i: int| 0 <= i < x.len() && (#[trigger] target(x[i])) is Some implies reaches(
        target(x[i])->0,
        x,
        brk,
        g6.defs.dom(),
    ) by {
        if i < 2 {
            assert(x[i] == p[i]);
        } else if i < 2 + lb {
            assert(x[i] == b[i - 2]);
            lemma_reaches_mid(target(x[i])->0, p, b, q + c + r, brk, g3.defs.dom(), g6.defs.dom());
        } else if i < 4 + lb {
            assert(x[i] == q[i - 2 - lb]);
        } else if i < 4 + lb + lc {
            assert(x[i] == c[i - 4 - lb]);
            lemma_reaches_mid(target(x[i])->0, p + b + q, c, r, brk, g5.defs.dom(), g6.defs.dom());
        } else {
            assert(x[i] == r[i - 4 - lb - lc]);
        }
    }
    assert forall|n: Seq<char>| #[trigger]
        g6.defs.contains_key(n) && !g1.defs.contains_key(n) implies defines(x, "def_"@ + n) by {
        let t = "def_"@ + n;
        if g3.defs.contains_key(n) {
            assert(defines(b, t));
            lemma_defines_extend(p, b, t);
            lemma_defines_extend(p + b, q + c + r, t);
        } else {
            assert(defines(c, t));
            lemma_defines_extend(p + b + q, c, t);
            lemma_defines_extend(p + b + q + c, r, t);
        }
    }
}

/// A function: its label, its body (outside any loop) and the return.
pub proof fn lemma_closed_def(
    g: Gen,
    g1: Gen,
    g2: Gen,
    g3: Gen,
    name: Seq<char>,
    arity: nat,
    brk: Seq<char>,
)
    requires
        g1 == (Gen {
            defs: g.defs.insert(name, arity),
            code: g.code + seq![InstrV::ILabel(label("def_"@ + name + ":"@))],
            ..g
        }),
        closed(g1, g2, Seq::empty()),
        g3 == emit(g2, seq![InstrV::Ret]),
    ensures
        closed(g, g3, brk),
{
    let p = seq![InstrV::ILabel(label("def_"@ + name + ":"@))];
    let b = added(g1, g2);
    let r = seq![InstrV::Ret];
    let x = p + b + r;
    assert(g2.code =~= g1.code + b);
    assert(g3.code =~= g.code + x);
    assert(g3.code.subrange(0, g.code.len() as int) =~= g.code);
    assert(added(g, g3) =~= x);
    assert(x[0] == p[0]);
    assert(defines(x, "def_"@ + name));
    assert forall|i: int| 0 <= i < x.len() && (#[trigger] target(x[i])) is Some implies reaches(
        target(x[i])->0,
        x,
        brk,
        g3.defs.dom(),
    ) by {
        if 1 <= i < 1 + b.len() {
            assert(x[i] == b[i - 1]);
            lemma_reaches_mid(
                target(x[i])->0,
                p,
                b,
                r,
                Seq::empty(),
                g2.defs.dom(),
                g3.defs.dom(),
            );
        } else if i == 0 {
            assert(x[i] == p[0]);
        } else {
            assert(x[i] == r[0]);
        }
    }
    assert forall|n: Seq<char>| #[trigger]
        g3.defs.contains_key(n) && !g.defs.contains_key(n) implies defines(x, "def_"@ + n) by {
        if n != name {
            assert(defines(b, "def_"@ + n));
            lemma_defines_extend(p, b, "def_"@ + n);
            lemma_defines_extend(p + b, r, "def_"@ + n);
        }
    }
}

/// Code generation of `e`, where it succeeds, appends code whose jumps
/// reach from within it (or leave the loop around it), and which defines
/// the label of each function it adds.
#[verifier::rlimit(80)]
pub proof fn lemma_cg_closed(e: ExprV, stack: int, sc: Scope, g: Gen)
    ensures
        cg(e, stack, sc, g) matches Ok(h) ==> closed(g, h, sc.break_label),
    decreases e, 0int,
{
    let rax = reg(Register::RAX);
    let brk = sc.break_label;
    match e {
        ExprV::EZeroOp(op) => {
            lemma_tails_reach(BinaryOp::Plus, UnitaryOp::Add1, op, sc, brk, g.defs.dom());
            match cg_zero_op(op, sc) {
                Ok(c) => {
                    lemma_closed_stay(g, brk);
                    lemma_closed_then(g, g, c, brk);
                },
                Err(_) => {},
            }
        },
        ExprV::EUnitaryOp(op, x) => {
            if op == UnitaryOp::Loop {
                let id = g.uid + 1;
                let name = "loop_"@ + decimal(id);
                let g1 = Gen { uid: id, code: g.code + seq![InstrV::ILabel(label(name + ":"@))], ..g };
                let sc1 = Scope { break_label: name, ..sc };
                lemma_cg_closed(*x, stack, sc1, g1);
                match cg(*x, stack, sc1, g1) {
                    Ok(g2) => {
                        let g3 = emit(
                            g2,
                            seq![
                                InstrV::Jmp(label(name)),
                                InstrV::ILabel(label("end_"@ + name + ":"@)),
                            ],
                        );
                        lemma_closed_loop(g, g1, g2, g3, brk);
                    },
                    Err(_) => {},
                }
            } else {
                lemma_cg_closed(*x, stack, sc, g);
                match cg(*x, stack, sc, g) {
                    Ok(g1) => {
                        lemma_tails_reach(BinaryOp::Plus, op, ZeroOpV::OpTrue, sc, brk, g1.defs.dom());
                        match unary_tail(op, sc) {
                            Ok(c) => lemma_closed_then(g, g1, c, brk),
                            Err(_) => {},
                        }
                    },
                    Err(_) => {},
                }
            }
        },
        ExprV::EBinaryOp(op, x, y) => {
            lemma_cg_closed(*y, stack, sc, g);
            match cg(*y, stack, sc, g) {
                Ok(g1) => {
                    let slot = ValV::RegOffset(Register::RSP, stack as i64);
                    let m = seq![mov(slot, rax)];
                    let g1m = emit(g1, m);
                    assert(targets_reach(m, brk, g1.defs.dom()));
                    lemma_closed_then(g, g1, m, brk);
                    lemma_cg_closed(*x, stack + 1, sc, g1m);
                    match cg(*x, stack + 1, sc, g1m) {
                        Ok(g2) => {
                            lemma_closed_chain(g, g1m, g2, brk);
                            lemma_tails_reach(op, UnitaryOp::Add1, ZeroOpV::OpTrue, sc, brk, g2.defs.dom());
                            let front = seq![mov(reg(Register::RBX), slot)];
                            assert(targets_reach(front, brk, g2.defs.dom()));
                            lemma_reach_add(front, binary_tail(op), brk, g2.defs.dom());
                            lemma_closed_then(g, g2, front + binary_tail(op), brk);
                        },
                        Err(_) => {},
                    }
                },
                Err(_) => {},
            }
        },
        ExprV::Let(bs, body) => {
            lemma_let_closed(bs, 0, stack, sc, g);
            match cg_let(bs, 0, stack, sc, g) {
                Ok((g1, stack1, sc1)) => {
                    lemma_cg_closed(*body, stack1, sc1, g1);
                    match cg(*body, stack1, sc1, g1) {
                        Ok(g2) => lemma_closed_chain(g, g1, g2, brk),
                        Err(_) => {},
                    }
                },
                Err(_) => {},
            }
        },
        ExprV::SetBinding(name, x) => {
            lemma_cg_closed(*x, stack, sc, g);
            match cg(*x, stack, sc, g) {
                Ok(g1) => {
                    if sc.names.contains_key(name) {
                        let m = seq![mov(sc.names[name], rax)];
                        assert(targets_reach(m, brk, g1.defs.dom()));
                        lemma_closed_then(g, g1, m, brk);
                    }
                },
                Err(_) => {},
            }
        },
        ExprV::If(c, t, f) => {
            lemma_cg_closed(*c, stack, sc, g);
            match cg(*c, stack, sc, g) {
                Ok(g1) => {
                    let id = g1.uid + 1;
                    let if_false = "if_false_"@ + decimal(id);
                    let end_if = "end_if_"@ + decimal(id);
                    let g2 = Gen {
                        uid: id,
                        code: g1.code + seq![
                            InstrV::Cmp(rax, ValV::ValFalse),
                            InstrV::Je(label(if_false)),
                        ],
                        ..g1
                    };
                    lemma_cg_closed(*t, stack, sc, g2);
                    match cg(*t, stack, sc, g2) {
                        Ok(g3) => {
                            let g4 = emit(
                                g3,
                                seq![
                                    InstrV::Jmp(label(end_if)),
                                    InstrV::ILabel(label(if_false + ":"@)),
                                ],
                            );
                            lemma_cg_closed(*f, stack, sc, g4);
                            match cg(*f, stack, sc, g4) {
                                Ok(g5) => {
                                    let g6 = emit(
                                        g5,
                                        seq![
                                            InstrV::Jmp(label(end_if)),
                                            InstrV::ILabel(label(end_if + ":"@)),
                                        ],
                                    );
                                    lemma_closed_if(g1, g2, g3, g4, g5, g6, brk);
                                    lemma_closed_chain(g, g1, g6, brk);
                                },
                                Err(_) => {},
                            }
                        },
                        Err(_) => {},
                    }
                },
                Err(_) => {},
            }
        },
        ExprV::Block(es) => {
            lemma_block_closed(es, 0, stack, sc, g);
        },
        ExprV::FuncDef(_, _, _) => {},
        ExprV::FuncCall(name, args) => {
            lemma_regs_closed(args, 0, stack, sc, g);
            match cg_regs(args, 0, stack, sc, g) {
                Ok(g1) => {
                    lemma_spill_closed(args, args.len() - 2, stack, sc, g1);
                    match cg_spill(args, args.len() - 2, stack, sc, g1) {
                        Ok((g2, stk)) => {
                            if g2.defs.contains_key(name) && g2.defs[name] == args.len() {
                                lemma_closed_chain(g, g1, g2, brk);
                                let rsp = reg(Register::RSP);
                                let tail = seq![
                                    InstrV::IAdd(rsp, ValV::Imm((8 * stk) as i64)),
                                    InstrV::Call(label("def_"@ + name)),
                                    InstrV::ISub(rsp, ValV::Imm((8 * stk) as i64)),
                                ];
                                assert(g2.defs.dom().contains(name));
                                assert(targets_reach(tail, brk, g2.defs.dom()));
                                lemma_closed_then(g, g2, tail, brk);
                            }
                        },
                        Err(_) => {},
                    }
                },
                Err(_) => {},
            }
        },
        ExprV::Program(defs, body) => {
            lemma_defs_closed(defs, 0, g, brk);
            match cg_defs(defs, 0, g) {
                Ok(g1) => {
                    let entry = seq![InstrV::ILabel(label("our_code_starts_here:"@))];
                    let g2 = emit(g1, entry);
                    assert(targets_reach(entry, brk, g1.defs.dom()));
                    lemma_closed_then(g, g1, entry, brk);
                    lemma_cg_closed(*body, stack, sc, g2);
                    match cg(*body, stack, sc, g2) {
                        Ok(g3) => {
                            lemma_closed_chain(g, g2, g3, brk);
                            assert(targets_reach(seq![InstrV::Ret], brk, g3.defs.dom()));
                            lemma_closed_then(g, g3, seq![InstrV::Ret], brk);
                        },
                        Err(_) => {},
                    }
                },
                Err(_) => {},
            }
        },
    }
}

/// `cg_let` over the bindings `bs[i..]` appends closed code and keeps the
/// loop it is in.
pub proof fn lemma_let_closed(
    bs: Seq<(Seq<char>, ExprV)>,
    i: int,
    stack: int,
    sc: Scope,
    g: Gen,
)
    ensures
        cg_let(bs, i, stack, sc, g) matches Ok((h, _, sc1)) ==> closed(g, h, sc.break_label)
            && sc1.break_label == sc.break_label,
    decreases bs, bs.len() - i,
{
    let brk = sc.break_label;
    if i < 0 || i >= bs.len() {
        lemma_closed_stay(g, brk);
    } else {
        lemma_cg_closed(bs[i].1, stack, sc, g);
        match cg(bs[i].1, stack, sc, g) {
            Ok(g1) => {
                let slot = ValV::RegOffset(Register::RSP, stack as i64);
                let m = seq![mov(slot, reg(Register::RAX))];
                let g1m = emit(g1, m);
                assert(targets_reach(m, brk, g1.defs.dom()));
                lemma_closed_then(g, g1, m, brk);
                let sc1 = Scope { names: sc.names.insert(bs[i].0, slot), ..sc };
                lemma_let_closed(bs, i + 1, stack + 1, sc1, g1m);
                match cg_let(bs, i + 1, stack + 1, sc1, g1m) {
                    Ok((h, _, _)) => lemma_closed_chain(g, g1m, h, brk),
                    Err(_) => {},
                }
            },
            Err(_) => {},
        }
    }
}

/// `cg_block` over the expressions `es[i..]` appends closed code.
pub proof fn lemma_block_closed(es: Seq<ExprV>, i: int, stack: int, sc: Scope, g: Gen)
    ensures
        cg_block(es, i, stack, sc, g) matches Ok(h) ==> closed(g, h, sc.break_label),
    decreases es, es.len() - i,
{
    if i < 0 || i >= es.len() {
        lemma_closed_stay(g, sc.break_label);
    } else {
        lemma_cg_closed(es[i], stack, sc, g);
        match cg(es[i], stack, sc, g) {
            Ok(g1) => {
                lemma_block_closed(es, i + 1, stack, sc, g1);
                match cg_block(es, i + 1, stack, sc, g1) {
                    Ok(h) => lemma_closed_chain(g, g1, h, sc.break_label),
                    Err(_) => {},
                }
            },
            Err(_) => {},
        }
    }
}

/// `cg_regs` over the arguments `args[i..6]` appends closed code.
pub proof fn lemma_regs_closed(args: Seq<ExprV>, i: int, stack: int, sc: Scope, g: Gen)
    ensures
        cg_regs(args, i, stack, sc, g) matches Ok(h) ==> closed(g, h, sc.break_label),
    decreases args, args.len() - i,
{
    let brk = sc.break_label;
    if i < 0 || i >= args.len() || i >= 6 {
        lemma_closed_stay(g, brk);
    } else {
        lemma_cg_closed(args[i], stack, sc, g);
        match cg(args[i], stack, sc, g) {
            Ok(g1) => {
                let m = seq![mov(reg(arg_reg(i)), reg(Register::RAX))];
                let g1m = emit(g1, m);
                assert(targets_reach(m, brk, g1.defs.dom()));
                lemma_closed_then(g, g1, m, brk);
                lemma_regs_closed(args, i + 1, stack, sc, g1m);
                match cg_regs(args, i + 1, stack, sc, g1m) {
                    Ok(h) => lemma_closed_chain(g, g1m, h, brk),
                    Err(_) => {},
                }
            },
            Err(_) => {},
        }
    }
}

/// `cg_spill` over the arguments `args[i]` down to `args[5]` appends
/// closed code.
pub proof fn lemma_spill_closed(args: Seq<ExprV>, i: int, stk: int, sc: Scope, g: Gen)
    ensures
        cg_spill(args, i, stk, sc, g) matches Ok((h, _)) ==> closed(g, h, sc.break_label),
    decreases args, i + 1,
{
    let brk = sc.break_label;
    if i < 5 || i >= args.len() {
        lemma_closed_stay(g, brk);
    } else {
        lemma_cg_closed(args[i], stk, sc, g);
        match cg(args[i], stk, sc, g) {
            Ok(g1) => {
                let m = seq![mov(ValV::RegOffset(Register::RSP, stk as i64), reg(Register::RAX))];
                let g1m = emit(g1, m);
                assert(targets_reach(m, brk, g1.defs.dom()));
                lemma_closed_then(g, g1, m, brk);
                lemma_spill_closed(args, i - 1, stk + 1, sc, g1m);
                match cg_spill(args, i - 1, stk + 1, sc, g1m) {
                    Ok((h, _)) => lemma_closed_chain(g, g1m, h, brk),
                    Err(_) => {},
                }
            },
            Err(_) => {},
        }
    }
}

/// `cg_def` appends closed code, whatever loop it stands in.
pub proof fn lemma_def_closed(d: ExprV, g: Gen, brk: Seq<char>)
    ensures
        cg_def(d, g) matches Ok(h) ==> closed(g, h, brk),
    decreases d, 0int,
{
    match d {
        ExprV::FuncDef(name, params, body) => {
            if !g.defs.contains_key(name) {
                let g1 = Gen {
                    defs: g.defs.insert(name, params.len()),
                    code: g.code + seq![InstrV::ILabel(label("def_"@ + name + ":"@))],
                    ..g
                };
                let sc0 = Scope { func: name, names: Map::empty(), break_label: Seq::empty() };
                lemma_param_scope_break(params, 0, sc0);
                match param_scope(params, 0, sc0) {
                    Ok(sc) => {
                        lemma_cg_closed(*body, STACK_BASE as int, sc, g1);
                        match cg(*body, STACK_BASE as int, sc, g1) {
                            Ok(g2) => {
                                lemma_closed_def(g, g1, g2, emit(g2, seq![InstrV::Ret]), name, params.len(), brk);
                            },
                            Err(_) => {},
                        }
                    },
                    Err(_) => {},
                }
            }
        },
        _ => {},
    }
}

/// `cg_defs` over the definitions `defs[i..]` appends closed code.
pub proof fn lemma_defs_closed(defs: Seq<ExprV>, i: int, g: Gen, brk: Seq<char>)
    ensures
        cg_defs(defs, i, g) matches Ok(h) ==> closed(g, h, brk),
    decreases defs, defs.len() - i,
{
    if i < 0 || i >= defs.len() {
        lemma_closed_stay(g, brk);
    } else {
        lemma_def_closed(defs[i], g, brk);
        match cg_def(defs[i], g) {
            Ok(g1) => {
                lemma_defs_closed(defs, i + 1, g1, brk);
                match cg_defs(defs, i + 1, g1) {
                    Ok(h) => lemma_closed_chain(g, g1, h, brk),
                    Err(_) => {},
                }
            },
            Err(_) => {},
        }
    }
}

/// Every jump and call in compiled code goes to a label the code defines,
/// or to one of the runtime's error handlers (`overflow`,
/// `expect_numeric`): each branch of an `if` to its own labels, `loop`
/// back to its head, `break` to the end of its loop, and each call to a
/// function defined before it. Compiling starts outside any loop, with no
/// code and no function yet.
pub proof fn lemma_jumps_land(e: ExprV, stack: int, sc: Scope, g: Gen)
    requires
        g.code.len() == 0,
        g.defs == Map::<Seq<char>, nat>::empty(),
        sc.break_label.len() == 0,
    ensures
        cg(e, stack, sc, g) matches Ok(h) ==> targets_defined(h.code),
{
    lemma_cg_closed(e, stack, sc, g);
    match cg(e, stack, sc, g) {
        Ok(h) => {
            assert(added(g, h) =~= h.code);
            assert forall|i: int|
                0 <= i < h.code.len() && (#[trigger] target(h.code[i])) is Some implies handler(
                target(h.code[i])->0,
            ) || defines(h.code, target(h.code[i])->0) by {
                let t = target(h.code[i])->0;
                assert(reaches(t, h.code, sc.break_label, h.defs.dom()));
                if exists|n: Seq<char>| h.defs.dom().contains(n) && t == "def_"@ + n {
                    let n = choose|n: Seq<char>| h.defs.dom().contains(n) && t == "def_"@ + n;
                    assert(h.defs.contains_key(n) && !g.defs.contains_key(n));
                }
            }
        },
        Err(_) => {},
    }
}

} // verus!
