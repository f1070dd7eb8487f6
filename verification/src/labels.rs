//! Which labels compiled code defines, and the proof that it defines each
//! one once.
use vstd::prelude::*;

use crate::codegen::{
    binary_tail, cg, cg_block, cg_def, cg_defs, cg_let, cg_regs, cg_spill, cg_zero_op, check_num,
    emit, label, mov, param_scope, reg, unary_tail, arg_reg, Gen, Scope, STACK_BASE,
};
use crate::text::{decimal, lemma_decimal_injective};
use crate::types::{BinaryOp, ExprV, InstrV, Register, UnitaryOp, ValV, ZeroOpV};

verus! {

/// The label that an instruction defines, where it is a label line.
pub open spec fn defined(i: InstrV) -> Option<Seq<char>> {
    match i {
        InstrV::ILabel(ValV::Label(s)) => Some(s),
        _ => None,
    }
}

/// No label is defined twice in `code`.
pub open spec fn labels_distinct(code: Seq<InstrV>) -> bool {
    forall|i: int, j: int|
        0 <= i < j < code.len() && (#[trigger] defined(code[i])) is Some ==> defined(code[i])
            != #[trigger] defined(code[j])
}

/// The numbered labels: the head of loop `k` (kind 0), its end (kind 1),
/// the false branch of `if` number `k` (kind 2) and the end of that `if`
/// (kind 3).
pub open spec fn numbered(kind: int, k: int) -> Seq<char> {
    if kind == 0 {
        "loop_"@ + decimal(k) + ":"@
    } else if kind == 1 {
        "end_"@ + ("loop_"@ + decimal(k)) + ":"@
    } else if kind == 2 {
        "if_false_"@ + decimal(k) + ":"@
    } else {
        "end_if_"@ + decimal(k) + ":"@
    }
}

/// The label of the function `name`.
pub open spec fn def_label(name: Seq<char>) -> Seq<char> {
    "def_"@ + name + ":"@
}

/// The label where the main program starts.
pub open spec fn entry_label() -> Seq<char> {
    "our_code_starts_here:"@
}

/// Where the labels of a stretch of code may come from: numbered labels
/// whose (kind, number) is in `ids`, the labels of the functions in
/// `names`, and the entry label where `entry` holds.
pub struct Origins {
    pub ids: Set<(int, int)>,
    pub names: Set<Seq<char>>,
    pub entry: bool,
}

/// Whether label `s` comes from `o`.
pub open spec fn allowed(s: Seq<char>, o: Origins) -> bool {
    ||| exists|p: (int, int)|
        #![trigger o.ids.contains(p)]
        o.ids.contains(p) && 0 <= p.0 < 4 && s == numbered(p.0, p.1)
    ||| exists|n: Seq<char>| #![trigger o.names.contains(n)] o.names.contains(n) && s == def_label(n)
    ||| o.entry && s == entry_label()
}

/// Every label that `code` defines comes from `o`.
pub open spec fn labels_from(code: Seq<InstrV>, o: Origins) -> bool {
    forall|i: int|
        0 <= i < code.len() && (#[trigger] defined(code[i])) is Some ==> allowed(
            defined(code[i])->0,
            o,
        )
}

/// Two origins that share nothing.
pub open spec fn disjoint(a: Origins, b: Origins) -> bool {
    &&& forall|p: (int, int)| #[trigger] a.ids.contains(p) ==> !b.ids.contains(p)
    &&& forall|n: Seq<char>| #[trigger] a.names.contains(n) ==> !b.names.contains(n)
    &&& !(a.entry && b.entry)
}

/// Everything `a` or `b` allows.
pub open spec fn union(a: Origins, b: Origins) -> Origins {
    Origins { ids: a.ids.union(b.ids), names: a.names.union(b.names), entry: a.entry || b.entry }
}

/// Everything `a` allows, `b` allows too.
pub open spec fn within(a: Origins, b: Origins) -> bool {
    &&& a.ids.subset_of(b.ids)
    &&& a.names.subset_of(b.names)
    &&& a.entry ==> b.entry
}

/// `p + x + ":"` determines `x`.
proof fn lemma_strip(p: Seq<char>, x: Seq<char>, y: Seq<char>)
    requires
        p + x + ":"@ == p + y + ":"@,
    ensures
        x == y,
{
    reveal_strlit(":");
    let l = p + x + ":"@;
    let r = p + y + ":"@;
    assert(l.len() == r.len());
    assert(x =~= l.subrange(p.len() as int, (p.len() + x.len()) as int));
    assert(y =~= r.subrange(p.len() as int, (p.len() + y.len()) as int));
}

/// The first character of each label form, and the fifth of those that
/// start with `end_`.
proof fn lemma_label_heads(kind: int, k: int, n: Seq<char>)
    ensures
        kind == 0 ==> numbered(kind, k)[0] == 'l',
        kind == 1 ==> numbered(kind, k)[0] == 'e' && numbered(kind, k)[4] == 'l',
        kind == 2 ==> numbered(kind, k)[0] == 'i',
        kind == 3 ==> numbered(kind, k)[0] == 'e' && numbered(kind, k)[4] == 'i',
        def_label(n)[0] == 'd',
        entry_label()[0] == 'o',
{
    reveal_strlit("loop_");
    reveal_strlit("end_");
    reveal_strlit("if_false_");
    reveal_strlit("end_if_");
    reveal_strlit("def_");
    reveal_strlit("our_code_starts_here:");
    reveal_strlit(":");
    let d = decimal(k);
    if kind == 1 {
        assert(numbered(kind, k) =~= "end_"@ + ("loop_"@ + d) + ":"@);
        assert(("end_"@ + ("loop_"@ + d))[4] == ("loop_"@ + d)[0]);
    }
}

/// Two labels from origins that share nothing are different.
pub proof fn lemma_allowed_apart(s: Seq<char>, t: Seq<char>, a: Origins, b: Origins)
    requires
        allowed(s, a),
        allowed(t, b),
        disjoint(a, b),
    ensures
        s != t,
{
    if s == t {
        if exists|p: (int, int)| a.ids.contains(p) && 0 <= p.0 < 4 && s == numbered(p.0, p.1) {
            let p = choose|p: (int, int)| a.ids.contains(p) && 0 <= p.0 < 4 && s == numbered(p.0, p.1);
            lemma_label_heads(p.0, p.1, Seq::empty());
            if exists|q: (int, int)| b.ids.contains(q) && 0 <= q.0 < 4 && t == numbered(q.0, q.1) {
                let q = choose|q: (int, int)|
                    b.ids.contains(q) && 0 <= q.0 < 4 && t == numbered(q.0, q.1);
                lemma_label_heads(q.0, q.1, Seq::empty());
                assert(p.0 == q.0);
                lemma_numbered_injective(p.0, p.1, q.1);
                assert(p == q);
            } else if exists|n: Seq<char>| b.names.contains(n) && t == def_label(n) {
                let n = choose|n: Seq<char>| b.names.contains(n) && t == def_label(n);
                lemma_label_heads(p.0, p.1, n);
            } else {
                lemma_label_heads(p.0, p.1, Seq::empty());
            }
        } else if exists|n: Seq<char>| a.names.contains(n) && s == def_label(n) {
            let n = choose|n: Seq<char>| a.names.contains(n) && s == def_label(n);
            if exists|q: (int, int)| b.ids.contains(q) && 0 <= q.0 < 4 && t == numbered(q.0, q.1) {
                let q = choose|q: (int, int)|
                    b.ids.contains(q) && 0 <= q.0 < 4 && t == numbered(q.0, q.1);
                lemma_label_heads(q.0, q.1, n);
            } else if exists|m: Seq<char>| b.names.contains(m) && t == def_label(m) {
                let m = choose|m: Seq<char>| b.names.contains(m) && t == def_label(m);
                lemma_strip("def_"@, n, m);
            } else {
                lemma_label_heads(0, 0, n);
            }
        } else {
            if exists|q: (int, int)| b.ids.contains(q) && 0 <= q.0 < 4 && t == numbered(q.0, q.1) {
                let q = choose|q: (int, int)|
                    b.ids.contains(q) && 0 <= q.0 < 4 && t == numbered(q.0, q.1);
                lemma_label_heads(q.0, q.1, Seq::empty());
            } else if exists|m: Seq<char>| b.names.contains(m) && t == def_label(m) {
                let m = choose|m: Seq<char>| b.names.contains(m) && t == def_label(m);
                lemma_label_heads(0, 0, m);
            }
        }
    }
}

/// A numbered label of one kind determines its number.
proof fn lemma_numbered_injective(kind: int, j: int, k: int)
    requires
        0 <= kind < 4,
        numbered(kind, j) == numbered(kind, k),
    ensures
        j == k,
{
    if kind == 0 {
        lemma_strip("loop_"@, decimal(j), decimal(k));
    } else if kind == 1 {
        assert(numbered(kind, j) =~= ("end_"@ + "loop_"@) + decimal(j) + ":"@);
        assert(numbered(kind, k) =~= ("end_"@ + "loop_"@) + decimal(k) + ":"@);
        lemma_strip("end_"@ + "loop_"@, decimal(j), decimal(k));
    } else if kind == 2 {
        lemma_strip("if_false_"@, decimal(j), decimal(k));
    } else {
        lemma_strip("end_if_"@, decimal(j), decimal(k));
    }
    lemma_decimal_injective(j, k);
}

/// Code that defines no label.
pub open spec fn label_free(s: Seq<InstrV>) -> bool {
    forall|i: int| 0 <= i < s.len() ==> (#[trigger] defined(s[i])) is None
}

/// Nothing allowed.
pub open spec fn no_origins() -> Origins {
    Origins { ids: Set::empty(), names: Set::empty(), entry: false }
}

/// Only the numbered label of `kind` and `k` allowed.
pub open spec fn only(kind: int, k: int) -> Origins {
    Origins { ids: set![(kind, k)], names: Set::empty(), entry: false }
}

/// `h` is `g` with code appended, a label number no smaller and the same
/// functions or more.
pub open spec fn grows(g: Gen, h: Gen) -> bool {
    &&& g.code.len() <= h.code.len()
    &&& h.code.subrange(0, g.code.len() as int) == g.code
    &&& g.uid <= h.uid
    &&& g.defs.dom().subset_of(h.defs.dom())
}

/// The code that `h` has beyond `g`.
pub open spec fn added(g: Gen, h: Gen) -> Seq<InstrV> {
    h.code.skip(g.code.len() as int)
}

/// What the step from `g` to `h` may define: the label numbers it took,
/// the functions it added, and the entry label where `entry` holds.
pub open spec fn origin(g: Gen, h: Gen, entry: bool) -> Origins {
    Origins {
        ids: Set::new(|p: (int, int)| 0 <= p.0 < 4 && g.uid < p.1 <= h.uid),
        names: h.defs.dom().difference(g.defs.dom()),
        entry,
    }
}

/// The step from `g` to `h` appends code that defines each label once,
/// all of them from `o`.
pub open spec fn fresh_with(g: Gen, h: Gen, o: Origins) -> bool {
    &&& grows(g, h)
    &&& labels_distinct(added(g, h))
    &&& labels_from(added(g, h), o)
}

/// Two stretches of code whose labels share no origin define each label
/// once together.
pub proof fn lemma_join(a: Seq<InstrV>, b: Seq<InstrV>, oa: Origins, ob: Origins)
    requires
        labels_distinct(a),
        labels_distinct(b),
        labels_from(a, oa),
        labels_from(b, ob),
        disjoint(oa, ob),
    ensures
        labels_distinct(a + b),
        labels_from(a + b, union(oa, ob)),
{
    let c = a + b;
    assert forall|i: int, j: int|
        0 <= i < j < c.len() && (#[trigger] defined(c[i])) is Some implies defined(c[i])
        != #[trigger] defined(c[j]) by {
        if j < a.len() {
            assert(c[i] == a[i] && c[j] == a[j]);
        } else if i >= a.len() {
            assert(c[i] == b[i - a.len()] && c[j] == b[j - a.len()]);
        } else {
            assert(c[i] == a[i] && c[j] == b[j - a.len()]);
            if defined(c[j]) is Some {
                lemma_allowed_apart(defined(a[i])->0, defined(b[j - a.len()])->0, oa, ob);
            }
        }
    }
    assert forall|i: int| 0 <= i < c.len() && (#[trigger] defined(c[i])) is Some implies allowed(
        defined(c[i])->0,
        union(oa, ob),
    ) by {
        if i < a.len() {
            assert(c[i] == a[i]);
            lemma_allowed_within(defined(c[i])->0, oa, union(oa, ob));
        } else {
            assert(c[i] == b[i - a.len()]);
            lemma_allowed_within(defined(c[i])->0, ob, union(oa, ob));
        }
    }
}

/// A label from `a` comes from any `b` that allows all `a` does.
pub proof fn lemma_allowed_within(s: Seq<char>, a: Origins, b: Origins)
    requires
        allowed(s, a),
        within(a, b),
    ensures
        allowed(s, b),
{
    if exists|p: (int, int)| a.ids.contains(p) && 0 <= p.0 < 4 && s == numbered(p.0, p.1) {
        let p = choose|p: (int, int)| a.ids.contains(p) && 0 <= p.0 < 4 && s == numbered(p.0, p.1);
        assert(b.ids.contains(p));
    } else if exists|n: Seq<char>| a.names.contains(n) && s == def_label(n) {
        let n = choose|n: Seq<char>| a.names.contains(n) && s == def_label(n);
        assert(b.names.contains(n));
    }
}

/// Labels from `a` come from any `b` that allows all `a` does.
pub proof fn lemma_from_within(c: Seq<InstrV>, a: Origins, b: Origins)
    requires
        labels_from(c, a),
        within(a, b),
    ensures
        labels_from(c, b),
{
    assert forall|i: int| 0 <= i < c.len() && (#[trigger] defined(c[i])) is Some implies allowed(
        defined(c[i])->0,
        b,
    ) by {
        lemma_allowed_within(defined(c[i])->0, a, b);
    }
}

/// Two steps one after the other, whose labels share no origin.
pub proof fn lemma_steps(g: Gen, g1: Gen, g2: Gen, o1: Origins, o2: Origins)
    requires
        fresh_with(g, g1, o1),
        fresh_with(g1, g2, o2),
        disjoint(o1, o2),
    ensures
        fresh_with(g, g2, union(o1, o2)),
{
    let n = g.code.len() as int;
    let n1 = g1.code.len() as int;
    assert forall|i: int| 0 <= i < n1 implies g2.code[i] == g1.code[i] by {
        assert(g2.code.subrange(0, n1)[i] == g2.code[i]);
    }
    assert forall|i: int| 0 <= i < n implies g1.code[i] == g.code[i] by {
        assert(g1.code.subrange(0, n)[i] == g1.code[i]);
    }
    assert(g2.code.subrange(0, n) =~= g.code);
    assert(added(g, g2) =~= added(g, g1) + added(g1, g2));
    lemma_join(added(g, g1), added(g1, g2), o1, o2);
}

/// Two steps one after the other, each taking its own label numbers and
/// functions, at most one of them the entry label.
pub proof fn lemma_chain(g: Gen, g1: Gen, g2: Gen, a: bool, b: bool)
    requires
        fresh_with(g, g1, origin(g, g1, a)),
        fresh_with(g1, g2, origin(g1, g2, b)),
        !(a && b),
    ensures
        fresh_with(g, g2, origin(g, g2, a || b)),
{
    lemma_steps(g, g1, g2, origin(g, g1, a), origin(g1, g2, b));
    lemma_from_within(added(g, g2), union(origin(g, g1, a), origin(g1, g2, b)), origin(g, g2, a || b));
}

/// A step that appends code with no label.
pub proof fn lemma_plain(g: Gen, h: Gen, s: Seq<InstrV>)
    requires
        label_free(s),
        h.code == g.code + s,
        g.uid <= h.uid,
        h.defs == g.defs,
    ensures
        fresh_with(g, h, origin(g, h, false)),
        fresh_with(g, h, no_origins()),
{
    assert(added(g, h) =~= s);
    assert(h.code.subrange(0, g.code.len() as int) =~= g.code);
}

/// A step that appends an instruction with no label, then the label of
/// `kind` and `k`.
pub proof fn lemma_one_label(g: Gen, h: Gen, first: InstrV, kind: int, k: int)
    requires
        0 <= kind < 4,
        defined(first) is None,
        h.code == g.code + seq![first, InstrV::ILabel(ValV::Label(numbered(kind, k)))],
        g.uid <= h.uid,
        h.defs == g.defs,
    ensures
        fresh_with(g, h, only(kind, k)),
{
    let s = seq![first, InstrV::ILabel(ValV::Label(numbered(kind, k)))];
    assert(added(g, h) =~= s);
    assert(h.code.subrange(0, g.code.len() as int) =~= g.code);
    assert(only(kind, k).ids.contains((kind, k)));
    assert(allowed(numbered(kind, k), only(kind, k)));
}

/// No step at all.
pub proof fn lemma_stay(g: Gen, entry: bool)
    ensures
        fresh_with(g, g, origin(g, g, entry)),
{
    assert(added(g, g) =~= Seq::empty());
    assert(g.code.subrange(0, g.code.len() as int) =~= g.code);
}

/// `a` then `b` has no label where neither has.
pub proof fn lemma_free_add(a: Seq<InstrV>, b: Seq<InstrV>)
    requires
        label_free(a),
        label_free(b),
    ensures
        label_free(a + b),
{
    assert forall|i: int| 0 <= i < (a + b).len() implies (#[trigger] defined((a + b)[i])) is None by {
        if i < a.len() {
            assert((a + b)[i] == a[i]);
        } else {
            assert((a + b)[i] == b[i - a.len()]);
        }
    }
}

/// The code that operators emit around their operands defines no label.
pub proof fn lemma_tails_free(b: BinaryOp, u: UnitaryOp, z: ZeroOpV, sc: Scope)
    ensures
        label_free(binary_tail(b)),
        unary_tail(u, sc) matches Ok(c) ==> label_free(c),
        cg_zero_op(z, sc) matches Ok(c) ==> label_free(c),
{
    lemma_free_add(check_num(Register::RAX), check_num(Register::RBX));
    let both = check_num(Register::RAX) + check_num(Register::RBX);
    let rax = ValV::Reg(Register::RAX);
    let rbx = ValV::Reg(Register::RBX);
    match b {
        BinaryOp::Equal => {
            let front = seq![
                InstrV::Xor(rbx, rax),
                InstrV::IMov(ValV::Reg(Register::RBP), ValV::ValTrue),
                InstrV::IMov(rax, ValV::ValFalse),
                InstrV::Cmovz(rax, ValV::Reg(Register::RBP)),
            ];
            assert(label_free(front));
            lemma_free_add(front, check_num(Register::RBX));
        },
        BinaryOp::Plus => {
            lemma_free_add(both, seq![InstrV::IAdd(rax, rbx), InstrV::Jo(label("overflow"@))]);
        },
        BinaryOp::Minus => {
            lemma_free_add(both, seq![InstrV::ISub(rax, rbx), InstrV::Jo(label("overflow"@))]);
        },
        BinaryOp::Times => {
            let rest = seq![
                InstrV::Sar(rax, ValV::Imm(1)),
                InstrV::Sar(rbx, ValV::Imm(1)),
                InstrV::IMul(rax, rbx),
                InstrV::Jo(label("overflow"@)),
                InstrV::Sal(rax, ValV::Imm(1)),
                InstrV::Jo(label("overflow"@)),
            ];
            assert(label_free(rest));
            lemma_free_add(both, rest);
        },
        _ => {
            let last = match b {
                BinaryOp::Greater => InstrV::Cmovg(rax, rbx),
                BinaryOp::GreaterEqual => InstrV::Cmovge(rax, rbx),
                BinaryOp::Less => InstrV::Cmovl(rax, rbx),
                _ => InstrV::Cmovle(rax, rbx),
            };
            let rest = seq![
                InstrV::Cmp(rax, rbx),
                InstrV::IMov(rax, ValV::ValFalse),
                InstrV::IMov(rbx, ValV::ValTrue),
                last,
            ];
            assert(label_free(rest));
            lemma_free_add(both, rest);
        },
    }
    match u {
        UnitaryOp::Add1 => {
            lemma_free_add(
                check_num(Register::RAX),
                seq![InstrV::IAdd(rax, ValV::Imm(2)), InstrV::Jo(label("overflow"@))],
            );
        },
        UnitaryOp::Sub1 => {
            lemma_free_add(
                check_num(Register::RAX),
                seq![InstrV::ISub(rax, ValV::Imm(2)), InstrV::Jo(label("overflow"@))],
            );
        },
        _ => {},
    }
}

/// The number of `Program` nodes of an expression that code generation
/// visits, each as often as it is visited: each defines the entry label.
pub open spec fn programs(e: ExprV) -> nat
    decreases e, 0int,
{
    match e {
        ExprV::EZeroOp(_) => 0,
        ExprV::EUnitaryOp(_, x) => programs(*x),
        ExprV::EBinaryOp(_, x, y) => programs(*x) + programs(*y),
        ExprV::Let(bs, body) => binds_programs(bs, 0) + programs(*body),
        ExprV::SetBinding(_, x) => programs(*x),
        ExprV::If(c, t, f) => programs(*c) + programs(*t) + programs(*f),
        ExprV::Block(es) => exprs_programs(es, 0),
        ExprV::FuncDef(_, _, body) => programs(*body),
        ExprV::FuncCall(_, args) => regs_programs(args, 0) + spill_programs(args, args.len() - 2),
        ExprV::Program(defs, body) => 1 + exprs_programs(defs, 0) + programs(*body),
    }
}

/// The `Program` nodes of the bindings `bs[i..]`.
pub open spec fn binds_programs(bs: Seq<(Seq<char>, ExprV)>, i: int) -> nat
    decreases bs, bs.len() - i,
{
    if i < 0 || i >= bs.len() {
        0
    } else {
        programs(bs[i].1) + binds_programs(bs, i + 1)
    }
}

/// The `Program` nodes of the arguments `args[i..6]` of a call.
pub open spec fn regs_programs(args: Seq<ExprV>, i: int) -> nat
    decreases args, args.len() - i,
{
    if i < 0 || i >= args.len() || i >= 6 {
        0
    } else {
        programs(args[i]) + regs_programs(args, i + 1)
    }
}

/// The `Program` nodes of the arguments `args[i]` down to `args[5]`.
pub open spec fn spill_programs(args: Seq<ExprV>, i: int) -> nat
    decreases args, i + 1,
{
    if i < 5 || i >= args.len() {
        0
    } else {
        programs(args[i]) + spill_programs(args, i - 1)
    }
}

/// The `Program` nodes of the expressions `es[i..]`.
pub open spec fn exprs_programs(es: Seq<ExprV>, i: int) -> nat
    decreases es, es.len() - i,
{
    if i < 0 || i >= es.len() {
        0
    } else {
        programs(es[i]) + exprs_programs(es, i + 1)
    }
}

/// A step from `g` to `h` that takes its own label numbers and functions.
pub open spec fn fresh(g: Gen, h: Gen, entry: bool) -> bool {
    fresh_with(g, h, origin(g, h, entry))
}

/// A step that appends code with no label, then one with no label.
pub proof fn lemma_then_plain(g: Gen, g1: Gen, s: Seq<InstrV>, entry: bool)
    requires
        fresh(g, g1, entry),
        label_free(s),
    ensures
        fresh(g, emit(g1, s), entry),
{
    lemma_plain(g1, emit(g1, s), s);
    lemma_chain(g, g1, emit(g1, s), entry, false);
}

/// A loop: its head label, its body, a jump back and its end label.
pub proof fn lemma_loop_step(g: Gen, g1: Gen, g2: Gen, g3: Gen, entry: bool)
    requires
        g1 == (Gen {
            uid: g.uid + 1,
            code: g.code + seq![InstrV::ILabel(ValV::Label(numbered(0, g.uid + 1)))],
            ..g
        }),
        fresh(g1, g2, entry),
        g3 == emit(
            g2,
            seq![
                InstrV::Jmp(label("loop_"@ + decimal(g.uid + 1))),
                InstrV::ILabel(ValV::Label(numbered(1, g.uid + 1))),
            ],
        ),
    ensures
        fresh(g, g3, entry),
{
    let id = g.uid + 1;
    let head = seq![InstrV::ILabel(ValV::Label(numbered(0, id)))];
    assert(added(g, g1) =~= head);
    assert(g1.code.subrange(0, g.code.len() as int) =~= g.code);
    assert(only(0, id).ids.contains((0, id)));
    assert(allowed(numbered(0, id), only(0, id)));
    assert(fresh_with(g, g1, only(0, id)));
    lemma_steps(g, g1, g2, only(0, id), origin(g1, g2, entry));
    let u = union(only(0, id), origin(g1, g2, entry));
    lemma_one_label(g2, g3, InstrV::Jmp(label("loop_"@ + decimal(id))), 1, id);
    lemma_steps(g, g2, g3, u, only(1, id));
    lemma_from_within(added(g, g3), union(u, only(1, id)), origin(g, g3, entry));
}

/// An `if`: its condition, the jump to the false branch, the true branch,
/// the false label, the false branch and the end label.
pub proof fn lemma_if_step(
    g: Gen,
    g1: Gen,
    g2: Gen,
    g3: Gen,
    g4: Gen,
    g5: Gen,
    g6: Gen,
    pc: bool,
    pt: bool,
    pf: bool,
)
    requires
        fresh(g, g1, pc),
        g2 == (Gen {
            uid: g1.uid + 1,
            code: g1.code + seq![
                InstrV::Cmp(ValV::Reg(Register::RAX), ValV::ValFalse),
                InstrV::Je(label("if_false_"@ + decimal(g1.uid + 1))),
            ],
            ..g1
        }),
        fresh(g2, g3, pt),
        g4 == emit(
            g3,
            seq![
                InstrV::Jmp(label("end_if_"@ + decimal(g1.uid + 1))),
                InstrV::ILabel(ValV::Label(numbered(2, g1.uid + 1))),
            ],
        ),
        fresh(g4, g5, pf),
        g6 == emit(
            g5,
            seq![
                InstrV::Jmp(label("end_if_"@ + decimal(g1.uid + 1))),
                InstrV::ILabel(ValV::Label(numbered(3, g1.uid + 1))),
            ],
        ),
        !(pc && pt) && !(pc && pf) && !(pt && pf),
    ensures
        fresh(g, g6, pc || pt || pf),
{
    let id = g1.uid + 1;
    lemma_plain(
        g1,
        g2,
        seq![
            InstrV::Cmp(ValV::Reg(Register::RAX), ValV::ValFalse),
            InstrV::Je(label("if_false_"@ + decimal(id))),
        ],
    );
    lemma_steps(g, g1, g2, origin(g, g1, pc), no_origins());
    let o12 = union(origin(g, g1, pc), no_origins());
    lemma_steps(g, g2, g3, o12, origin(g2, g3, pt));
    let o13 = union(o12, origin(g2, g3, pt));
    lemma_one_label(g3, g4, InstrV::Jmp(label("end_if_"@ + decimal(id))), 2, id);
    lemma_steps(g, g3, g4, o13, only(2, id));
    let o14 = union(o13, only(2, id));
    lemma_steps(g, g4, g5, o14, origin(g4, g5, pf));
    let o15 = union(o14, origin(g4, g5, pf));
    lemma_one_label(g5, g6, InstrV::Jmp(label("end_if_"@ + decimal(id))), 3, id);
    lemma_steps(g, g5, g6, o15, only(3, id));
    lemma_from_within(added(g, g6), union(o15, only(3, id)), origin(g, g6, pc || pt || pf));
}

/// The start of the main program: the entry label.
pub proof fn lemma_entry_step(g: Gen, h: Gen)
    requires
        h == emit(g, seq![InstrV::ILabel(ValV::Label(entry_label()))]),
    ensures
        fresh(g, h, true),
{
    assert(added(g, h) =~= seq![InstrV::ILabel(ValV::Label(entry_label()))]);
    assert(h.code.subrange(0, g.code.len() as int) =~= g.code);
}

/// The start of a function: its label, under a name not defined before.
pub proof fn lemma_def_step(g: Gen, h: Gen, name: Seq<char>, arity: nat)
    requires
        !g.defs.contains_key(name),
        h == (Gen {
            defs: g.defs.insert(name, arity),
            code: g.code + seq![InstrV::ILabel(ValV::Label(def_label(name)))],
            ..g
        }),
    ensures
        fresh(g, h, false),
{
    assert(added(g, h) =~= seq![InstrV::ILabel(ValV::Label(def_label(name)))]);
    assert(h.code.subrange(0, g.code.len() as int) =~= g.code);
    assert(origin(g, h, false).names.contains(name));
    assert(allowed(def_label(name), origin(g, h, false)));
}

/// Code generation of `e`, where it succeeds, appends code that defines
/// each label once: labels numbered by the label numbers it takes, labels
/// of the functions it adds, and the entry label where it compiles a
/// `Program` node.
#[verifier::rlimit(80)]
pub proof fn lemma_cg_fresh(e: ExprV, stack: int, sc: Scope, g: Gen)
    requires
        programs(e) <= 1,
    ensures
        cg(e, stack, sc, g) matches Ok(h) ==> fresh(g, h, programs(e) == 1),
    decreases e, 0int,
{
    let rax = reg(Register::RAX);
    match e {
        ExprV::EZeroOp(op) => {
            lemma_tails_free(BinaryOp::Plus, UnitaryOp::Add1, op, sc);
            match cg_zero_op(op, sc) {
                Ok(c) => {
                    lemma_stay(g, false);
                    lemma_then_plain(g, g, c, false);
                },
                Err(_) => {},
            }
        },
        ExprV::EUnitaryOp(op, x) => {
            if op == UnitaryOp::Loop {
                let id = g.uid + 1;
                let name = "loop_"@ + decimal(id);
                let g1 = Gen { uid: id, code: g.code + seq![InstrV::ILabel(label(name + ":"@))], ..g };
                let sc1 = Scope { break_label: name, ..sc };
                lemma_cg_fresh(*x, stack, sc1, g1);
                match cg(*x, stack, sc1, g1) {
                    Ok(g2) => {
                        let g3 = emit(
                            g2,
                            seq![
                                InstrV::Jmp(label(name)),
                                InstrV::ILabel(label("end_"@ + name + ":"@)),
                            ],
                        );
                        lemma_loop_step(g, g1, g2, g3, programs(*x) == 1);
                    },
                    Err(_) => {},
                }
            } else {
                lemma_cg_fresh(*x, stack, sc, g);
                match cg(*x, stack, sc, g) {
                    Ok(g1) => {
                        lemma_tails_free(BinaryOp::Plus, op, ZeroOpV::OpTrue, sc);
                        match unary_tail(op, sc) {
                            Ok(c) => lemma_then_plain(g, g1, c, programs(*x) == 1),
                            Err(_) => {},
                        }
                    },
                    Err(_) => {},
                }
            }
        },
        ExprV::EBinaryOp(op, x, y) => {
            lemma_cg_fresh(*y, stack, sc, g);
            match cg(*y, stack, sc, g) {
                Ok(g1) => {
                    let slot = ValV::RegOffset(Register::RSP, stack as i64);
                    let m = seq![mov(slot, rax)];
                    let g1m = emit(g1, m);
                    lemma_then_plain(g, g1, m, programs(*y) == 1);
                    lemma_cg_fresh(*x, stack + 1, sc, g1m);
                    match cg(*x, stack + 1, sc, g1m) {
                        Ok(g2) => {
                            lemma_chain(g, g1m, g2, programs(*y) == 1, programs(*x) == 1);
                            lemma_tails_free(op, UnitaryOp::Add1, ZeroOpV::OpTrue, sc);
                            let front = seq![mov(reg(Register::RBX), slot)];
                            lemma_free_add(front, binary_tail(op));
                            lemma_then_plain(
                                g,
                                g2,
                                front + binary_tail(op),
                                programs(*y) == 1 || programs(*x) == 1,
                            );
                        },
                        Err(_) => {},
                    }
                },
                Err(_) => {},
            }
        },
        ExprV::Let(bs, body) => {
            lemma_let_fresh(bs, 0, stack, sc, g);
            match cg_let(bs, 0, stack, sc, g) {
                Ok((g1, stack1, sc1)) => {
                    lemma_cg_fresh(*body, stack1, sc1, g1);
                    match cg(*body, stack1, sc1, g1) {
                        Ok(g2) => lemma_chain(
                            g,
                            g1,
                            g2,
                            binds_programs(bs, 0) == 1,
                            programs(*body) == 1,
                        ),
                        Err(_) => {},
                    }
                },
                Err(_) => {},
            }
        },
        ExprV::SetBinding(name, x) => {
            lemma_cg_fresh(*x, stack, sc, g);
            match cg(*x, stack, sc, g) {
                Ok(g1) => {
                    if sc.names.contains_key(name) {
                        lemma_then_plain(g, g1, seq![mov(sc.names[name], rax)], programs(*x) == 1);
                    }
                },
                Err(_) => {},
            }
        },
        ExprV::If(c, t, f) => {
            lemma_cg_fresh(*c, stack, sc, g);
            match cg(*c, stack, sc, g) {
                Ok(g1) => {
                    let id = g1.uid + 1;
                    let if_false = "if_false_"@ + decimal(id);
                    let end_if = "end_if_"@ + decimal(id);
                    let g2 = Gen {
                        uid: id,
                        code: g1.code + seq![
                            InstrV::Cmp(rax, ValV::ValFalse),
                            InstrV::Je(label(if_false)),
                        ],
                        ..g1
                    };
                    lemma_cg_fresh(*t, stack, sc, g2);
                    match cg(*t, stack, sc, g2) {
                        Ok(g3) => {
                            let g4 = emit(
                                g3,
                                seq![
                                    InstrV::Jmp(label(end_if)),
                                    InstrV::ILabel(label(if_false + ":"@)),
                                ],
                            );
                            lemma_cg_fresh(*f, stack, sc, g4);
                            match cg(*f, stack, sc, g4) {
                                Ok(g5) => {
                                    let g6 = emit(
                                        g5,
                                        seq![
                                            InstrV::Jmp(label(end_if)),
                                            InstrV::ILabel(label(end_if + ":"@)),
                                        ],
                                    );
                                    lemma_if_step(
                                        g,
                                        g1,
                                        g2,
                                        g3,
                                        g4,
                                        g5,
                                        g6,
                                        programs(*c) == 1,
                                        programs(*t) == 1,
                                        programs(*f) == 1,
                                    );
                                },
                                Err(_) => {},
                            }
                        },
                        Err(_) => {},
                    }
                },
                Err(_) => {},
            }
        },
        ExprV::Block(es) => {
            lemma_block_fresh(es, 0, stack, sc, g);
        },
        ExprV::FuncDef(_, _, _) => {},
        ExprV::FuncCall(name, args) => {
            lemma_regs_fresh(args, 0, stack, sc, g);
            match cg_regs(args, 0, stack, sc, g) {
                Ok(g1) => {
                    lemma_spill_fresh(args, args.len() - 2, stack, sc, g1);
                    match cg_spill(args, args.len() - 2, stack, sc, g1) {
                        Ok((g2, stk)) => {
                            if g2.defs.contains_key(name) && g2.defs[name] == args.len() {
                                let a = regs_programs(args, 0) == 1;
                                let b = spill_programs(args, args.len() - 2) == 1;
                                lemma_chain(g, g1, g2, a, b);
                                let rsp = reg(Register::RSP);
                                let tail = seq![
                                    InstrV::IAdd(rsp, ValV::Imm((8 * stk) as i64)),
                                    InstrV::Call(label("def_"@ + name)),
                                    InstrV::ISub(rsp, ValV::Imm((8 * stk) as i64)),
                                ];
                                assert(label_free(tail));
                                lemma_then_plain(g, g2, tail, a || b);
                            }
                        },
                        Err(_) => {},
                    }
                },
                Err(_) => {},
            }
        },
        ExprV::Program(defs, body) => {
            lemma_defs_fresh(defs, 0, g);
            match cg_defs(defs, 0, g) {
                Ok(g1) => {
                    let g2 = emit(g1, seq![InstrV::ILabel(label("our_code_starts_here:"@))]);
                    lemma_entry_step(g1, g2);
                    lemma_chain(g, g1, g2, false, true);
                    lemma_cg_fresh(*body, stack, sc, g2);
                    match cg(*body, stack, sc, g2) {
                        Ok(g3) => {
                            lemma_chain(g, g2, g3, true, false);
                            lemma_then_plain(g, g3, seq![InstrV::Ret], true);
                        },
                        Err(_) => {},
                    }
                },
                Err(_) => {},
            }
        },
    }
}

/// `cg_let` over the bindings `bs[i..]` takes its own labels.
pub proof fn lemma_let_fresh(
    bs: Seq<(Seq<char>, ExprV)>,
    i: int,
    stack: int,
    sc: Scope,
    g: Gen,
)
    requires
        binds_programs(bs, i) <= 1,
    ensures
        cg_let(bs, i, stack, sc, g) matches Ok((h, _, _)) ==> fresh(
            g,
            h,
            binds_programs(bs, i) == 1,
        ),
    decreases bs, bs.len() - i,
{
    if i < 0 || i >= bs.len() {
        lemma_stay(g, false);
    } else {
        let p0 = programs(bs[i].1) == 1;
        lemma_cg_fresh(bs[i].1, stack, sc, g);
        match cg(bs[i].1, stack, sc, g) {
            Ok(g1) => {
                let slot = ValV::RegOffset(Register::RSP, stack as i64);
                let m = seq![mov(slot, reg(Register::RAX))];
                let g1m = emit(g1, m);
                lemma_then_plain(g, g1, m, p0);
                let sc1 = Scope { names: sc.names.insert(bs[i].0, slot), ..sc };
                lemma_let_fresh(bs, i + 1, stack + 1, sc1, g1m);
                match cg_let(bs, i + 1, stack + 1, sc1, g1m) {
                    Ok((h, _, _)) => lemma_chain(g, g1m, h, p0, binds_programs(bs, i + 1) == 1),
                    Err(_) => {},
                }
            },
            Err(_) => {},
        }
    }
}

/// `cg_block` over the expressions `es[i..]` takes its own labels.
pub proof fn lemma_block_fresh(es: Seq<ExprV>, i: int, stack: int, sc: Scope, g: Gen)
    requires
        exprs_programs(es, i) <= 1,
    ensures
        cg_block(es, i, stack, sc, g) matches Ok(h) ==> fresh(g, h, exprs_programs(es, i) == 1),
    decreases es, es.len() - i,
{
    if i < 0 || i >= es.len() {
        lemma_stay(g, false);
    } else {
        lemma_cg_fresh(es[i], stack, sc, g);
        match cg(es[i], stack, sc, g) {
            Ok(g1) => {
                lemma_block_fresh(es, i + 1, stack, sc, g1);
                match cg_block(es, i + 1, stack, sc, g1) {
                    Ok(h) => lemma_chain(
                        g,
                        g1,
                        h,
                        programs(es[i]) == 1,
                        exprs_programs(es, i + 1) == 1,
                    ),
                    Err(_) => {},
                }
            },
            Err(_) => {},
        }
    }
}

/// `cg_regs` over the arguments `args[i..6]` takes its own labels.
pub proof fn lemma_regs_fresh(args: Seq<ExprV>, i: int, stack: int, sc: Scope, g: Gen)
    requires
        regs_programs(args, i) <= 1,
    ensures
        cg_regs(args, i, stack, sc, g) matches Ok(h) ==> fresh(g, h, regs_programs(args, i) == 1),
    decreases args, args.len() - i,
{
    if i < 0 || i >= args.len() || i >= 6 {
        lemma_stay(g, false);
    } else {
        let p0 = programs(args[i]) == 1;
        lemma_cg_fresh(args[i], stack, sc, g);
        match cg(args[i], stack, sc, g) {
            Ok(g1) => {
                let m = seq![mov(reg(arg_reg(i)), reg(Register::RAX))];
                let g1m = emit(g1, m);
                lemma_then_plain(g, g1, m, p0);
                lemma_regs_fresh(args, i + 1, stack, sc, g1m);
                match cg_regs(args, i + 1, stack, sc, g1m) {
                    Ok(h) => lemma_chain(g, g1m, h, p0, regs_programs(args, i + 1) == 1),
                    Err(_) => {},
                }
            },
            Err(_) => {},
        }
    }
}

/// `cg_spill` over the arguments `args[i]` down to `args[5]` takes its own
/// labels.
pub proof fn lemma_spill_fresh(args: Seq<ExprV>, i: int, stk: int, sc: Scope, g: Gen)
    requires
        spill_programs(args, i) <= 1,
    ensures
        cg_spill(args, i, stk, sc, g) matches Ok((h, _)) ==> fresh(
            g,
            h,
            spill_programs(args, i) == 1,
        ),
    decreases args, i + 1,
{
    if i < 5 || i >= args.len() {
        lemma_stay(g, false);
    } else {
        let p0 = programs(args[i]) == 1;
        lemma_cg_fresh(args[i], stk, sc, g);
        match cg(args[i], stk, sc, g) {
            Ok(g1) => {
                let m = seq![mov(ValV::RegOffset(Register::RSP, stk as i64), reg(Register::RAX))];
                let g1m = emit(g1, m);
                lemma_then_plain(g, g1, m, p0);
                lemma_spill_fresh(args, i - 1, stk + 1, sc, g1m);
                match cg_spill(args, i - 1, stk + 1, sc, g1m) {
                    Ok((h, _)) => lemma_chain(g, g1m, h, p0, spill_programs(args, i - 1) == 1),
                    Err(_) => {},
                }
            },
            Err(_) => {},
        }
    }
}

/// `cg_def` takes its own labels: the function's and its body's.
pub proof fn lemma_def_fresh(d: ExprV, g: Gen)
    requires
        programs(d) <= 1,
    ensures
        cg_def(d, g) matches Ok(h) ==> fresh(g, h, programs(d) == 1),
    decreases d, 0int,
{
    match d {
        ExprV::FuncDef(name, params, body) => {
            if !g.defs.contains_key(name) {
                let g1 = Gen {
                    defs: g.defs.insert(name, params.len()),
                    code: g.code + seq![InstrV::ILabel(label("def_"@ + name + ":"@))],
                    ..g
                };
                lemma_def_step(g, g1, name, params.len());
                let sc0 = Scope { func: name, names: Map::empty(), break_label: Seq::empty() };
                match param_scope(params, 0, sc0) {
                    Ok(sc) => {
                        lemma_cg_fresh(*body, STACK_BASE as int, sc, g1);
                        match cg(*body, STACK_BASE as int, sc, g1) {
                            Ok(g2) => {
                                lemma_chain(g, g1, g2, false, programs(*body) == 1);
                                assert(label_free(seq![InstrV::Ret]));
                                lemma_then_plain(g, g2, seq![InstrV::Ret], programs(*body) == 1);
                            },
                            Err(_) => {},
                        }
                    },
                    Err(_) => {},
                }
            }
        },
        _ => {},
    }
}

/// `cg_defs` over the definitions `defs[i..]` takes its own labels.
pub proof fn lemma_defs_fresh(defs: Seq<ExprV>, i: int, g: Gen)
    requires
        exprs_programs(defs, i) <= 1,
    ensures
        cg_defs(defs, i, g) matches Ok(h) ==> fresh(g, h, exprs_programs(defs, i) == 1),
    decreases defs, defs.len() - i,
{
    if i < 0 || i >= defs.len() {
        lemma_stay(g, false);
    } else {
        lemma_def_fresh(defs[i], g);
        match cg_def(defs[i], g) {
            Ok(g1) => {
                lemma_defs_fresh(defs, i + 1, g1);
                match cg_defs(defs, i + 1, g1) {
                    Ok(h) => lemma_chain(
                        g,
                        g1,
                        h,
                        programs(defs[i]) == 1,
                        exprs_programs(defs, i + 1) == 1,
                    ),
                    Err(_) => {},
                }
            },
            Err(_) => {},
        }
    }
}

/// Compiled code defines each label once: every `if` and `loop` takes
/// label numbers that nothing before it took, every function is defined
/// under a name not defined before, and the entry label comes once. An
/// expression that compiles more than one `Program` node defines the entry
/// label once for each of them, and is left out.
pub proof fn lemma_labels_defined_once(e: ExprV, stack: int, sc: Scope, g: Gen)
    requires
        programs(e) <= 1,
        g.code.len() == 0,
    ensures
        cg(e, stack, sc, g) matches Ok(h) ==> labels_distinct(h.code),
{
    lemma_cg_fresh(e, stack, sc, g);
    match cg(e, stack, sc, g) {
        Ok(h) => {
            assert(added(g, h) =~= h.code);
        },
        Err(_) => {},
    }
}

} // verus!
