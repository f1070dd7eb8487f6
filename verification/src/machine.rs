//! What compiled code computes: a model of the x86-64 instructions the
//! compiler emits, run on registers, stack slots and flags, and the proof
//! that the code for each operator of two numbers computes that operator.
use vstd::prelude::*;

use crate::codegen::{binary_tail, cg, check_num, emit, label, mov, reg, unary_tail, Gen, Scope};
use crate::labels::added;
use crate::parser::{MAX_LITERAL, MIN_LITERAL};
use crate::types::{BinaryOp, ExprV, InstrV, Register, UnitaryOp, ValV, ZeroOpV};

verus! {

/// A machine state: registers, the stack slots (by slot number below
/// `rsp`), the zero, sign and overflow flags, and the label that control
/// left to, once a jump leaves the code.
pub struct Machine {
    pub regs: Map<Register, int>,
    pub mem: Map<int, int>,
    pub zf: bool,
    pub sf: bool,
    pub of: bool,
    pub left: Option<Seq<char>>,
}

/// `x` as a 64-bit two's complement word.
pub open spec fn wrap(x: int) -> int {
    if i64::MIN <= x <= i64::MAX {
        x
    } else if i64::MAX < x <= i64::MAX + 0x1_0000_0000_0000_0000 {
        x - 0x1_0000_0000_0000_0000
    } else if i64::MIN - 0x1_0000_0000_0000_0000 <= x < i64::MIN {
        x + 0x1_0000_0000_0000_0000
    } else {
        let r = x % 0x1_0000_0000_0000_0000;
        if r > i64::MAX {
            r - 0x1_0000_0000_0000_0000
        } else {
            r
        }
    }
}

/// The value an operand reads.
pub open spec fn read(m: Machine, v: ValV) -> int {
    match v {
        ValV::Reg(r) => m.regs[r],
        ValV::Imm(n) => n as int,
        ValV::RegOffset(_, k) => m.mem[k as int],
        ValV::ValTrue => 3,
        ValV::ValFalse => 1,
        ValV::Label(_) => 0,
    }
}

/// The machine with `x` written to operand `v`.
pub open spec fn write(m: Machine, v: ValV, x: int) -> Machine {
    match v {
        ValV::Reg(r) => Machine { regs: m.regs.insert(r, x), ..m },
        ValV::RegOffset(_, k) => Machine { mem: m.mem.insert(k as int, x), ..m },
        _ => m,
    }
}

/// The machine with the flags of the exact result `r`, whose word is
/// written where `d` is `Some`.
pub open spec fn arith(m: Machine, d: Option<ValV>, r: int) -> Machine {
    let w = wrap(r);
    let m1 = match d {
        Some(v) => write(m, v, w),
        None => m,
    };
    Machine { zf: w == 0, sf: w < 0, of: !(i64::MIN <= r <= i64::MAX), ..m1 }
}

/// `x` shifted right arithmetically by `k` bits.
pub open spec fn sar(x: int, k: int) -> int
    decreases k,
{
    if k <= 0 {
        x
    } else {
        sar(x / 2, k - 1)
    }
}

/// `x` shifted left by `k` bits, exactly.
pub open spec fn sal(x: int, k: int) -> int
    decreases k,
{
    if k <= 0 {
        x
    } else {
        sal(x * 2, k - 1)
    }
}

/// The machine after one instruction. Once control has left, nothing more
/// happens.
pub open spec fn step(m: Machine, i: InstrV) -> Machine {
    if m.left is Some {
        m
    } else {
        match i {
            InstrV::IMov(d, s) => write(m, d, read(m, s)),
            InstrV::IAdd(d, s) => arith(m, Some(d), read(m, d) + read(m, s)),
            InstrV::ISub(d, s) => arith(m, Some(d), read(m, d) - read(m, s)),
            InstrV::IMul(d, s) => arith(m, Some(d), read(m, d) * read(m, s)),
            InstrV::And(d, s) => arith(
                m,
                Some(d),
                ((read(m, d) as i64) & (read(m, s) as i64)) as int,
            ),
            InstrV::Xor(d, s) => arith(
                m,
                Some(d),
                ((read(m, d) as i64) ^ (read(m, s) as i64)) as int,
            ),
            InstrV::Not(d) => write(m, d, (!(read(m, d) as i64)) as int),
            InstrV::Shl(d, s) | InstrV::Sal(d, s) => arith(m, Some(d), sal(read(m, d), read(m, s))),
            InstrV::Sar(d, s) => Machine { of: false, ..arith(m, Some(d), sar(read(m, d), read(m, s))) },
            InstrV::Cmp(a, b) => arith(m, None, read(m, a) - read(m, b)),
            InstrV::Test(a, b) => Machine {
                of: false,
                ..arith(m, None, ((read(m, a) as i64) & (read(m, b) as i64)) as int)
            },
            InstrV::Cmovg(d, s) => if !m.zf && m.sf == m.of {
                write(m, d, read(m, s))
            } else {
                m
            },
            InstrV::Cmovge(d, s) => if m.sf == m.of {
                write(m, d, read(m, s))
            } else {
                m
            },
            InstrV::Cmovl(d, s) => if m.sf != m.of {
                write(m, d, read(m, s))
            } else {
                m
            },
            InstrV::Cmovle(d, s) => if m.zf || m.sf != m.of {
                write(m, d, read(m, s))
            } else {
                m
            },
            InstrV::Cmovz(d, s) => if m.zf {
                write(m, d, read(m, s))
            } else {
                m
            },
            InstrV::Inc(d) => arith(m, Some(d), read(m, d) + 1),
            InstrV::ILabel(_) => m,
            InstrV::Jmp(t) => Machine { left: Some(target_name(t)), ..m },
            InstrV::Je(t) => if m.zf {
                Machine { left: Some(target_name(t)), ..m }
            } else {
                m
            },
            InstrV::Jo(t) => if m.of {
                Machine { left: Some(target_name(t)), ..m }
            } else {
                m
            },
            InstrV::Jnz(t) => if !m.zf {
                Machine { left: Some(target_name(t)), ..m }
            } else {
                m
            },
            InstrV::Call(t) => Machine { left: Some(target_name(t)), ..m },
            InstrV::Ret => Machine { left: Some("ret"@), ..m },
        }
    }
}

/// The name of a jump's target.
pub open spec fn target_name(t: ValV) -> Seq<char> {
    match t {
        ValV::Label(s) => s,
        _ => Seq::empty(),
    }
}

/// The machine after the instructions `s[i..]`, in order.
pub open spec fn run_from(m: Machine, s: Seq<InstrV>, i: int) -> Machine
    decreases s.len() - i,
{
    if i < 0 || i >= s.len() {
        m
    } else {
        run_from(step(m, s[i]), s, i + 1)
    }
}

/// The machine after the instructions `s`, in order.
pub open spec fn run(m: Machine, s: Seq<InstrV>) -> Machine {
    run_from(m, s, 0)
}

/// Running `s[i..]` of `p + q` past `p` is running `q`.
proof fn lemma_run_shift(m: Machine, p: Seq<InstrV>, q: Seq<InstrV>, j: int)
    requires
        0 <= j <= q.len(),
    ensures
        run_from(m, p + q, p.len() + j) == run_from(m, q, j),
    decreases q.len() - j,
{
    if j < q.len() {
        assert((p + q)[p.len() + j] == q[j]);
        lemma_run_shift(step(m, q[j]), p, q, j + 1);
    }
}

/// Running `p + q` from index `i` of `p` is running the rest of `p`, then
/// `q`.
proof fn lemma_run_split(m: Machine, p: Seq<InstrV>, q: Seq<InstrV>, i: int)
    requires
        0 <= i <= p.len(),
    ensures
        run_from(m, p + q, i) == run_from(run_from(m, p, i), q, 0),
    decreases p.len() - i,
{
    if i == p.len() {
        lemma_run_shift(m, p, q, 0);
    } else {
        assert((p + q)[i] == p[i]);
        lemma_run_split(step(m, p[i]), p, q, i + 1);
    }
}

/// Running two stretches of code one after the other.
pub proof fn lemma_run_concat(m: Machine, p: Seq<InstrV>, q: Seq<InstrV>)
    ensures
        run(m, p + q) == run(run(m, p), q),
{
    lemma_run_split(m, p, q, 0);
}

/// What the operator `op` gives for the numbers `a` and `b`, as the machine
/// `f` holds it after the operator's code: a comparison leaves the true word
/// 3 or the false word 1 in `rax`; arithmetic leaves the tagged result
/// (twice the number) in `rax`, or leaves to `overflow` where the tagged
/// result does not fit in a word.
pub open spec fn computes(op: BinaryOp, a: int, b: int, f: Machine) -> bool {
    let rax = f.regs[Register::RAX];
    let fits = |r: int| i64::MIN <= 2 * r <= i64::MAX;
    match op {
        BinaryOp::Plus => if fits(a + b) {
            f.left is None && rax == 2 * (a + b)
        } else {
            f.left == Some("overflow"@)
        },
        BinaryOp::Minus => if fits(a - b) {
            f.left is None && rax == 2 * (a - b)
        } else {
            f.left == Some("overflow"@)
        },
        BinaryOp::Times => if fits(a * b) {
            f.left is None && rax == 2 * (a * b)
        } else {
            f.left == Some("overflow"@)
        },
        BinaryOp::Greater => f.left is None && rax == if a > b { 3int } else { 1int },
        BinaryOp::GreaterEqual => f.left is None && rax == if a >= b { 3int } else { 1int },
        BinaryOp::Less => f.left is None && rax == if a < b { 3int } else { 1int },
        BinaryOp::LessEqual => f.left is None && rax == if a <= b { 3int } else { 1int },
        BinaryOp::Equal => f.left is None && rax == if a == b { 3int } else { 1int },
    }
}

/// The flags of `cmp x, y` on words: zero exactly when they are equal, and
/// sign equal to overflow exactly when `x` is at least `y`.
proof fn lemma_compare_flags(x: int, y: int)
    requires
        i64::MIN <= x <= i64::MAX,
        i64::MIN <= y <= i64::MAX,
    ensures
        (wrap(x - y) == 0) == (x == y),
        ((wrap(x - y) < 0) == !(i64::MIN <= x - y <= i64::MAX)) == (x >= y),
{
}

/// Bits of tagged numbers: an even word has its low bit clear, the
/// exclusive or of two even words too, and that exclusive or is zero
/// exactly when they are equal.
proof fn lemma_even_bits(x: i64, y: i64)
    requires
        x % 2 == 0,
        y % 2 == 0,
    ensures
        x & 1 == 0,
        (x ^ y) & 1 == 0,
        (x ^ y == 0) == (x == y),
{
    assert(x & 1 == 0) by (bit_vector)
        requires
            x % 2 == 0,
    ;
    assert((x ^ y) & 1 == 0) by (bit_vector)
        requires
            x % 2 == 0,
            y % 2 == 0,
    ;
    assert((x ^ y == 0) == (x == y)) by (bit_vector);
}

/// A machine holding the tagged numbers `a` in `rax` and `b` in `rbx`,
/// with control still in the code.
pub open spec fn holds_pair(m: Machine, a: int, b: int) -> bool {
    &&& m.left is None
    &&& m.regs.contains_key(Register::RAX)
    &&& m.regs.contains_key(Register::RBX)
    &&& m.regs[Register::RAX] == 2 * a
    &&& m.regs[Register::RBX] == 2 * b
}

/// Running two, four or six instructions steps through them in order.
proof fn lemma_run_few(m: Machine, s: Seq<InstrV>)
    requires
        s.len() == 2 || s.len() == 4 || s.len() == 6,
    ensures
        s.len() == 2 ==> run(m, s) == step(step(m, s[0]), s[1]),
        s.len() == 4 ==> run(m, s) == step(step(step(step(m, s[0]), s[1]), s[2]), s[3]),
        s.len() == 6 ==> run(m, s) == step(
            step(step(step(step(step(m, s[0]), s[1]), s[2]), s[3]), s[4]),
            s[5],
        ),
{
    reveal_with_fuel(run_from, 7);
}

/// A number check on a tagged number passes: it sets the zero flag and
/// changes nothing else that the code reads.
proof fn lemma_check_passes(m: Machine, r: Register, a: int)
    requires
        m.left is None,
        m.regs.contains_key(r),
        m.regs[r] == 2 * a,
        MIN_LITERAL <= a <= MAX_LITERAL,
    ensures
        run(m, check_num(r)) == (Machine { zf: true, sf: false, of: false, ..m }),
{
    let x = (2 * a) as i64;
    lemma_even_bits(x, x);
    lemma_run_few(m, check_num(r));
    assert(((x as i64) & (1i64)) as int == 0);
}

/// Both number checks pass on tagged numbers.
proof fn lemma_checks_pass(m: Machine, a: int, b: int)
    requires
        holds_pair(m, a, b),
        MIN_LITERAL <= a <= MAX_LITERAL,
        MIN_LITERAL <= b <= MAX_LITERAL,
    ensures
        run(m, check_num(Register::RAX) + check_num(Register::RBX)) == (Machine {
            zf: true,
            sf: false,
            of: false,
            ..m
        }),
{
    lemma_check_passes(m, Register::RAX, a);
    let m1 = Machine { zf: true, sf: false, of: false, ..m };
    lemma_check_passes(m1, Register::RBX, b);
    lemma_run_concat(m, check_num(Register::RAX), check_num(Register::RBX));
}

/// After both number checks, the rest of an operator's code.
proof fn lemma_after_checks(op: BinaryOp, a: int, b: int, m: Machine)
    requires
        op != BinaryOp::Equal,
        holds_pair(m, a, b),
        MIN_LITERAL <= a <= MAX_LITERAL,
        MIN_LITERAL <= b <= MAX_LITERAL,
    ensures
        run(m, binary_tail(op)) == run(
            Machine { zf: true, sf: false, of: false, ..m },
            binary_tail(op).skip(4),
        ),
{
    let checks = check_num(Register::RAX) + check_num(Register::RBX);
    let rest = binary_tail(op).skip(4);
    assert(binary_tail(op) =~= checks + rest);
    lemma_run_concat(m, checks, rest);
    lemma_checks_pass(m, a, b);
}

/// A comparison's code leaves true exactly where the comparison holds.
proof fn lemma_compare_tail(op: BinaryOp, a: int, b: int, m: Machine)
    requires
        op == BinaryOp::Greater || op == BinaryOp::GreaterEqual || op == BinaryOp::Less || op
            == BinaryOp::LessEqual,
        holds_pair(m, a, b),
        MIN_LITERAL <= a <= MAX_LITERAL,
        MIN_LITERAL <= b <= MAX_LITERAL,
    ensures
        computes(op, a, b, run(m, binary_tail(op))),
{
    lemma_after_checks(op, a, b, m);
    let m1 = Machine { zf: true, sf: false, of: false, ..m };
    let rest = binary_tail(op).skip(4);
    lemma_run_few(m1, rest);
    lemma_compare_flags(2 * a, 2 * b);
    let c = step(m1, rest[0]);
    assert(c.zf == (a == b));
    assert((c.sf == c.of) == (a >= b));
}

/// `+` and `-` leave the tagged sum or difference, or leave to `overflow`.
proof fn lemma_add_sub_tail(op: BinaryOp, a: int, b: int, m: Machine)
    requires
        op == BinaryOp::Plus || op == BinaryOp::Minus,
        holds_pair(m, a, b),
        MIN_LITERAL <= a <= MAX_LITERAL,
        MIN_LITERAL <= b <= MAX_LITERAL,
    ensures
        computes(op, a, b, run(m, binary_tail(op))),
{
    lemma_after_checks(op, a, b, m);
    let m1 = Machine { zf: true, sf: false, of: false, ..m };
    lemma_run_few(m1, binary_tail(op).skip(4));
}

/// Shifting right by one halves an even number exactly, and shifting left
/// by one doubles.
proof fn lemma_shift_one(a: int, p: int)
    ensures
        sar(2 * a, 1) == a,
        sal(p, 1) == 2 * p,
{
    reveal_with_fuel(sar, 2);
    reveal_with_fuel(sal, 2);
    assert((2 * a) / 2 == a);
}

/// `*` untags both numbers, multiplies and tags again, leaving to
/// `overflow` where either product does not fit.
#[verifier::rlimit(80)]
proof fn lemma_times_tail(a: int, b: int, m: Machine)
    requires
        holds_pair(m, a, b),
        MIN_LITERAL <= a <= MAX_LITERAL,
        MIN_LITERAL <= b <= MAX_LITERAL,
    ensures
        computes(BinaryOp::Times, a, b, run(m, binary_tail(BinaryOp::Times))),
{
    lemma_after_checks(BinaryOp::Times, a, b, m);
    let m1 = Machine { zf: true, sf: false, of: false, ..m };
    let rest = binary_tail(BinaryOp::Times).skip(4);
    let rax = ValV::Reg(Register::RAX);
    let rbx = ValV::Reg(Register::RBX);
    assert(rest =~= seq![
        InstrV::Sar(rax, ValV::Imm(1)),
        InstrV::Sar(rbx, ValV::Imm(1)),
        InstrV::IMul(rax, rbx),
        InstrV::Jo(label("overflow"@)),
        InstrV::Sal(rax, ValV::Imm(1)),
        InstrV::Jo(label("overflow"@)),
    ]);
    lemma_run_few(m1, rest);
    lemma_shift_one(a, a * b);
    lemma_shift_one(b, a * b);
    let s1 = step(m1, rest[0]);
    assert(s1.regs[Register::RAX] == a && s1.regs[Register::RBX] == 2 * b && s1.left is None);
    let s2 = step(s1, rest[1]);
    assert(s2.regs[Register::RAX] == a && s2.regs[Register::RBX] == b && s2.left is None);
    let p = a * b;
    let s3 = step(s2, rest[2]);
    assert(s3.regs[Register::RAX] == wrap(p) && s3.of == !(i64::MIN <= p <= i64::MAX)
        && s3.left is None);
    let s4 = step(s3, rest[3]);
    if i64::MIN <= p <= i64::MAX {
        assert(s4 == s3);
        let s5 = step(s4, rest[4]);
        assert(s5.regs[Register::RAX] == wrap(2 * p) && s5.of == !(i64::MIN <= 2 * p <= i64::MAX)
            && s5.left is None);
    } else {
        assert(s4.left == Some("overflow"@));
        assert(!(i64::MIN <= 2 * p <= i64::MAX));
    }
}

/// `=` leaves true exactly where the two numbers are equal.
#[verifier::rlimit(80)]
proof fn lemma_equal_tail(a: int, b: int, m: Machine)
    requires
        holds_pair(m, a, b),
        MIN_LITERAL <= a <= MAX_LITERAL,
        MIN_LITERAL <= b <= MAX_LITERAL,
    ensures
        computes(BinaryOp::Equal, a, b, run(m, binary_tail(BinaryOp::Equal))),
{
    let tail = binary_tail(BinaryOp::Equal);
    let front = tail.take(4);
    let rax = ValV::Reg(Register::RAX);
    let rbx = ValV::Reg(Register::RBX);
    let rbp = ValV::Reg(Register::RBP);
    assert(front =~= seq![
        InstrV::Xor(rbx, rax),
        InstrV::IMov(rbp, ValV::ValTrue),
        InstrV::IMov(rax, ValV::ValFalse),
        InstrV::Cmovz(rax, rbp),
    ]);
    assert(tail =~= front + check_num(Register::RBX));
    lemma_run_concat(m, front, check_num(Register::RBX));
    lemma_run_few(m, front);
    let x = (2 * a) as i64;
    let y = (2 * b) as i64;
    lemma_even_bits(y, x);
    let z = (y ^ x) as int;
    let s1 = step(m, front[0]);
    assert(s1.regs[Register::RBX] == z && s1.zf == (a == b) && s1.left is None);
    let s2 = step(s1, front[1]);
    let s3 = step(s2, front[2]);
    let s4 = step(s3, front[3]);
    assert(s4.regs[Register::RAX] == if a == b { 3int } else { 1int });
    assert(s4.regs[Register::RBX] == z && s4.left is None);
    assert(z % 2 == 0) by {
        assert((y ^ x) % 2 == 0) by (bit_vector)
            requires
                (y ^ x) & 1 == 0,
        ;
    }
    lemma_check_passes(s4, Register::RBX, z / 2);
}

/// The code after the operands of an operator computes the operator on
/// tagged numbers.
pub proof fn lemma_tail_computes(op: BinaryOp, a: int, b: int, m: Machine)
    requires
        holds_pair(m, a, b),
        MIN_LITERAL <= a <= MAX_LITERAL,
        MIN_LITERAL <= b <= MAX_LITERAL,
    ensures
        computes(op, a, b, run(m, binary_tail(op))),
{
    match op {
        BinaryOp::Equal => lemma_equal_tail(a, b, m),
        BinaryOp::Times => lemma_times_tail(a, b, m),
        BinaryOp::Plus | BinaryOp::Minus => lemma_add_sub_tail(op, a, b, m),
        _ => lemma_compare_tail(op, a, b, m),
    }
}

/// The code compiled for an operator applied to two numbers computes that
/// operator: run from any machine state, it leaves in `rax` the true word
/// exactly where the comparison holds (the false word otherwise), or the
/// tagged sum, difference or product of the first number and the second,
/// or leaves to `overflow` where that result does not fit in a word.
pub proof fn lemma_binary_op_meaning(
    op: BinaryOp,
    a: int,
    b: int,
    stack: int,
    sc: Scope,
    g: Gen,
    m: Machine,
)
    requires
        MIN_LITERAL <= a <= MAX_LITERAL,
        MIN_LITERAL <= b <= MAX_LITERAL,
        i64::MIN <= stack <= i64::MAX,
        m.left is None,
    ensures
        ({
            let e = ExprV::EBinaryOp(
                op,
                Box::new(ExprV::EZeroOp(ZeroOpV::Number((2 * a) as i64))),
                Box::new(ExprV::EZeroOp(ZeroOpV::Number((2 * b) as i64))),
            );
            cg(e, stack, sc, g) matches Ok(h) && computes(op, a, b, run(m, added(g, h)))
        }),
{
    let x = (2 * a) as i64;
    let y = (2 * b) as i64;
    let e = ExprV::EBinaryOp(
        op,
        Box::new(ExprV::EZeroOp(ZeroOpV::Number(x))),
        Box::new(ExprV::EZeroOp(ZeroOpV::Number(y))),
    );
    let rax = reg(Register::RAX);
    let slot = ValV::RegOffset(Register::RSP, stack as i64);
    let g1 = emit(g, seq![mov(rax, ValV::Imm(y))]);
    let g1m = emit(g1, seq![mov(slot, rax)]);
    let g2 = emit(g1m, seq![mov(rax, ValV::Imm(x))]);
    let h = emit(g2, seq![mov(reg(Register::RBX), slot)] + binary_tail(op));
    assert(cg(ExprV::EZeroOp(ZeroOpV::Number(y)), stack, sc, g) == Ok::<Gen, crate::codegen::CgError>(g1));
    assert(cg(ExprV::EZeroOp(ZeroOpV::Number(x)), stack + 1, sc, g1m) == Ok::<Gen, crate::codegen::CgError>(g2));
    assert(cg(e, stack, sc, g) == Ok::<Gen, crate::codegen::CgError>(h));
    let prefix = seq![
        mov(rax, ValV::Imm(y)),
        mov(slot, rax),
        mov(rax, ValV::Imm(x)),
        mov(reg(Register::RBX), slot),
    ];
    assert(h.code =~= g.code + (prefix + binary_tail(op)));
    assert(added(g, h) =~= prefix + binary_tail(op));
    lemma_run_concat(m, prefix, binary_tail(op));
    lemma_run_few(m, prefix);
    let m4 = run(m, prefix);
    assert(holds_pair(m4, a, b));
    lemma_tail_computes(op, a, b, m4);
}

/// A value of the language as the word that holds it: a number `n` as the
/// tagged word `2 * n`, `true` as 3, `false` as 1.
pub enum Value {
    Num(int),
    Bool(bool),
}

/// The word of a value.
pub open spec fn word(v: Value) -> int {
    match v {
        Value::Num(n) => 2 * n,
        Value::Bool(b) => if b {
            3
        } else {
            1
        },
    }
}

/// The expression without operands that stands for a value.
pub open spec fn literal(v: Value) -> ExprV {
    match v {
        Value::Num(n) => ExprV::EZeroOp(ZeroOpV::Number((2 * n) as i64)),
        Value::Bool(b) => ExprV::EZeroOp(if b {
            ZeroOpV::OpTrue
        } else {
            ZeroOpV::OpFalse
        }),
    }
}

/// What an operator of one operand gives for the value `v`, as the machine
/// `f` holds it after the operator's code: `isnum` and `isbool` leave the
/// true word exactly where the value is of that kind, the false word
/// otherwise; `add1` and `sub1` leave the tagged next or previous number,
/// or leave to `overflow` where it does not fit.
pub open spec fn computes_unary(op: UnitaryOp, v: Value, f: Machine) -> bool {
    let rax = f.regs[Register::RAX];
    match op {
        UnitaryOp::IsNum => f.left is None && rax == if v is Num { 3int } else { 1int },
        UnitaryOp::IsBool => f.left is None && rax == if v is Bool { 3int } else { 1int },
        UnitaryOp::Add1 => v is Num ==> if i64::MIN <= 2 * (v->Num_0 + 1) <= i64::MAX {
            f.left is None && rax == 2 * (v->Num_0 + 1)
        } else {
            f.left == Some("overflow"@)
        },
        UnitaryOp::Sub1 => v is Num ==> if i64::MIN <= 2 * (v->Num_0 - 1) <= i64::MAX {
            f.left is None && rax == 2 * (v->Num_0 - 1)
        } else {
            f.left == Some("overflow"@)
        },
        _ => true,
    }
}

/// Bits of the words of values: a number's word is even, `true`'s and
/// `false`'s are odd, and complementing flips the low bit.
proof fn lemma_word_bits(x: i64)
    ensures
        x % 2 == 0 ==> x & 1 == 0 && (!x) & 1 == 1,
        x == 3 ==> x & 1 == 1 && (!x) & 1 == 0,
        x == 1 ==> x & 1 == 1 && (!x) & 1 == 0,
{
    assert(x % 2 == 0 ==> x & 1 == 0 && (!x) & 1 == 1) by (bit_vector);
    assert(x == 3 ==> x & 1 == 1 && (!x) & 1 == 0) by (bit_vector);
    assert(x == 1 ==> x & 1 == 1 && (!x) & 1 == 0) by (bit_vector);
}

/// The machine with the word of `v` loaded into `rax`.
pub open spec fn loaded(m: Machine, v: Value) -> Machine {
    Machine { regs: m.regs.insert(Register::RAX, word(v)), ..m }
}

/// The code for an operator of one operand applied to a literal loads the
/// literal's word into `rax`, then runs the operator's own code.
proof fn lemma_unary_prefix(op: UnitaryOp, v: Value, stack: int, sc: Scope, g: Gen, m: Machine)
    requires
        op == UnitaryOp::IsNum || op == UnitaryOp::IsBool || op == UnitaryOp::Add1 || op
            == UnitaryOp::Sub1,
        v matches Value::Num(n) ==> MIN_LITERAL <= n <= MAX_LITERAL,
        m.left is None,
    ensures
        cg(ExprV::EUnitaryOp(op, Box::new(literal(v))), stack, sc, g) matches Ok(h) && run(
            m,
            added(g, h),
        ) == run(loaded(m, v), unary_tail(op, sc)->Ok_0),
        unary_tail(op, sc) is Ok,
{
    let rax = reg(Register::RAX);
    let src = match v {
        Value::Num(n) => ValV::Imm((2 * n) as i64),
        Value::Bool(b) => if b {
            ValV::ValTrue
        } else {
            ValV::ValFalse
        },
    };
    let g1 = emit(g, seq![mov(rax, src)]);
    assert(cg(literal(v), stack, sc, g) == Ok::<Gen, crate::codegen::CgError>(g1));
    let tail = unary_tail(op, sc)->Ok_0;
    let h = emit(g1, tail);
    assert(cg(ExprV::EUnitaryOp(op, Box::new(literal(v))), stack, sc, g) == Ok::<
        Gen,
        crate::codegen::CgError,
    >(h));
    assert(added(g, h) =~= seq![mov(rax, src)] + tail);
    lemma_run_concat(m, seq![mov(rax, src)], tail);
    reveal_with_fuel(run_from, 2);
    assert(run(m, seq![mov(rax, src)]) == step(m, mov(rax, src)));
    assert(step(m, mov(rax, src)) == loaded(m, v));
}

/// `isnum` and `isbool` tell numbers from booleans.
#[verifier::rlimit(50)]
proof fn lemma_kind_tests(op: UnitaryOp, v: Value, sc: Scope, m: Machine)
    requires
        op == UnitaryOp::IsNum || op == UnitaryOp::IsBool,
        v matches Value::Num(n) ==> MIN_LITERAL <= n <= MAX_LITERAL,
        m.left is None,
    ensures
        computes_unary(op, v, run(loaded(m, v), unary_tail(op, sc)->Ok_0)),
{
    let m1 = loaded(m, v);
    let tail = unary_tail(op, sc)->Ok_0;
    let x = word(v) as i64;
    assert(x as int == word(v));
    lemma_word_bits(x);
    reveal_with_fuel(sal, 2);
    if op == UnitaryOp::IsNum {
        lemma_run_few(m1, tail);
        let s1 = step(m1, tail[0]);
        assert(s1.regs[Register::RAX] == (!x) as int);
        let nx = !x;
        assert(i64::MIN <= !x <= i64::MAX) by (bit_vector);
        assert(((nx as int) as i64) == nx);
        assert((((nx as int) as i64) & ((1i64 as int) as i64)) == nx & 1);
        assert(tail[1] == InstrV::And(reg(Register::RAX), ValV::Imm(1)));
        let s2 = step(s1, tail[1]);
        assert(s2.regs[Register::RAX] == if v is Num { 1int } else { 0int });
        let s3 = step(s2, tail[2]);
        assert(s3.regs[Register::RAX] == if v is Num { 2int } else { 0int });
    } else {
        reveal_with_fuel(run_from, 4);
        let s1 = step(m1, tail[0]);
        assert(s1.regs[Register::RAX] == if v is Num { 0int } else { 1int });
        let s2 = step(s1, tail[1]);
        assert(s2.regs[Register::RAX] == if v is Num { 0int } else { 2int });
        assert(run(m1, tail) == step(s2, tail[2]));
    }
}

/// `add1` and `sub1` step a number by one, or leave to `overflow`.
proof fn lemma_step_by_one(op: UnitaryOp, n: int, sc: Scope, m: Machine)
    requires
        op == UnitaryOp::Add1 || op == UnitaryOp::Sub1,
        MIN_LITERAL <= n <= MAX_LITERAL,
        m.left is None,
    ensures
        computes_unary(op, Value::Num(n), run(loaded(m, Value::Num(n)), unary_tail(op, sc)->Ok_0)),
{
    let m1 = loaded(m, Value::Num(n));
    let tail = unary_tail(op, sc)->Ok_0;
    let rest = tail.skip(2);
    assert(tail =~= check_num(Register::RAX) + rest);
    lemma_run_concat(m1, check_num(Register::RAX), rest);
    lemma_check_passes(m1, Register::RAX, n);
    let m2 = Machine { zf: true, sf: false, of: false, ..m1 };
    lemma_run_few(m2, rest);
}

/// The code compiled for `isnum`, `isbool`, `add1` or `sub1` applied to a
/// number or a boolean computes that operator on it, run from any machine
/// state.
pub proof fn lemma_unary_op_meaning(op: UnitaryOp, v: Value, stack: int, sc: Scope, g: Gen, m: Machine)
    requires
        op == UnitaryOp::IsNum || op == UnitaryOp::IsBool || op == UnitaryOp::Add1 || op
            == UnitaryOp::Sub1,
        v matches Value::Num(n) ==> MIN_LITERAL <= n <= MAX_LITERAL,
        m.left is None,
    ensures
        cg(ExprV::EUnitaryOp(op, Box::new(literal(v))), stack, sc, g) matches Ok(h) && computes_unary(
            op,
            v,
            run(m, added(g, h)),
        ),
{
    lemma_unary_prefix(op, v, stack, sc, g, m);
    if op == UnitaryOp::IsNum || op == UnitaryOp::IsBool {
        lemma_kind_tests(op, v, sc, m);
    } else if v is Num {
        lemma_step_by_one(op, v->Num_0, sc, m);
    }
}

} // verus!
