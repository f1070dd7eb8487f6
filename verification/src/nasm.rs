//! The text of instructions, in NASM syntax.
use vstd::prelude::*;

use crate::text::{decimal, i64_text, join2, join3};
use crate::types::{instrs_view, Instr, InstrV, Register, Val, ValV};

verus! {

/// Whether an operand can be written out: a memory operand is an offset
/// from `rsp` small enough that its byte offset fits in an `i64`.
pub open spec fn renderable_val(v: ValV) -> bool {
    match v {
        ValV::RegOffset(r, n) => r == Register::RSP && i64::MIN <= 8 * n <= i64::MAX,
        _ => true,
    }
}

/// Whether an instruction can be written out: its operands can, and the
/// destination of `imul` and of the conditional moves is a register.
pub open spec fn renderable_instr(i: InstrV) -> bool {
    match i {
        InstrV::IMul(a, b) | InstrV::Cmovg(a, b) | InstrV::Cmovge(a, b) | InstrV::Cmovl(a, b)
        | InstrV::Cmovle(a, b) | InstrV::Cmovz(a, b) => a is Reg && renderable_val(b),
        InstrV::IMov(a, b) | InstrV::IAdd(a, b) | InstrV::ISub(a, b) | InstrV::And(a, b)
        | InstrV::Xor(a, b) | InstrV::Shl(a, b) | InstrV::Sal(a, b) | InstrV::Sar(a, b)
        | InstrV::Cmp(a, b) | InstrV::Test(a, b) => renderable_val(a) && renderable_val(b),
        InstrV::Not(a) | InstrV::Inc(a) | InstrV::ILabel(a) | InstrV::Jmp(a) | InstrV::Je(a)
        | InstrV::Jo(a) | InstrV::Jnz(a) | InstrV::Call(a) => renderable_val(a),
        InstrV::Ret => true,
    }
}

/// Whether every instruction of `s` can be written out.
pub open spec fn all_renderable(s: Seq<InstrV>) -> bool {
    forall|i: int| 0 <= i < s.len() ==> #[trigger] renderable_instr(s[i])
}

/// `after` holds what `before` holds, and more instructions that can all be
/// written out.
pub open spec fn extends(before: Seq<Instr>, after: Seq<Instr>) -> bool {
    &&& before.len() <= after.len()
    &&& after.take(before.len() as int) == before
    &&& forall|i: int|
        before.len() <= i < after.len() ==> #[trigger] renderable_instr(after[i]@)
}

pub broadcast proof fn lemma_extends_trans(a: Seq<Instr>, b: Seq<Instr>, c: Seq<Instr>)
    requires
        #[trigger] extends(a, b),
        #[trigger] extends(b, c),
    ensures
        extends(a, c),
{
    assert(c.take(a.len() as int) =~= b.take(a.len() as int));
    assert forall|i: int| a.len() <= i < c.len() implies #[trigger] renderable_instr(c[i]@) by {
        if i < b.len() {
            assert(c[i] == c.take(b.len() as int)[i]);
        }
    }
}

pub proof fn lemma_extends_refl(a: Seq<Instr>)
    ensures
        extends(a, a),
{
    assert(a.take(a.len() as int) =~= a);
}

/// The view of the instructions of `after` splits into those of `before`
/// and the ones appended.
pub proof fn lemma_view_split(before: Seq<Instr>, after: Seq<Instr>)
    requires
        extends(before, after),
    ensures
        instrs_view(after) == instrs_view(before) + instrs_view(after).skip(before.len() as int),
{
    assert forall|i: int| 0 <= i < before.len() implies after[i] == before[i] by {
        assert(after.take(before.len() as int)[i] == after[i]);
    }
    assert(instrs_view(after) =~= instrs_view(before) + instrs_view(after).skip(
        before.len() as int,
    ));
}

/// The name of a register.
pub open spec fn reg_name(r: Register) -> Seq<char> {
    match r {
        Register::RAX => "rax"@,
        Register::RBX => "rbx"@,
        Register::RCX => "rcx"@,
        Register::RDX => "rdx"@,
        Register::RSP => "rsp"@,
        Register::RDI => "rdi"@,
        Register::RSI => "rsi"@,
        Register::RBP => "rbp"@,
        Register::R8 => "r8"@,
        Register::R9 => "r9"@,
    }
}

/// The text of an operand. Booleans are the tagged words 3 (true) and
/// 1 (false); a stack slot `n` is the quadword `8 * n` bytes below `rsp`.
pub open spec fn val_text(v: ValV) -> Seq<char> {
    match v {
        ValV::Reg(r) => reg_name(r),
        ValV::ValTrue => "3"@,
        ValV::ValFalse => "1"@,
        ValV::Imm(n) => decimal(n as int),
        ValV::RegOffset(_, n) => "[rsp - "@ + decimal(8 * n) + "]"@,
        ValV::Label(s) => s,
    }
}

/// `mnemonic a, b`.
pub open spec fn two_text(m: Seq<char>, a: ValV, b: ValV) -> Seq<char> {
    m + " "@ + val_text(a) + ", "@ + val_text(b)
}

/// `mnemonic a`.
pub open spec fn one_text(m: Seq<char>, a: ValV) -> Seq<char> {
    m + " "@ + val_text(a)
}

/// The line of an instruction; a label stands alone, and `ret` ends with a
/// newline of its own.
pub open spec fn instr_text(i: InstrV) -> Seq<char> {
    match i {
        InstrV::IMov(a, b) => two_text("mov"@, a, b),
        InstrV::IAdd(a, b) => two_text("add"@, a, b),
        InstrV::ISub(a, b) => two_text("sub"@, a, b),
        InstrV::IMul(a, b) => two_text("imul"@, a, b),
        InstrV::And(a, b) => two_text("and"@, a, b),
        InstrV::Xor(a, b) => two_text("xor"@, a, b),
        InstrV::Shl(a, b) => two_text("shl"@, a, b),
        InstrV::Sal(a, b) => two_text("sal"@, a, b),
        InstrV::Sar(a, b) => two_text("sar"@, a, b),
        InstrV::Cmp(a, b) => two_text("cmp"@, a, b),
        InstrV::Test(a, b) => two_text("test"@, a, b),
        InstrV::Cmovg(a, b) => two_text("cmovg"@, a, b),
        InstrV::Cmovge(a, b) => two_text("cmovge"@, a, b),
        InstrV::Cmovl(a, b) => two_text("cmovl"@, a, b),
        InstrV::Cmovle(a, b) => two_text("cmovle"@, a, b),
        InstrV::Cmovz(a, b) => two_text("cmovz"@, a, b),
        InstrV::Not(a) => one_text("not"@, a),
        InstrV::Inc(a) => one_text("inc"@, a),
        InstrV::ILabel(a) => val_text(a),
        InstrV::Jmp(a) => one_text("jmp"@, a),
        InstrV::Je(a) => one_text("je"@, a),
        InstrV::Jo(a) => one_text("jo"@, a),
        InstrV::Jnz(a) => one_text("jnz"@, a),
        InstrV::Call(a) => one_text("call"@, a),
        InstrV::Ret => "ret\n"@,
    }
}

/// The place of an instruction's kind in the instruction set.
pub open spec fn kind(i: InstrV) -> int {
    match i {
        InstrV::IMov(_, _) => 0,
        InstrV::IAdd(_, _) => 1,
        InstrV::ISub(_, _) => 2,
        InstrV::IMul(_, _) => 3,
        InstrV::And(_, _) => 4,
        InstrV::Xor(_, _) => 5,
        InstrV::Not(_) => 6,
        InstrV::Shl(_, _) => 7,
        InstrV::Sal(_, _) => 8,
        InstrV::Sar(_, _) => 9,
        InstrV::Cmp(_, _) => 10,
        InstrV::Test(_, _) => 11,
        InstrV::Cmovg(_, _) => 12,
        InstrV::Cmovge(_, _) => 13,
        InstrV::Cmovl(_, _) => 14,
        InstrV::Cmovle(_, _) => 15,
        InstrV::Cmovz(_, _) => 16,
        InstrV::Inc(_) => 17,
        InstrV::ILabel(_) => 18,
        InstrV::Jmp(_) => 19,
        InstrV::Je(_) => 20,
        InstrV::Jo(_) => 21,
        InstrV::Jnz(_) => 22,
        InstrV::Call(_) => 23,
        InstrV::Ret => 24,
    }
}

/// Whether `t` has the character `c` at `k`.
pub open spec fn at(t: Seq<char>, k: int, c: char) -> bool {
    0 <= k < t.len() && t[k] == c
}

/// The kind of instruction that a line of NASM text names, read letter by
/// letter from its mnemonic and the space after it (`ret` alone on its
/// line); -1 where the line names none.
pub open spec fn named_kind(t: Seq<char>) -> int {
    if at(t, 0, 'm') && at(t, 1, 'o') && at(t, 2, 'v') && at(t, 3, ' ') {
        0
    } else if at(t, 0, 'a') && at(t, 1, 'd') && at(t, 2, 'd') && at(t, 3, ' ') {
        1
    } else if at(t, 0, 's') && at(t, 1, 'u') && at(t, 2, 'b') && at(t, 3, ' ') {
        2
    } else if at(t, 0, 'i') && at(t, 1, 'm') && at(t, 2, 'u') && at(t, 3, 'l') && at(t, 4, ' ') {
        3
    } else if at(t, 0, 'a') && at(t, 1, 'n') && at(t, 2, 'd') && at(t, 3, ' ') {
        4
    } else if at(t, 0, 'x') && at(t, 1, 'o') && at(t, 2, 'r') && at(t, 3, ' ') {
        5
    } else if at(t, 0, 'n') && at(t, 1, 'o') && at(t, 2, 't') && at(t, 3, ' ') {
        6
    } else if at(t, 0, 's') && at(t, 1, 'h') && at(t, 2, 'l') && at(t, 3, ' ') {
        7
    } else if at(t, 0, 's') && at(t, 1, 'a') && at(t, 2, 'l') && at(t, 3, ' ') {
        8
    } else if at(t, 0, 's') && at(t, 1, 'a') && at(t, 2, 'r') && at(t, 3, ' ') {
        9
    } else if at(t, 0, 'c') && at(t, 1, 'm') && at(t, 2, 'p') && at(t, 3, ' ') {
        10
    } else if at(t, 0, 't') && at(t, 1, 'e') && at(t, 2, 's') && at(t, 3, 't') && at(t, 4, ' ') {
        11
    } else if at(t, 0, 'c') && at(t, 1, 'm') && at(t, 2, 'o') && at(t, 3, 'v') {
        if at(t, 4, 'g') && at(t, 5, ' ') {
            12
        } else if at(t, 4, 'g') && at(t, 5, 'e') && at(t, 6, ' ') {
            13
        } else if at(t, 4, 'l') && at(t, 5, ' ') {
            14
        } else if at(t, 4, 'l') && at(t, 5, 'e') && at(t, 6, ' ') {
            15
        } else if at(t, 4, 'z') && at(t, 5, ' ') {
            16
        } else {
            -1
        }
    } else if at(t, 0, 'i') && at(t, 1, 'n') && at(t, 2, 'c') && at(t, 3, ' ') {
        17
    } else if at(t, 0, 'j') && at(t, 1, 'm') && at(t, 2, 'p') && at(t, 3, ' ') {
        19
    } else if at(t, 0, 'j') && at(t, 1, 'e') && at(t, 2, ' ') {
        20
    } else if at(t, 0, 'j') && at(t, 1, 'o') && at(t, 2, ' ') {
        21
    } else if at(t, 0, 'j') && at(t, 1, 'n') && at(t, 2, 'z') && at(t, 3, ' ') {
        22
    } else if at(t, 0, 'c') && at(t, 1, 'a') && at(t, 2, 'l') && at(t, 3, 'l') && at(t, 4, ' ') {
        23
    } else if t.len() == 4 && at(t, 0, 'r') && at(t, 1, 'e') && at(t, 2, 't') && at(t, 3, '\n') {
        24
    } else {
        -1
    }
}

/// The text of a line begins with its mnemonic and a space.
proof fn lemma_line_head(m: Seq<char>, rest: Seq<char>)
    ensures
        (m + " "@ + rest).len() > m.len(),
        forall|k: int| 0 <= k < m.len() ==> #[trigger] (m + " "@ + rest)[k] == m[k],
        (m + " "@ + rest)[m.len() as int] == ' ',
{
    reveal_strlit(" ");
    assert((m + " "@ + rest)[m.len() as int] == (m + " "@)[m.len() as int]);
}

/// Each line of text names the kind of its instruction, read back from its
/// mnemonic alone: the text of every instruction other than a label begins
/// with that instruction's own NASM mnemonic.
pub proof fn lemma_mnemonic_names_kind(i: InstrV)
    requires
        !(i is ILabel),
    ensures
        named_kind(instr_text(i)) == kind(i),
{
    reveal_strlit("mov");
    reveal_strlit("add");
    reveal_strlit("sub");
    reveal_strlit("imul");
    reveal_strlit("and");
    reveal_strlit("xor");
    reveal_strlit("shl");
    reveal_strlit("sal");
    reveal_strlit("sar");
    reveal_strlit("cmp");
    reveal_strlit("test");
    reveal_strlit("cmovg");
    reveal_strlit("cmovge");
    reveal_strlit("cmovl");
    reveal_strlit("cmovle");
    reveal_strlit("cmovz");
    reveal_strlit("not");
    reveal_strlit("inc");
    reveal_strlit("jmp");
    reveal_strlit("je");
    reveal_strlit("jo");
    reveal_strlit("jnz");
    reveal_strlit("call");
    reveal_strlit("ret\n");
    match i {
        InstrV::IMov(a, b) | InstrV::IAdd(a, b) | InstrV::ISub(a, b) | InstrV::IMul(a, b)
        | InstrV::And(a, b) | InstrV::Xor(a, b) | InstrV::Shl(a, b) | InstrV::Sal(a, b)
        | InstrV::Sar(a, b) | InstrV::Cmp(a, b) | InstrV::Test(a, b) | InstrV::Cmovg(a, b)
        | InstrV::Cmovge(a, b) | InstrV::Cmovl(a, b) | InstrV::Cmovle(a, b) | InstrV::Cmovz(
            a,
            b,
        ) => {
            let rest = val_text(a) + ", "@ + val_text(b);
            let m = match i {
                InstrV::IMov(_, _) => "mov"@,
                InstrV::IAdd(_, _) => "add"@,
                InstrV::ISub(_, _) => "sub"@,
                InstrV::IMul(_, _) => "imul"@,
                InstrV::And(_, _) => "and"@,
                InstrV::Xor(_, _) => "xor"@,
                InstrV::Shl(_, _) => "shl"@,
                InstrV::Sal(_, _) => "sal"@,
                InstrV::Sar(_, _) => "sar"@,
                InstrV::Cmp(_, _) => "cmp"@,
                InstrV::Test(_, _) => "test"@,
                InstrV::Cmovg(_, _) => "cmovg"@,
                InstrV::Cmovge(_, _) => "cmovge"@,
                InstrV::Cmovl(_, _) => "cmovl"@,
                InstrV::Cmovle(_, _) => "cmovle"@,
                _ => "cmovz"@,
            };
            assert(instr_text(i) =~= m + " "@ + rest);
            lemma_line_head(m, rest);
        },
        InstrV::Not(a) | InstrV::Inc(a) | InstrV::Jmp(a) | InstrV::Je(a) | InstrV::Jo(a)
        | InstrV::Jnz(a) | InstrV::Call(a) => {
            let m = match i {
                InstrV::Not(_) => "not"@,
                InstrV::Inc(_) => "inc"@,
                InstrV::Jmp(_) => "jmp"@,
                InstrV::Je(_) => "je"@,
                InstrV::Jo(_) => "jo"@,
                InstrV::Jnz(_) => "jnz"@,
                _ => "call"@,
            };
            assert(instr_text(i) =~= m + " "@ + val_text(a));
            lemma_line_head(m, val_text(a));
        },
        _ => {},
    }
}

/// No two kinds of instruction print alike: where two instructions other
/// than labels have the same text, they are of the same kind.
pub proof fn lemma_kinds_print_apart(i: InstrV, j: InstrV)
    requires
        !(i is ILabel),
        !(j is ILabel),
        instr_text(i) == instr_text(j),
    ensures
        kind(i) == kind(j),
{
    lemma_mnemonic_names_kind(i);
    lemma_mnemonic_names_kind(j);
}

/// The text of a program: each instruction on a line of its own, each line
/// preceded by a newline.
pub open spec fn program_text(s: Seq<InstrV>) -> Seq<char>
    decreases s.len(),
{
    if s.len() == 0 {
        Seq::empty()
    } else {
        program_text(s.drop_last()) + "\n"@ + instr_text(s.last())
    }
}

/// The text of two instruction lists one after the other is the text of
/// the first followed by the text of the second.
pub proof fn lemma_program_text_concat(a: Seq<InstrV>, b: Seq<InstrV>)
    ensures
        program_text(a + b) == program_text(a) + program_text(b),
    decreases b.len(),
{
    if b.len() == 0 {
        assert(a + b =~= a);
        assert(program_text(b) =~= Seq::<char>::empty());
        assert(program_text(a) + program_text(b) =~= program_text(a));
    } else {
        lemma_program_text_concat(a, b.drop_last());
        assert((a + b).drop_last() =~= a + b.drop_last());
        assert((a + b).last() == b.last());
        assert(program_text(a + b) =~= program_text(a) + program_text(b));
    }
}

/// The text of an operand.
pub fn read_val(v: Val) -> (r: String)
    requires
        renderable_val(v@),
    ensures
        r@ == val_text(v@),
{
    match v {
        Val::Reg(Register::RAX) => "rax".to_owned(),
        Val::Reg(Register::RBX) => "rbx".to_owned(),
        Val::Reg(Register::RCX) => "rcx".to_owned(),
        Val::Reg(Register::RDX) => "rdx".to_owned(),
        Val::Reg(Register::RSP) => "rsp".to_owned(),
        Val::Reg(Register::RDI) => "rdi".to_owned(),
        Val::Reg(Register::RSI) => "rsi".to_owned(),
        Val::Reg(Register::RBP) => "rbp".to_owned(),
        Val::Reg(Register::R8) => "r8".to_owned(),
        Val::Reg(Register::R9) => "r9".to_owned(),
        Val::ValTrue => "3".to_owned(),
        Val::ValFalse => "1".to_owned(),
        Val::Imm(n) => i64_text(n),
        Val::RegOffset(_, n) => {
            let bytes = i64_text(8 * n);
            join3("[rsp - ", bytes.as_str(), "]")
        },
        Val::Label(s) => s,
    }
}

/// The destination of an instruction that needs a register there.
pub fn check_reg(val: Val) -> (r: Val)
    requires
        val@ is Reg,
    ensures
        r == val,
{
    val
}

/// `mnemonic a, b`.
fn two_operands(m: &str, a: &Val, b: &Val) -> (r: String)
    requires
        renderable_val(a@),
        renderable_val(b@),
    ensures
        r@ == two_text(m@, a@, b@),
{
    let left = read_val(a.clone());
    let right = read_val(b.clone());
    let mut line = join3(m, " ", left.as_str());
    line.append(", ");
    line.append(right.as_str());
    line
}

/// `mnemonic a`.
fn one_operand(m: &str, a: &Val) -> (r: String)
    requires
        renderable_val(a@),
    ensures
        r@ == one_text(m@, a@),
{
    let operand = read_val(a.clone());
    join3(m, " ", operand.as_str())
}

/// The line of one instruction.
fn instr_line(i: &Instr) -> (r: String)
    requires
        renderable_instr(i@),
    ensures
        r@ == instr_text(i@),
{
    match i {
        Instr::IMov(v1, v2) => two_operands("mov", v1, v2),
        Instr::IAdd(v1, v2) => two_operands("add", v1, v2),
        Instr::ISub(v1, v2) => two_operands("sub", v1, v2),
        Instr::IMul(v1, v2) => two_operands("imul", &check_reg(v1.clone()), v2),
        Instr::And(v1, v2) => two_operands("and", v1, v2),
        Instr::Xor(v1, v2) => two_operands("xor", v1, v2),
        Instr::Shl(v1, v2) => two_operands("shl", v1, v2),
        Instr::Sal(v1, v2) => two_operands("sal", v1, v2),
        Instr::Sar(v1, v2) => two_operands("sar", v1, v2),
        Instr::Cmp(v1, v2) => two_operands("cmp", v1, v2),
        Instr::Test(v1, v2) => two_operands("test", v1, v2),
        Instr::Cmovg(v1, v2) => two_operands("cmovg", &check_reg(v1.clone()), v2),
        Instr::Cmovge(v1, v2) => two_operands("cmovge", &check_reg(v1.clone()), v2),
        Instr::Cmovl(v1, v2) => two_operands("cmovl", &check_reg(v1.clone()), v2),
        Instr::Cmovle(v1, v2) => two_operands("cmovle", &check_reg(v1.clone()), v2),
        Instr::Cmovz(v1, v2) => two_operands("cmovz", &check_reg(v1.clone()), v2),
        Instr::Not(v) => one_operand("not", v),
        Instr::Inc(v) => one_operand("inc", v),
        Instr::ILabel(v) => read_val(v.clone()),
        Instr::Jmp(v) => one_operand("jmp", v),
        Instr::Je(v) => one_operand("je", v),
        Instr::Jo(v) => one_operand("jo", v),
        Instr::Jnz(v) => one_operand("jnz", v),
        Instr::Call(v) => one_operand("call", v),
        Instr::Ret => "ret\n".to_owned(),
    }
}

/// Writes out a program: each instruction on a line of its own.
pub fn stringify(vec: Vec<Instr>) -> (r: String)
    requires
        all_renderable(instrs_view(vec@)),
    ensures
        r@ == program_text(instrs_view(vec@)),
{
    let ghost code = instrs_view(vec@);
    let mut out = String::new();
    let mut i: usize = 0;
    let n = vec.len();
    while i < n
        invariant
            n == vec.len(),
            i <= n,
            code == instrs_view(vec@),
            all_renderable(code),
            out@ == program_text(code.take(i as int)),
        decreases n - i,
    {
        assert(renderable_instr(code[i as int]));
        let line = instr_line(&vec[i]);
        out.append("\n");
        out.append(line.as_str());
        proof {
            assert(code.take(i + 1).drop_last() =~= code.take(i as int));
        }
        i = i + 1;
    }
    proof {
        assert(code.take(n as int) =~= code);
    }
    out
}

} // verus!
