//! The compiler: from expressions to x86-64 instructions.
use vstd::prelude::*;

use crate::codegen::{
    arg_reg, binary_tail, binds_branches, binds_size, branches, cg, cg_block, cg_def, cg_defs,
    cg_let, cg_regs, cg_spill, cg_zero_op, check_num, emit, expr_size, exprs_branches,
    exprs_size, label, mov, on_overflow, param_loc, param_scope, reg, regs_branches, regs_size,
    spill_branches, spill_size, unary_tail, CgError, Gen, Scope, LIMIT, STACK_BASE,
};
use crate::labels::{labels_distinct, lemma_labels_defined_once, programs};
use crate::slots::{lemma_writes_above, writes_ok};
use crate::targets::{lemma_jumps_land, targets_defined};
use crate::nasm::{program_text, stringify, all_renderable, extends, lemma_extends_refl, lemma_view_split, renderable_instr, renderable_val};
use crate::text::{decimal, i64_text, join2, join3, text_is};
use crate::types::{
    binds_model, boxed_model, exprs_model, instrs_view, names_model, BinaryOp, Binding, Expr,
    ExprV, Instr, InstrV, Register, UnitaryOp, Val, ValV, ZeroOp,
};

verus! {

/// What the compiler knows of the type of a value.
#[derive(Debug, Clone, Copy, Hash, PartialEq, Eq, Structural)]
pub enum Type {
    Num,
    Bool,
    Unknown,
}

/// Why an expression cannot be compiled.
#[derive(Debug, Clone, PartialEq, Eq)]
pub enum CompileError {
    /// `input` in a function other than `main`.
    InputOutsideMain,
    /// A variable that no enclosing `let` or parameter binds.
    UnboundVariable(String),
    /// `break` outside any `loop`.
    BreakOutsideLoop,
    /// Two parameters of one function with the same name.
    DuplicateBinding,
    /// An item of a program's definitions that is not a function definition.
    ExpectedDefinition,
    /// A second function of a name already defined.
    NameInUse,
    /// A call of a function not defined before it.
    FunctionNotFound,
    /// A call with another number of arguments than the function has.
    WrongArgCount,
    /// A function definition anywhere but among a program's definitions.
    NestedFuncDef,
}

impl View for CompileError {
    type V = CgError;

    open spec fn view(&self) -> CgError {
        match self {
            CompileError::InputOutsideMain => CgError::InputOutsideMain,
            CompileError::UnboundVariable(s) => CgError::UnboundVariable(s@),
            CompileError::BreakOutsideLoop => CgError::BreakOutsideLoop,
            CompileError::DuplicateBinding => CgError::DuplicateBinding,
            CompileError::ExpectedDefinition => CgError::ExpectedDefinition,
            CompileError::NameInUse => CgError::NameInUse,
            CompileError::FunctionNotFound => CgError::FunctionNotFound,
            CompileError::WrongArgCount => CgError::WrongArgCount,
            CompileError::NestedFuncDef => CgError::NestedFuncDef,
        }
    }
}

/// The variables in scope, as a list of bindings whose latest entry for a
/// name wins; the enclosing function; the label `break` leaves to.
pub struct Namespace {
    pub func: String,
    pub h: Vec<(String, Val)>,
    pub break_label: String,
}

/// The map that a list of bindings stands for: the latest entry of a name wins.
pub open spec fn names_table(s: Seq<(String, Val)>) -> Map<Seq<char>, ValV>
    decreases s.len(),
{
    if s.len() == 0 {
        Map::empty()
    } else {
        names_table(s.drop_last()).insert(s.last().0@, s.last().1@)
    }
}

impl View for Namespace {
    type V = Scope;

    open spec fn view(&self) -> Scope {
        Scope { func: self.func@, names: names_table(self.h@), break_label: self.break_label@ }
    }
}

impl Namespace {
    /// Every place a variable lives can be written out.
    pub open spec fn wf(&self) -> bool {
        forall|i: int| 0 <= i < self.h@.len() ==> renderable_val(#[trigger] self.h@[i].1@)
    }

    /// A copy of this namespace.
    pub fn copy(&self) -> (r: Namespace)
        ensures
            r.h@ == self.h@,
            r.func == self.func,
            r.break_label == self.break_label,
            r@ == self@,
            r.wf() == self.wf(),
    {
        let mut h: Vec<(String, Val)> = Vec::new();
        let mut i: usize = 0;
        while i < self.h.len()
            invariant
                i <= self.h.len(),
                h@ == self.h@.take(i as int),
            decreases self.h.len() - i,
        {
            let (k, v) = &self.h[i];
            h.push((k.clone(), v.clone()));
            proof {
                assert(self.h@.take(i + 1) =~= self.h@.take(i as int).push(self.h@[i as int]));
            }
            i = i + 1;
        }
        proof {
            assert(self.h@.take(self.h.len() as int) =~= self.h@);
        }
        Namespace { func: self.func.clone(), h, break_label: self.break_label.clone() }
    }
}

/// A name bound at index `i` and at none after it maps to that entry.
proof fn lemma_names_lookup(s: Seq<(String, Val)>, i: int)
    requires
        0 <= i < s.len(),
        forall|j: int| i < j < s.len() ==> s[j].0@ != s[i].0@,
    ensures
        names_table(s).contains_key(s[i].0@),
        names_table(s)[s[i].0@] == s[i].1@,
    decreases s.len(),
{
    if i < s.len() - 1 {
        lemma_names_lookup(s.drop_last(), i);
    }
}

/// A name bound nowhere in the list is not in its map.
proof fn lemma_names_absent(s: Seq<(String, Val)>, k: Seq<char>)
    requires
        forall|j: int| 0 <= j < s.len() ==> s[j].0@ != k,
    ensures
        !names_table(s).contains_key(k),
    decreases s.len(),
{
    if s.len() > 0 {
        lemma_names_absent(s.drop_last(), k);
    }
}

/// The functions defined so far with their arity, as a list whose latest
/// entry for a name wins; and the types recorded for values.
pub struct State {
    pub defs: Vec<(String, usize)>,
    pub types: Vec<(Val, Type)>,
}

/// The map that a list of definitions stands for.
pub open spec fn arity_table(s: Seq<(String, usize)>) -> Map<Seq<char>, nat>
    decreases s.len(),
{
    if s.len() == 0 {
        Map::empty()
    } else {
        arity_table(s.drop_last()).insert(s.last().0@, s.last().1 as nat)
    }
}

proof fn lemma_arity_lookup(s: Seq<(String, usize)>, i: int)
    requires
        0 <= i < s.len(),
        forall|j: int| i < j < s.len() ==> s[j].0@ != s[i].0@,
    ensures
        arity_table(s).contains_key(s[i].0@),
        arity_table(s)[s[i].0@] == s[i].1 as nat,
    decreases s.len(),
{
    if i < s.len() - 1 {
        lemma_arity_lookup(s.drop_last(), i);
    }
}

proof fn lemma_arity_absent(s: Seq<(String, usize)>, k: Seq<char>)
    requires
        forall|j: int| 0 <= j < s.len() ==> s[j].0@ != k,
    ensures
        !arity_table(s).contains_key(k),
    decreases s.len(),
{
    if s.len() > 0 {
        lemma_arity_absent(s.drop_last(), k);
    }
}

/// The code generation state that a buffer, a label counter and a compiler
/// state stand for.
pub open spec fn gen_of(v: Seq<Instr>, uid: i64, st: State) -> Gen {
    Gen { code: instrs_view(v), uid: uid as int, defs: arity_table(st.defs@) }
}

broadcast use crate::nasm::lemma_extends_trans;

/// Appends one instruction.
fn put(v: &mut Vec<Instr>, i: Instr)
    requires
        renderable_instr(i@),
    ensures
        final(v)@ == old(v)@.push(i),
        instrs_view(final(v)@) == instrs_view(old(v)@).push(i@),
        extends(old(v)@, final(v)@),
{
    v.push(i);
    proof {
        assert(instrs_view(v@) =~= instrs_view(old(v)@).push(i@));
        assert(v@.take(old(v)@.len() as int) =~= old(v)@);
    }
}

/// Hands out the next label number.
fn generate_id(uid: &mut i64) -> (id: i64)
    requires
        *old(uid) < i64::MAX,
    ensures
        *final(uid) == *old(uid) + 1,
        id == *final(uid),
{
    *uid += 1;
    *uid
}

/// Records a type for a value; the latest record for a value wins.
fn set_type(val: &Val, datatype: Type, st: &mut State)
    ensures
        final(st).defs == old(st).defs,
        final(st).types@ == old(st).types@.push((*val, datatype)),
{
    st.types.push((val.clone(), datatype));
}

/// The type of a value: the compiler does not consult its records, so it
/// knows nothing of any value.
fn get_type(val: &Val) -> (t: Type)
    ensures
        t == Type::Unknown,
{
    Type::Unknown
}

/// Whether two types are known, and the same.
fn matches_type(type1: Type, type2: Type) -> (r: bool)
    ensures
        r == (type1 != Type::Unknown && type2 != Type::Unknown && type1 == type2),
{
    if type1 == Type::Unknown || type2 == Type::Unknown {
        return false;
    }
    type1 == type2
}

/// Stores `reg` in the stack slot `stack`, which then moves on by one.
fn push(v: &mut Vec<Instr>, reg: Register, stack: &mut i64, st: &mut State) -> (loc: Val)
    requires
        0 <= *old(stack) < LIMIT,
    ensures
        loc@ == ValV::RegOffset(Register::RSP, *old(stack)),
        renderable_val(loc@),
        *final(stack) == *old(stack) + 1,
        instrs_view(final(v)@) == instrs_view(old(v)@).push(InstrV::IMov(loc@, ValV::Reg(reg))),
        extends(old(v)@, final(v)@),
        final(st).defs == old(st).defs,
{
    let loc = Val::RegOffset(Register::RSP, *stack);
    put(v, Instr::IMov(loc.clone(), Val::Reg(reg)));
    set_type(&loc, get_type(&Val::Reg(reg)), st);
    *stack += 1;
    loc
}

/// Loads `loc` into `reg`.
fn load(v: &mut Vec<Instr>, reg: Register, loc: &Val, st: &mut State)
    requires
        renderable_val(loc@),
    ensures
        instrs_view(final(v)@) == instrs_view(old(v)@).push(InstrV::IMov(ValV::Reg(reg), loc@)),
        extends(old(v)@, final(v)@),
        final(st).defs == old(st).defs,
{
    put(v, Instr::IMov(Val::Reg(reg), loc.clone()));
    set_type(&Val::Reg(reg), get_type(loc), st);
}

/// Jumps to `overflow` when the last arithmetic overflowed.
fn fail_overflow(v: &mut Vec<Instr>)
    ensures
        instrs_view(final(v)@) == instrs_view(old(v)@).push(crate::codegen::on_overflow()),
        extends(old(v)@, final(v)@),
{
    put(v, Instr::Jo(Val::Label("overflow".to_owned())));
}

/// Checks at run time that `reg` holds a number.
fn expect_number(v: &mut Vec<Instr>, reg: Register, st: &mut State)
    ensures
        instrs_view(final(v)@) == instrs_view(old(v)@) + crate::codegen::check_num(reg),
        extends(old(v)@, final(v)@),
        final(st).defs == old(st).defs,
{
    if matches_type(get_type(&Val::Reg(reg)), Type::Num) {
        return ;
    }
    let ghost v0 = v@;
    put(v, Instr::Test(Val::Reg(reg), Val::Imm(1)));
    let ghost v1 = v@;
    put(v, Instr::Jnz(Val::Label("expect_numeric".to_owned())));
    set_type(&Val::Reg(reg), Type::Num, st);
    proof {
        assert(instrs_view(v@) =~= instrs_view(v0) + crate::codegen::check_num(reg));
    }
}

/// Where a variable in scope lives.
fn namespace_get(namespace: &Namespace, s: &String) -> (loc: Val)
    requires
        namespace.wf(),
        namespace@.names.contains_key(s@),
    ensures
        loc@ == namespace@.names[s@],
        renderable_val(loc@),
{
    let mut i = namespace.h.len();
    while i > 0
        invariant
            i <= namespace.h.len(),
            namespace.wf(),
            namespace@.names.contains_key(s@),
            forall|j: int| i <= j < namespace.h.len() ==> namespace.h@[j].0@ != s@,
        decreases i,
    {
        i = i - 1;
        if namespace.h[i].0.eq(s) {
            proof {
                lemma_names_lookup(namespace.h@, i as int);
                assert(renderable_val(namespace.h@[i as int].1@));
            }
            let loc = namespace.h[i].1.clone();
            assert(loc == namespace.h@[i as int].1);
            return loc;
        }
    }
    proof {
        lemma_names_absent(namespace.h@, s@);
    }
    Val::ValFalse
}

/// Binds `s` to `loc`; where `must_not_exist`, `s` must not be bound yet.
fn namespace_add(namespace: &mut Namespace, s: &String, loc: &Val, must_not_exist: bool)
    requires
        old(namespace).wf(),
        renderable_val(loc@),
        !(must_not_exist && old(namespace)@.names.contains_key(s@)),
    ensures
        final(namespace).wf(),
        final(namespace)@ == (Scope {
            names: old(namespace)@.names.insert(s@, loc@),
            ..old(namespace)@
        }),
{
    namespace.h.push((s.clone(), loc.clone()));
    proof {
        assert(namespace.h@.drop_last() =~= old(namespace).h@);
        assert forall|i: int| 0 <= i < namespace.h@.len() implies renderable_val(
            #[trigger] namespace.h@[i].1@,
        ) by {
            if i < old(namespace).h@.len() {
                assert(namespace.h@[i] == old(namespace).h@[i]);
            }
        }
    }
}

/// Whether the compiler ended as the model says: on success with the model's
/// state, on failure with the model's error.
pub open spec fn compiled(model: Result<Gen, CgError>, r: Result<(), CompileError>, after: Gen) -> bool {
    match r {
        Ok(_) => model == Ok::<Gen, CgError>(after),
        Err(x) => model == Err::<Gen, CgError>(x@),
    }
}

/// Compiles an operator without operands.
fn compile_zero_op(op: &ZeroOp, v: &mut Vec<Instr>, namespace: &mut Namespace, st: &mut State) -> (r:
    Result<(), CompileError>)
    requires
        old(namespace).wf(),
        cg_zero_op(op@, old(namespace)@) is Ok,
    ensures
        *final(namespace) == *old(namespace),
        final(st).defs == old(st).defs,
        extends(old(v)@, final(v)@),
        match r {
            Ok(_) => cg_zero_op(op@, old(namespace)@) == Ok::<Seq<InstrV>, CgError>(
                instrs_view(final(v)@).skip(old(v)@.len() as int),
            ),
            Err(x) => cg_zero_op(op@, old(namespace)@) == Err::<Seq<InstrV>, CgError>(x@),
        },
{
    let ghost v0 = v@;
    let r = match op {
        ZeroOp::Number(n) => {
            load(v, Register::RAX, &Val::Imm(*n), st);
            Ok(())
        },
        ZeroOp::OpTrue => {
            load(v, Register::RAX, &Val::ValTrue, st);
            Ok(())
        },
        ZeroOp::OpFalse => {
            load(v, Register::RAX, &Val::ValFalse, st);
            Ok(())
        },
        ZeroOp::Input => {
            if text_is(namespace.func.as_str(), "main") {
                load(v, Register::RAX, &Val::Reg(Register::RDI), st);
                Ok(())
            } else {
                proof {
                    lemma_extends_refl(v@);
                }
                Err(CompileError::InputOutsideMain)
            }
        },
        ZeroOp::Identifier(s) => {
            let loc = namespace_get(namespace, s);
            load(v, Register::RAX, &loc, st);
            Ok(())
        },
    };
    proof {
        if r is Ok {
            assert(instrs_view(v@).skip(v0.len() as int) =~= cg_zero_op(op@, namespace@)->Ok_0);
        }
    }
    r
}

/// What each compiling function promises: it ends as the model says for
/// `e`, it only appends instructions that can be written out, and it takes
/// at most `expr_size(e)` label numbers, exactly `branches(e)` on success.
pub open spec fn step(
    e: ExprV,
    stack: int,
    sc: Scope,
    v0: Seq<Instr>,
    v1: Seq<Instr>,
    uid0: i64,
    uid1: i64,
    st0: State,
    st1: State,
    r: Result<(), CompileError>,
) -> bool {
    &&& compiled(cg(e, stack, sc, gen_of(v0, uid0, st0)), r, gen_of(v1, uid1, st1))
    &&& extends(v0, v1)
    &&& uid0 <= uid1 <= uid0 + expr_size(e)
    &&& r is Ok ==> uid1 == uid0 + branches(e)
}

/// `e` compiled with the next free stack slot at `stack` and label numbers
/// after `uid` cannot overflow.
pub open spec fn fits(e: ExprV, stack: int, uid: int) -> bool {
    &&& 0 <= stack
    &&& stack + expr_size(e) <= LIMIT
    &&& 0 <= uid
    &&& uid + expr_size(e) <= LIMIT
}

/// The arity recorded for a function, if it is defined.
fn defs_get(st: &State, name: &String) -> (r: Option<usize>)
    ensures
        match r {
            Some(n) => arity_table(st.defs@).contains_key(name@) && arity_table(st.defs@)[name@]
                == n as nat,
            None => !arity_table(st.defs@).contains_key(name@),
        },
{
    let mut i = st.defs.len();
    while i > 0
        invariant
            i <= st.defs.len(),
            forall|j: int| i <= j < st.defs.len() ==> st.defs@[j].0@ != name@,
        decreases i,
    {
        i = i - 1;
        if st.defs[i].0.eq(name) {
            proof {
                lemma_arity_lookup(st.defs@, i as int);
            }
            return Some(st.defs[i].1);
        }
    }
    proof {
        lemma_arity_absent(st.defs@, name@);
    }
    None
}

/// Compiles an `if`: the condition, then a jump to the false branch where it
/// is false, the true branch, a jump to the end, the false branch.
#[verifier::rlimit(50)]
fn compile_if(
    expr1: &Expr,
    expr2: &Expr,
    expr3: &Expr,
    v: &mut Vec<Instr>,
    stack: i64,
    uid: &mut i64,
    namespace: &mut Namespace,
    st: &mut State,
) -> (r: Result<(), CompileError>)
    requires
        old(namespace).wf(),
        fits(
            ExprV::If(Box::new(expr1@), Box::new(expr2@), Box::new(expr3@)),
            stack as int,
            *old(uid) as int,
        ),
        cg(
            ExprV::If(Box::new(expr1@), Box::new(expr2@), Box::new(expr3@)),
            stack as int,
            old(namespace)@,
            gen_of(old(v)@, *old(uid), *old(st)),
        ) is Ok,
    ensures
        *final(namespace) == *old(namespace),
        step(
            ExprV::If(Box::new(expr1@), Box::new(expr2@), Box::new(expr3@)),
            stack as int,
            old(namespace)@,
            old(v)@,
            final(v)@,
            *old(uid),
            *final(uid),
            *old(st),
            *final(st),
            r,
        ),
    decreases 1 + expr_size(expr1@) + expr_size(expr2@) + expr_size(expr3@), 1nat,
{
    let ghost v0 = v@;
    let ghost uid0 = *uid;
    let ghost st0 = *st;
    let r1 = compile(expr1, v, stack, uid, namespace, st);
    if r1.is_err() {
        return r1;
    }
    let ghost v1 = v@;
    let ghost g1 = gen_of(v@, *uid, *st);
    let id = generate_id(uid);
    let label_false = join2("if_false_", i64_text(id).as_str());
    let label_end = join2("end_if_", i64_text(id).as_str());
    put(v, Instr::Cmp(Val::Reg(Register::RAX), Val::ValFalse));
    put(v, Instr::Je(Val::Label(label_false.clone())));
    let ghost g2 = gen_of(v@, *uid, *st);
    let ghost rax = reg(Register::RAX);
    assert(g2.code =~= g1.code + seq![
            InstrV::Cmp(rax, ValV::ValFalse),
            InstrV::Je(label("if_false_"@ + decimal(g1.uid + 1))),
        ]);
    assert(g2 == Gen {
        uid: g1.uid + 1,
        code: g1.code + seq![
            InstrV::Cmp(rax, ValV::ValFalse),
            InstrV::Je(label("if_false_"@ + decimal(g1.uid + 1))),
        ],
        ..g1
    });
    let r2 = compile(expr2, v, stack, uid, namespace, st);
    if r2.is_err() {
        return r2;
    }
    let ghost g3 = gen_of(v@, *uid, *st);
    put(v, Instr::Jmp(Val::Label(label_end.clone())));
    put(v, Instr::ILabel(Val::Label(join2(label_false.as_str(), ":"))));
    let ghost g4 = gen_of(v@, *uid, *st);
    assert(g4.code =~= g3.code + seq![
            InstrV::Jmp(label("end_if_"@ + decimal(g1.uid + 1))),
            InstrV::ILabel(label("if_false_"@ + decimal(g1.uid + 1) + ":"@)),
        ]);
    assert(g4 == emit(
        g3,
        seq![
            InstrV::Jmp(label("end_if_"@ + decimal(g1.uid + 1))),
            InstrV::ILabel(label("if_false_"@ + decimal(g1.uid + 1) + ":"@)),
        ],
    ));
    let r3 = compile(expr3, v, stack, uid, namespace, st);
    if r3.is_err() {
        return r3;
    }
    let ghost g5 = gen_of(v@, *uid, *st);
    put(v, Instr::Jmp(Val::Label(label_end.clone())));
    put(v, Instr::ILabel(Val::Label(join2(label_end.as_str(), ":"))));
    assert(gen_of(v@, *uid, *st).code =~= g5.code + seq![
            InstrV::Jmp(label("end_if_"@ + decimal(g1.uid + 1))),
            InstrV::ILabel(label("end_if_"@ + decimal(g1.uid + 1) + ":"@)),
        ]);
    assert(gen_of(v@, *uid, *st) == emit(
        g5,
        seq![
            InstrV::Jmp(label("end_if_"@ + decimal(g1.uid + 1))),
            InstrV::ILabel(label("end_if_"@ + decimal(g1.uid + 1) + ":"@)),
        ],
    ));
    Ok(())
}

/// Compiles a `loop`: a label, the body with `break` bound to leave to
/// the end label, a jump back, and the end label.
fn compile_loop(
    e: &Expr,
    v: &mut Vec<Instr>,
    stack: i64,
    uid: &mut i64,
    namespace: &mut Namespace,
    st: &mut State,
) -> (r: Result<(), CompileError>)
    requires
        old(namespace).wf(),
        fits(ExprV::EUnitaryOp(UnitaryOp::Loop, Box::new(e@)), stack as int, *old(uid) as int),
        cg(
            ExprV::EUnitaryOp(UnitaryOp::Loop, Box::new(e@)),
            stack as int,
            old(namespace)@,
            gen_of(old(v)@, *old(uid), *old(st)),
        ) is Ok,
    ensures
        *final(namespace) == *old(namespace),
        step(
            ExprV::EUnitaryOp(UnitaryOp::Loop, Box::new(e@)),
            stack as int,
            old(namespace)@,
            old(v)@,
            final(v)@,
            *old(uid),
            *final(uid),
            *old(st),
            *final(st),
            r,
        ),
    decreases 1 + expr_size(e@), 0nat,
{
    let ghost g0 = gen_of(v@, *uid, *st);
    let id = generate_id(uid);
    let label = join2("loop_", i64_text(id).as_str());
    let mut inner_namespace = namespace.copy();
    inner_namespace.break_label = label.clone();
    put(v, Instr::ILabel(Val::Label(join2(label.as_str(), ":"))));
    let ghost name = "loop_"@ + decimal(g0.uid + 1);
    let ghost g1 = gen_of(v@, *uid, *st);
    assert(g1.code =~= g0.code + seq![InstrV::ILabel(crate::codegen::label(name + ":"@))]);
    assert(inner_namespace@ == (Scope { break_label: name, ..namespace@ }));
    let r = compile(e, v, stack, uid, &mut inner_namespace, st);
    if r.is_err() {
        return r;
    }
    let ghost g2 = gen_of(v@, *uid, *st);
    put(v, Instr::Jmp(Val::Label(label.clone())));
    put(v, Instr::ILabel(Val::Label(join3("end_", label.as_str(), ":"))));
    assert(gen_of(v@, *uid, *st).code =~= g2.code + seq![
        InstrV::Jmp(crate::codegen::label(name)),
        InstrV::ILabel(crate::codegen::label("end_"@ + name + ":"@)),
    ]);
    Ok(())
}

/// Compiles an operator of one operand.
fn compile_unitary_op(
    op: &UnitaryOp,
    e: &Expr,
    v: &mut Vec<Instr>,
    stack: i64,
    uid: &mut i64,
    namespace: &mut Namespace,
    st: &mut State,
) -> (r: Result<(), CompileError>)
    requires
        old(namespace).wf(),
        fits(ExprV::EUnitaryOp(*op, Box::new(e@)), stack as int, *old(uid) as int),
        cg(
            ExprV::EUnitaryOp(*op, Box::new(e@)),
            stack as int,
            old(namespace)@,
            gen_of(old(v)@, *old(uid), *old(st)),
        ) is Ok,
    ensures
        *final(namespace) == *old(namespace),
        step(
            ExprV::EUnitaryOp(*op, Box::new(e@)),
            stack as int,
            old(namespace)@,
            old(v)@,
            final(v)@,
            *old(uid),
            *final(uid),
            *old(st),
            *final(st),
            r,
        ),
    decreases 1 + expr_size(e@), 1nat,
{
    if *op == UnitaryOp::Loop {
        return compile_loop(e, v, stack, uid, namespace, st);
    }
    let r = compile(e, v, stack, uid, namespace, st);
    if r.is_err() {
        return r;
    }
    let ghost v1 = v@;
    let ghost g1 = gen_of(v@, *uid, *st);
    let rax = Val::Reg(Register::RAX);
    match op {
        UnitaryOp::Add1 => {
            expect_number(v, Register::RAX, st);
            put(v, Instr::IAdd(rax, Val::Imm(2)));
            fail_overflow(v);
        },
        UnitaryOp::Sub1 => {
            expect_number(v, Register::RAX, st);
            put(v, Instr::ISub(rax, Val::Imm(2)));
            fail_overflow(v);
        },
        UnitaryOp::IsNum => {
            put(v, Instr::Not(Val::Reg(Register::RAX)));
            put(v, Instr::And(Val::Reg(Register::RAX), Val::Imm(1)));
            put(v, Instr::Shl(Val::Reg(Register::RAX), Val::Imm(1)));
            put(v, Instr::Inc(Val::Reg(Register::RAX)));
            set_type(&rax, Type::Bool, st);
        },
        UnitaryOp::IsBool => {
            put(v, Instr::And(Val::Reg(Register::RAX), Val::Imm(1)));
            put(v, Instr::Shl(Val::Reg(Register::RAX), Val::Imm(1)));
            put(v, Instr::Inc(Val::Reg(Register::RAX)));
            set_type(&rax, Type::Bool, st);
        },
        UnitaryOp::Break => {
            if namespace.break_label.as_str().is_empty() {
                return Err(CompileError::BreakOutsideLoop);
            }
            put(v, Instr::Jmp(Val::Label(join2("end_", namespace.break_label.as_str()))));
        },
        UnitaryOp::Loop => {},
    }
    assert(gen_of(v@, *uid, *st).code =~= g1.code + unary_tail(*op, namespace@)->Ok_0);
    Ok(())
}

/// Compiles `+`, `-` or `*`: the second operand to a stack slot, the first
/// to `rax`, both checked to be numbers, then the operation.
#[verifier::rlimit(50)]
fn compile_binary_op_to_arithmetic(
    op: &BinaryOp,
    e1: &Expr,
    e2: &Expr,
    v: &mut Vec<Instr>,
    stack: i64,
    uid: &mut i64,
    namespace: &mut Namespace,
    st: &mut State,
) -> (r: Result<(), CompileError>)
    requires
        old(namespace).wf(),
        *op == BinaryOp::Plus || *op == BinaryOp::Minus || *op == BinaryOp::Times,
        fits(ExprV::EBinaryOp(*op, Box::new(e1@), Box::new(e2@)), stack as int, *old(uid) as int),
        cg(
            ExprV::EBinaryOp(*op, Box::new(e1@), Box::new(e2@)),
            stack as int,
            old(namespace)@,
            gen_of(old(v)@, *old(uid), *old(st)),
        ) is Ok,
    ensures
        *final(namespace) == *old(namespace),
        step(
            ExprV::EBinaryOp(*op, Box::new(e1@), Box::new(e2@)),
            stack as int,
            old(namespace)@,
            old(v)@,
            final(v)@,
            *old(uid),
            *final(uid),
            *old(st),
            *final(st),
            r,
        ),
    decreases 1 + expr_size(e1@) + expr_size(e2@), 0nat,
{
    let mut stack = stack;
    let r2 = compile(e2, v, stack, uid, namespace, st);
    if r2.is_err() {
        return r2;
    }
    let ghost g1 = gen_of(v@, *uid, *st);
    let loc = push(v, Register::RAX, &mut stack, st);
    assert(gen_of(v@, *uid, *st).code =~= g1.code + seq![mov(loc@, reg(Register::RAX))]);
    let r1 = compile(e1, v, stack, uid, namespace, st);
    if r1.is_err() {
        return r1;
    }
    let ghost g2 = gen_of(v@, *uid, *st);
    load(v, Register::RBX, &loc, st);
    expect_number(v, Register::RAX, st);
    expect_number(v, Register::RBX, st);
    match op {
        BinaryOp::Plus => {
            put(v, Instr::IAdd(Val::Reg(Register::RAX), Val::Reg(Register::RBX)));
            fail_overflow(v);
        },
        BinaryOp::Minus => {
            put(v, Instr::ISub(Val::Reg(Register::RAX), Val::Reg(Register::RBX)));
            fail_overflow(v);
        },
        BinaryOp::Times => {
            put(v, Instr::Sar(Val::Reg(Register::RAX), Val::Imm(1)));
            put(v, Instr::Sar(Val::Reg(Register::RBX), Val::Imm(1)));
            put(v, Instr::IMul(Val::Reg(Register::RAX), Val::Reg(Register::RBX)));
            fail_overflow(v);
            put(v, Instr::Sal(Val::Reg(Register::RAX), Val::Imm(1)));
            fail_overflow(v);
        },
        _ => {},
    }
    assert(gen_of(v@, *uid, *st).code =~= g2.code + (seq![mov(reg(Register::RBX), loc@)]
        + binary_tail(*op)));
    Ok(())
}

/// Compiles `<`, `>`, `<=` or `>=`: as the arithmetic operators, then a
/// comparison that selects `true` or `false`.
#[verifier::rlimit(50)]
fn compile_binary_op_arithmetic_to_boolean(
    op: &BinaryOp,
    e1: &Expr,
    e2: &Expr,
    v: &mut Vec<Instr>,
    stack: i64,
    uid: &mut i64,
    namespace: &mut Namespace,
    st: &mut State,
) -> (r: Result<(), CompileError>)
    requires
        old(namespace).wf(),
        *op == BinaryOp::Greater || *op == BinaryOp::GreaterEqual || *op == BinaryOp::Less || *op
            == BinaryOp::LessEqual,
        fits(ExprV::EBinaryOp(*op, Box::new(e1@), Box::new(e2@)), stack as int, *old(uid) as int),
        cg(
            ExprV::EBinaryOp(*op, Box::new(e1@), Box::new(e2@)),
            stack as int,
            old(namespace)@,
            gen_of(old(v)@, *old(uid), *old(st)),
        ) is Ok,
    ensures
        *final(namespace) == *old(namespace),
        step(
            ExprV::EBinaryOp(*op, Box::new(e1@), Box::new(e2@)),
            stack as int,
            old(namespace)@,
            old(v)@,
            final(v)@,
            *old(uid),
            *final(uid),
            *old(st),
            *final(st),
            r,
        ),
    decreases 1 + expr_size(e1@) + expr_size(e2@), 0nat,
{
    let mut stack = stack;
    let r2 = compile(e2, v, stack, uid, namespace, st);
    if r2.is_err() {
        return r2;
    }
    let ghost g1 = gen_of(v@, *uid, *st);
    let loc = push(v, Register::RAX, &mut stack, st);
    assert(gen_of(v@, *uid, *st).code =~= g1.code + seq![mov(loc@, reg(Register::RAX))]);
    let r1 = compile(e1, v, stack, uid, namespace, st);
    if r1.is_err() {
        return r1;
    }
    let ghost g2 = gen_of(v@, *uid, *st);
    load(v, Register::RBX, &loc, st);
    expect_number(v, Register::RAX, st);
    expect_number(v, Register::RBX, st);
    put(v, Instr::Cmp(Val::Reg(Register::RAX), Val::Reg(Register::RBX)));
    load(v, Register::RAX, &Val::ValFalse, st);
    load(v, Register::RBX, &Val::ValTrue, st);
    match op {
        BinaryOp::Greater => put(v, Instr::Cmovg(Val::Reg(Register::RAX), Val::Reg(Register::RBX))),
        BinaryOp::GreaterEqual => put(
            v,
            Instr::Cmovge(Val::Reg(Register::RAX), Val::Reg(Register::RBX)),
        ),
        BinaryOp::Less => put(v, Instr::Cmovl(Val::Reg(Register::RAX), Val::Reg(Register::RBX))),
        _ => put(v, Instr::Cmovle(Val::Reg(Register::RAX), Val::Reg(Register::RBX))),
    }
    assert(gen_of(v@, *uid, *st).code =~= g2.code + (seq![mov(reg(Register::RBX), loc@)]
        + binary_tail(*op)));
    Ok(())
}

/// Compiles `=`: the two operands are equal where their exclusive or is
/// zero, and that difference must be a number (both of one kind).
#[verifier::rlimit(50)]
fn compile_equal(
    e1: &Expr,
    e2: &Expr,
    v: &mut Vec<Instr>,
    stack: i64,
    uid: &mut i64,
    namespace: &mut Namespace,
    st: &mut State,
) -> (r: Result<(), CompileError>)
    requires
        old(namespace).wf(),
        fits(
            ExprV::EBinaryOp(BinaryOp::Equal, Box::new(e1@), Box::new(e2@)),
            stack as int,
            *old(uid) as int,
        ),
        cg(
            ExprV::EBinaryOp(BinaryOp::Equal, Box::new(e1@), Box::new(e2@)),
            stack as int,
            old(namespace)@,
            gen_of(old(v)@, *old(uid), *old(st)),
        ) is Ok,
    ensures
        *final(namespace) == *old(namespace),
        step(
            ExprV::EBinaryOp(BinaryOp::Equal, Box::new(e1@), Box::new(e2@)),
            stack as int,
            old(namespace)@,
            old(v)@,
            final(v)@,
            *old(uid),
            *final(uid),
            *old(st),
            *final(st),
            r,
        ),
    decreases 1 + expr_size(e1@) + expr_size(e2@), 0nat,
{
    let mut stack = stack;
    let r2 = compile(e2, v, stack, uid, namespace, st);
    if r2.is_err() {
        return r2;
    }
    let ghost g1 = gen_of(v@, *uid, *st);
    let loc = push(v, Register::RAX, &mut stack, st);
    assert(gen_of(v@, *uid, *st).code =~= g1.code + seq![mov(loc@, reg(Register::RAX))]);
    let r1 = compile(e1, v, stack, uid, namespace, st);
    if r1.is_err() {
        return r1;
    }
    let ghost g2 = gen_of(v@, *uid, *st);
    load(v, Register::RBX, &loc, st);
    let type_rax = get_type(&Val::Reg(Register::RAX));
    let type_rbx = get_type(&Val::Reg(Register::RBX));
    put(v, Instr::Xor(Val::Reg(Register::RBX), Val::Reg(Register::RAX)));
    set_type(&Val::Reg(Register::RBX), Type::Unknown, st);
    load(v, Register::RBP, &Val::ValTrue, st);
    load(v, Register::RAX, &Val::ValFalse, st);
    put(v, Instr::Cmovz(Val::Reg(Register::RAX), Val::Reg(Register::RBP)));
    if matches_type(type_rax, type_rbx) {
        return Ok(());
    }
    set_type(&Val::Reg(Register::RBX), Type::Unknown, st);
    expect_number(v, Register::RBX, st);
    assert(gen_of(v@, *uid, *st).code =~= g2.code + (seq![mov(reg(Register::RBX), loc@)]
        + binary_tail(BinaryOp::Equal)));
    Ok(())
}

/// Compiles an operator of two operands.
fn compile_binary_op(
    op: &BinaryOp,
    e1: &Expr,
    e2: &Expr,
    v: &mut Vec<Instr>,
    stack: i64,
    uid: &mut i64,
    namespace: &mut Namespace,
    st: &mut State,
) -> (r: Result<(), CompileError>)
    requires
        old(namespace).wf(),
        fits(ExprV::EBinaryOp(*op, Box::new(e1@), Box::new(e2@)), stack as int, *old(uid) as int),
        cg(
            ExprV::EBinaryOp(*op, Box::new(e1@), Box::new(e2@)),
            stack as int,
            old(namespace)@,
            gen_of(old(v)@, *old(uid), *old(st)),
        ) is Ok,
    ensures
        *final(namespace) == *old(namespace),
        step(
            ExprV::EBinaryOp(*op, Box::new(e1@), Box::new(e2@)),
            stack as int,
            old(namespace)@,
            old(v)@,
            final(v)@,
            *old(uid),
            *final(uid),
            *old(st),
            *final(st),
            r,
        ),
    decreases 1 + expr_size(e1@) + expr_size(e2@), 1nat,
{
    match op {
        BinaryOp::Equal => compile_equal(e1, e2, v, stack, uid, namespace, st),
        BinaryOp::Greater => compile_binary_op_arithmetic_to_boolean(op, e1, e2, v, stack, uid, namespace, st),
        BinaryOp::GreaterEqual => compile_binary_op_arithmetic_to_boolean(op, e1, e2, v, stack, uid, namespace, st),
        BinaryOp::Less => compile_binary_op_arithmetic_to_boolean(op, e1, e2, v, stack, uid, namespace, st),
        BinaryOp::LessEqual => compile_binary_op_arithmetic_to_boolean(op, e1, e2, v, stack, uid, namespace, st),
        BinaryOp::Plus => compile_binary_op_to_arithmetic(op, e1, e2, v, stack, uid, namespace, st),
        BinaryOp::Minus => compile_binary_op_to_arithmetic(op, e1, e2, v, stack, uid, namespace, st),
        BinaryOp::Times => compile_binary_op_to_arithmetic(op, e1, e2, v, stack, uid, namespace, st),
    }
}

/// What compiling a `let` binding does: the expression, then its value
/// stored in the next stack slot, where the name is then bound.
pub open spec fn binding_step(
    name: Seq<char>,
    x: ExprV,
    stack: int,
    sc0: Scope,
    sc1: Scope,
    stack1: int,
    v0: Seq<Instr>,
    v1: Seq<Instr>,
    uid0: i64,
    uid1: i64,
    st0: State,
    st1: State,
    must_not_exist: bool,
    r: Result<(), CompileError>,
) -> bool {
    let slot = ValV::RegOffset(Register::RSP, stack as i64);
    &&& extends(v0, v1)
    &&& uid0 <= uid1 <= uid0 + expr_size(x)
    &&& match cg(x, stack, sc0, gen_of(v0, uid0, st0)) {
        Ok(g1) => {
            &&& gen_of(v1, uid1, st1) == emit(g1, seq![mov(slot, reg(Register::RAX))])
            &&& uid1 == uid0 + branches(x)
            &&& stack1 == stack + 1
            &&& sc1 == (Scope { names: sc0.names.insert(name, slot), ..sc0 })
            &&& match r {
                Ok(_) => !(must_not_exist && sc0.names.contains_key(name)),
                Err(err) => must_not_exist && sc0.names.contains_key(name) && err
                    == CompileError::DuplicateBinding,
            }
        },
        Err(err) => r matches Err(x) && x@ == err,
    }
}

/// Compiles a binding: where `must_exist`, a `set!` of a variable in scope;
/// otherwise a new binding in the next stack slot (where `must_not_exist`,
/// the name must be new).
#[verifier::rlimit(50)]
fn compile_binding(
    binding: &Binding,
    v: &mut Vec<Instr>,
    stack: &mut i64,
    uid: &mut i64,
    namespace: &mut Namespace,
    st: &mut State,
    must_exist: bool,
    must_not_exist: bool,
) -> (r: Result<(), CompileError>)
    requires
        old(namespace).wf(),
        fits(
            ExprV::SetBinding(binding.0@, Box::new(binding.1@)),
            *old(stack) as int,
            *old(uid) as int,
        ),
        must_exist ==> cg(
            ExprV::SetBinding(binding.0@, Box::new(binding.1@)),
            *old(stack) as int,
            old(namespace)@,
            gen_of(old(v)@, *old(uid), *old(st)),
        ) is Ok,
        !must_exist ==> cg(
            binding.1@,
            *old(stack) as int,
            old(namespace)@,
            gen_of(old(v)@, *old(uid), *old(st)),
        ) is Ok && !(must_not_exist && old(namespace)@.names.contains_key(binding.0@)),
    ensures
        final(namespace).wf(),
        must_exist ==> {
            &&& *final(namespace) == *old(namespace)
            &&& *final(stack) == *old(stack)
            &&& step(
                ExprV::SetBinding(binding.0@, Box::new(binding.1@)),
                *old(stack) as int,
                old(namespace)@,
                old(v)@,
                final(v)@,
                *old(uid),
                *final(uid),
                *old(st),
                *final(st),
                r,
            )
        },
        !must_exist ==> binding_step(
            binding.0@,
            binding.1@,
            *old(stack) as int,
            old(namespace)@,
            final(namespace)@,
            *final(stack) as int,
            old(v)@,
            final(v)@,
            *old(uid),
            *final(uid),
            *old(st),
            *final(st),
            must_not_exist,
            r,
        ),
    decreases 1 + expr_size(binding.1@), 1nat,
{
    let Binding(s, e) = binding;
    let r = compile(e, v, *stack, uid, namespace, st);
    if r.is_err() {
        return r;
    }
    let ghost g1 = gen_of(v@, *uid, *st);
    if must_exist {
        let location = namespace_get(namespace, s);
        put(v, Instr::IMov(location.clone(), Val::Reg(Register::RAX)));
        set_type(&location, get_type(&Val::Reg(Register::RAX)), st);
        assert(gen_of(v@, *uid, *st).code =~= g1.code + seq![mov(location@, reg(Register::RAX))]);
        Ok(())
    } else {
        let location = push(v, Register::RAX, stack, st);
        assert(gen_of(v@, *uid, *st).code =~= g1.code + seq![mov(location@, reg(Register::RAX))]);
        namespace_add(namespace, s, &location, must_not_exist);
        Ok(())
    }
}

/// Compiles a `let`: each binding in turn, seen by the ones after it, then
/// the body in their scope.
#[verifier::rlimit(50)]
fn compile_let(
    e: &Expr,
    vec: &Vec<Binding>,
    v: &mut Vec<Instr>,
    stack: i64,
    uid: &mut i64,
    namespace: &mut Namespace,
    st: &mut State,
) -> (r: Result<(), CompileError>)
    requires
        old(namespace).wf(),
        fits(ExprV::Let(binds_model(vec@), Box::new(e@)), stack as int, *old(uid) as int),
        cg(
            ExprV::Let(binds_model(vec@), Box::new(e@)),
            stack as int,
            old(namespace)@,
            gen_of(old(v)@, *old(uid), *old(st)),
        ) is Ok,
    ensures
        *final(namespace) == *old(namespace),
        step(
            ExprV::Let(binds_model(vec@), Box::new(e@)),
            stack as int,
            old(namespace)@,
            old(v)@,
            final(v)@,
            *old(uid),
            *final(uid),
            *old(st),
            *final(st),
            r,
        ),
    decreases expr_size(ExprV::Let(binds_model(vec@), Box::new(e@))), 1nat,
{
    let ghost bm = binds_model(vec@);
    let ghost stack0 = stack as int;
    let ghost uid0 = *uid;
    let ghost v0 = v@;
    let ghost g0 = gen_of(v@, *uid, *st);
    let ghost sc0 = namespace@;
    let ghost whole = expr_size(ExprV::Let(bm, Box::new(e@)));
    let mut stk = stack;
    let mut inner_namespace = namespace.copy();
    let mut i: usize = 0;
    proof {
        lemma_extends_refl(v@);
    }
    while i < vec.len()
        invariant
            i <= vec.len(),
            bm == binds_model(vec@),
            inner_namespace.wf(),
            *namespace == *old(namespace),
            sc0 == old(namespace)@,
            v0 == old(v)@,
            uid0 == *old(uid),
            g0 == gen_of(old(v)@, *old(uid), *old(st)),
            whole == expr_size(ExprV::Let(binds_model(vec@), Box::new(e@))),
            0 <= stack0,
            stk == stack0 + i,
            stack0 == stack,
            whole == 1 + binds_size(bm, 0) + expr_size(e@),
            stack0 + whole <= LIMIT,
            uid0 + whole <= LIMIT,
            0 <= uid0 <= *uid,
            i + binds_size(bm, i as int) <= binds_size(bm, 0),
            *uid + binds_size(bm, i as int) <= uid0 + binds_size(bm, 0),
            *uid == uid0 + binds_branches(bm, 0) - binds_branches(bm, i as int),
            cg_let(bm, 0, stack0, sc0, g0) is Ok,
            cg_let(bm, 0, stack0, sc0, g0) == cg_let(
                bm,
                i as int,
                stk as int,
                inner_namespace@,
                gen_of(v@, *uid, *st),
            ),
            extends(v0, v@),
        decreases vec.len() - i,
    {
        assert(bm[i as int] == (vec@[i as int].0@, vec@[i as int].1@));
        let ghost before = gen_of(v@, *uid, *st);
        let ghost sc_before = inner_namespace@;
        let ghost stack_before = stk as int;
        let r = compile_binding(
            &vec[i],
            v,
            &mut stk,
            uid,
            &mut inner_namespace,
            st,
            false,
            false,
        );
        if r.is_err() {
            assert(cg(bm[i as int].1, stack_before, sc_before, before) == Err::<Gen, CgError>(r->Err_0@));
            assert(cg_let(bm, i as int, stack_before, sc_before, before) == Err::<(Gen, int, Scope), CgError>(r->Err_0@));
            return r;
        }
        i = i + 1;
    }
    compile(e, v, stk, uid, &mut inner_namespace, st)
}

/// Binds the parameters of a function: the first six to the argument
/// registers, the others to their stack offsets. Two parameters of one name
/// are an error.
fn bind_params(vec_params: &Vec<String>, namespace: &mut Namespace) -> (r: Result<(), CompileError>)
    requires
        old(namespace).wf(),
        vec_params.len() < LIMIT,
        param_scope(names_model(vec_params@), 0, old(namespace)@) is Ok,
    ensures
        final(namespace).wf(),
        match param_scope(names_model(vec_params@), 0, old(namespace)@) {
            Ok(sc) => r is Ok && final(namespace)@ == sc,
            Err(err) => r matches Err(x) && x@ == err,
        },
{
    let ghost pm = names_model(vec_params@);
    let ghost sc0 = namespace@;
    let locations = vec![
        Register::RDI,
        Register::RSI,
        Register::RDX,
        Register::RCX,
        Register::R8,
        Register::R9,
    ];
    let n = vec_params.len();
    let k = if n < 6 {
        n
    } else {
        6
    };
    let mut i: usize = 0;
    while i < k
        invariant
            k <= n,
            k <= 6,
            n == vec_params.len(),
            i <= k,
            pm == names_model(vec_params@),
            locations@ == seq![
                Register::RDI,
                Register::RSI,
                Register::RDX,
                Register::RCX,
                Register::R8,
                Register::R9,
            ],
            namespace.wf(),
            sc0 == old(namespace)@,
            param_scope(pm, 0, sc0) is Ok,
            param_scope(pm, 0, sc0) == param_scope(pm, i as int, namespace@),
        decreases k - i,
    {
        assert(locations@[i as int] == arg_reg(i as int));
        assert(pm[i as int] == vec_params@[i as int]@);
        namespace_add(namespace, &vec_params[i], &Val::Reg(locations[i]), true);
        i = i + 1;
    }
    while i < n
        invariant
            k <= n,
            k <= 6,
            n == vec_params.len(),
            k <= i <= n,
            k < n ==> k == 6,
            n < LIMIT,
            pm == names_model(vec_params@),
            namespace.wf(),
            sc0 == old(namespace)@,
            param_scope(pm, 0, sc0) is Ok,
            param_scope(pm, 0, sc0) == param_scope(pm, i as int, namespace@),
        decreases n - i,
    {
        assert(pm[i as int] == vec_params@[i as int]@);
        let offset: i64 = 8 * (5 - i as i64);
        namespace_add(
            namespace,
            &vec_params[i],
            &Val::RegOffset(Register::RSP, offset),
            true,
        );
        i = i + 1;
    }
    Ok(())
}

/// Compiles a function definition: its label, its parameters bound to their
/// registers and stack offsets, its body, and a return.
#[verifier::rlimit(50)]
fn compile_def(e: &Expr, v: &mut Vec<Instr>, uid: &mut i64, st: &mut State) -> (r: Result<
    (),
    CompileError,
>)
    requires
        1 + expr_size(e@) <= LIMIT,
        0 <= *old(uid),
        *old(uid) + expr_size(e@) <= LIMIT,
        cg_def(e@, gen_of(old(v)@, *old(uid), *old(st))) is Ok,
    ensures
        compiled(cg_def(e@, gen_of(old(v)@, *old(uid), *old(st))), r, gen_of(final(v)@, *final(uid), *final(st))),
        extends(old(v)@, final(v)@),
        *old(uid) <= *final(uid) <= *old(uid) + expr_size(e@),
        r is Ok ==> *final(uid) == *old(uid) + branches(e@),
    decreases expr_size(e@), 1nat,
{
    proof {
        lemma_extends_refl(v@);
    }
    let (name, vec_params, action) = match e {
        Expr::FuncDef(name, vec_params, action) => (name, vec_params, action),
        _ => {
            return Err(CompileError::ExpectedDefinition);
        },
    };
    let ghost g0 = gen_of(v@, *uid, *st);
    if defs_get(st, name).is_some() {
        return Err(CompileError::NameInUse);
    }
    st.defs.push((name.clone(), vec_params.len()));
    proof {
        assert(st.defs@.drop_last() =~= old(st).defs@);
    }
    put(v, Instr::ILabel(Val::Label(join3("def_", name.as_str(), ":"))));
    let ghost pm = names_model(vec_params@);
    assert(pm =~= e@->FuncDef_1);
    let mut namespace = Namespace {
        h: Vec::new(),
        break_label: String::new(),
        func: name.clone(),
    };
    let ghost sc0 = namespace@;
    assert(sc0 == (Scope { func: name@, names: Map::empty(), break_label: Seq::empty() })) by {
        assert(names_table(namespace.h@) =~= Map::empty());
    }
    let ghost g1 = gen_of(v@, *uid, *st);
    assert(g1.code =~= g0.code + seq![InstrV::ILabel(label("def_"@ + name@ + ":"@))]);
    assert(g1 == Gen {
        defs: g0.defs.insert(name@, pm.len()),
        code: g0.code + seq![InstrV::ILabel(label("def_"@ + name@ + ":"@))],
        ..g0
    });
    let r = bind_params(vec_params, &mut namespace);
    assert(e@ == ExprV::FuncDef(name@, pm, Box::new(action@)));
    assert(!g0.defs.contains_key(name@));
    if r.is_err() {
        assert(param_scope(pm, 0, sc0) == Err::<Scope, CgError>(r->Err_0@));
        assert(cg_def(e@, g0) == Err::<Gen, CgError>(r->Err_0@));
        assert(g0 == gen_of(old(v)@, *old(uid), *old(st)));
        return r;
    }
    assert(gen_of(v@, *uid, *st) == g1);
    let r = compile(action, v, STACK_BASE, uid, &mut namespace, st);
    if r.is_err() {
        return r;
    }
    let ghost g2 = gen_of(v@, *uid, *st);
    put(v, Instr::Ret);
    assert(gen_of(v@, *uid, *st).code =~= g2.code + seq![InstrV::Ret]);
    Ok(())
}

/// Compiles a call: the first six arguments to their registers, arguments
/// `n - 2` down to 5 to the stack, then the call with the stack pointer
/// moved past the temporaries.
#[verifier::rlimit(50)]
fn compile_call(
    name: &String,
    args: &Vec<Box<Expr>>,
    v: &mut Vec<Instr>,
    stack: &mut i64,
    uid: &mut i64,
    namespace: &mut Namespace,
    st: &mut State,
) -> (r: Result<(), CompileError>)
    requires
        old(namespace).wf(),
        fits(ExprV::FuncCall(name@, boxed_model(args@)), *old(stack) as int, *old(uid) as int),
        cg(
            ExprV::FuncCall(name@, boxed_model(args@)),
            *old(stack) as int,
            old(namespace)@,
            gen_of(old(v)@, *old(uid), *old(st)),
        ) is Ok,
    ensures
        *final(namespace) == *old(namespace),
        step(
            ExprV::FuncCall(name@, boxed_model(args@)),
            *old(stack) as int,
            old(namespace)@,
            old(v)@,
            final(v)@,
            *old(uid),
            *final(uid),
            *old(st),
            *final(st),
            r,
        ),
        r is Ok ==> *final(stack) == *old(stack) + if args.len() >= 7 {
            args.len() - 6
        } else {
            0
        },
    decreases expr_size(ExprV::FuncCall(name@, boxed_model(args@))), 1nat,
{
    let ghost am = boxed_model(args@);
    let ghost stack0 = *stack as int;
    let ghost uid0 = *uid;
    let ghost v0 = v@;
    let ghost g0 = gen_of(v@, *uid, *st);
    let ghost sc = namespace@;
    let ghost ns0 = *namespace;
    let ghost whole = expr_size(ExprV::FuncCall(name@, am));
    let locations = vec![
        Register::RDI,
        Register::RSI,
        Register::RDX,
        Register::RCX,
        Register::R8,
        Register::R9,
    ];
    let n = args.len();
    let k = if n < 6 {
        n
    } else {
        6
    };
    let mut i: usize = 0;
    proof {
        lemma_extends_refl(v@);
    }
    while i < k
        invariant
            k <= n,
            k <= 6,
            n == args.len(),
            i <= k,
            am == boxed_model(args@),
            locations@ == seq![
                Register::RDI,
                Register::RSI,
                Register::RDX,
                Register::RCX,
                Register::R8,
                Register::R9,
            ],
            *namespace == ns0,
            ns0 == *old(namespace),
            v0 == old(v)@,
            uid0 == *old(uid),
            stack0 == *old(stack),
            g0 == gen_of(old(v)@, *old(uid), *old(st)),
            ns0.wf(),
            sc == ns0@,
            *stack == stack0,
            0 <= stack0,
            whole == 1 + regs_size(am, 0) + spill_size(am, n - 2),
            stack0 + whole <= LIMIT,
            uid0 + whole <= LIMIT,
            0 <= uid0 <= *uid,
            regs_size(am, i as int) <= regs_size(am, 0),
            *uid + regs_size(am, i as int) <= uid0 + regs_size(am, 0),
            *uid == uid0 + regs_branches(am, 0) - regs_branches(am, i as int),
            cg(ExprV::FuncCall(name@, am), stack0, sc, g0) is Ok,
            cg_regs(am, 0, stack0, sc, g0) == cg_regs(am, i as int, stack0, sc, gen_of(v@, *uid, *st)),
            extends(v0, v@),
        decreases k - i,
    {
        assert(am[i as int] == args@[i as int]@);
        let r = compile(&args[i], v, *stack, uid, namespace, st);
        if r.is_err() {
            return r;
        }
        let ghost g1 = gen_of(v@, *uid, *st);
        assert(locations@[i as int] == arg_reg(i as int));
        load(v, locations[i], &Val::Reg(Register::RAX), st);
        assert(gen_of(v@, *uid, *st).code =~= g1.code + seq![mov(reg(arg_reg(i as int)), reg(Register::RAX))]);
        i = i + 1;
    }
    let ghost g_regs = gen_of(v@, *uid, *st);
    let ghost uid_regs = *uid;
    assert(cg_regs(am, 0, stack0, sc, g0) == Ok::<Gen, CgError>(g_regs));
    if n < 7 {
        assert(cg_spill(am, n - 2, stack0, sc, g_regs) == Ok::<(Gen, int), CgError>((g_regs, stack0)));
    }
    let mut j: usize = if n >= 7 {
        n - 2
    } else {
        4
    };
    while j >= 5
        invariant
            n == args.len(),
            j >= 5 ==> n >= 7,
            n < 7 ==> j == 4 && gen_of(v@, *uid, *st) == g_regs && *stack == stack0,
            n >= 7 ==> *stack == stack0 + (n - 2 - j),
            4 <= j,
            am == boxed_model(args@),
            *namespace == ns0,
            ns0 == *old(namespace),
            v0 == old(v)@,
            uid0 == *old(uid),
            stack0 == *old(stack),
            g0 == gen_of(old(v)@, *old(uid), *old(st)),
            ns0.wf(),
            sc == ns0@,
            n >= 7 ==> j <= n - 2,
            0 <= stack0 <= *stack,
            whole == 1 + regs_size(am, 0) + spill_size(am, n - 2),
            stack0 + whole <= LIMIT,
            *stack + spill_size(am, j as int) <= stack0 + spill_size(am, n - 2),
            uid_regs + spill_size(am, n - 2) <= uid0 + whole,
            uid0 + whole <= LIMIT,
            0 <= uid_regs <= *uid,
            *uid + spill_size(am, j as int) <= uid_regs + spill_size(am, n - 2),
            *uid == uid_regs + spill_branches(am, n - 2) - spill_branches(am, j as int),
            cg_regs(am, 0, stack0, sc, g0) == Ok::<Gen, CgError>(g_regs),
            uid_regs == uid0 + regs_branches(am, 0),
            cg(ExprV::FuncCall(name@, am), stack0, sc, g0) is Ok,
            n >= 7 ==> cg_spill(am, n - 2, stack0, sc, g_regs) == cg_spill(am, j as int, *stack as int, sc, gen_of(v@, *uid, *st)),
            extends(v0, v@),
        decreases j,
    {
        assert(am[j as int] == args@[j as int]@);
        let r = compile(&args[j], v, *stack, uid, namespace, st);
        if r.is_err() {
            return r;
        }
        let ghost g1 = gen_of(v@, *uid, *st);
        let ghost slot = ValV::RegOffset(Register::RSP, *stack);
        push(v, Register::RAX, stack, st);
        assert(gen_of(v@, *uid, *st).code =~= g1.code + seq![mov(slot, reg(Register::RAX))]);
        j = j - 1;
    }
    match defs_get(st, name) {
        None => {
            return Err(CompileError::FunctionNotFound);
        },
        Some(length) => {
            if length != n {
                return Err(CompileError::WrongArgCount);
            }
        },
    }
    let ghost g2 = gen_of(v@, *uid, *st);
    let bytes = 8 * *stack;
    put(v, Instr::IAdd(Val::Reg(Register::RSP), Val::Imm(bytes)));
    put(v, Instr::Call(Val::Label(join2("def_", name.as_str()))));
    put(v, Instr::ISub(Val::Reg(Register::RSP), Val::Imm(bytes)));
    assert(gen_of(v@, *uid, *st).code =~= g2.code + seq![
        InstrV::IAdd(reg(Register::RSP), ValV::Imm(bytes)),
        InstrV::Call(label("def_"@ + name@)),
        InstrV::ISub(reg(Register::RSP), ValV::Imm(bytes)),
    ]);
    Ok(())
}

/// Compiles an expression, appending its code to `v`. The expression must
/// compile in this scope and state: what the model of code generation
/// rejects, `check_expr` reports for a whole program.
#[verifier::rlimit(50)]
pub fn compile(
    e: &Expr,
    v: &mut Vec<Instr>,
    stack: i64,
    uid: &mut i64,
    namespace: &mut Namespace,
    st: &mut State,
) -> (r: Result<(), CompileError>)
    requires
        old(namespace).wf(),
        fits(e@, stack as int, *old(uid) as int),
        cg(
            e@,
            stack as int,
            old(namespace)@,
            gen_of(old(v)@, *old(uid), *old(st)),
        ) is Ok,
    ensures
        *final(namespace) == *old(namespace),
        step(
            e@,
            stack as int,
            old(namespace)@,
            old(v)@,
            final(v)@,
            *old(uid),
            *final(uid),
            *old(st),
            *final(st),
            r,
        ),
    decreases expr_size(e@), 2nat,
{
    proof {
        lemma_extends_refl(v@);
    }
    match e {
        Expr::EZeroOp(op) => {
            let ghost g0 = gen_of(v@, *uid, *st);
            let ghost v0 = v@;
            let r = compile_zero_op(op, v, namespace, st);
            proof {
                lemma_view_split(v0, v@);
            }
            r
        },
        Expr::EUnitaryOp(op, x) => compile_unitary_op(op, x, v, stack, uid, namespace, st),
        Expr::EBinaryOp(op, x, y) => compile_binary_op(op, x, y, v, stack, uid, namespace, st),
        Expr::Let(vec, body) => {
            assert(e@->Let_0 =~= binds_model(vec@));
            compile_let(body, vec, v, stack, uid, namespace, st)
        },
        Expr::SetBinding(binding) => {
            let mut stack = stack;
            compile_binding(binding, v, &mut stack, uid, namespace, st, true, false)
        },
        Expr::If(c, t, f) => compile_if(c, t, f, v, stack, uid, namespace, st),
        Expr::Block(vec) => {
            let ghost em = exprs_model(vec@);
            assert(e@->Block_0 =~= em);
            let ghost uid0 = *uid;
            let ghost v0 = v@;
            let ghost g0 = gen_of(v@, *uid, *st);
            let ghost sc = namespace@;
            let ghost ns0 = *namespace;
            let mut i: usize = 0;
            while i < vec.len()
                invariant
                    i <= vec.len(),
                    em == exprs_model(vec@),
                    *namespace == ns0,
                    ns0 == *old(namespace),
                    ns0.wf(),
                    sc == ns0@,
                    v0 == old(v)@,
                    uid0 == *old(uid),
                    g0 == gen_of(old(v)@, *old(uid), *old(st)),
                    expr_size(e@) == 1 + exprs_size(em, 0),
                    e@ == ExprV::Block(em),
                    0 <= stack,
                    stack + 1 + exprs_size(em, 0) <= LIMIT,
                    uid0 + 1 + exprs_size(em, 0) <= LIMIT,
                    0 <= uid0 <= *uid,
                    exprs_size(em, i as int) <= exprs_size(em, 0),
                    *uid + exprs_size(em, i as int) <= uid0 + exprs_size(em, 0),
                    *uid == uid0 + exprs_branches(em, 0) - exprs_branches(em, i as int),
                    cg_block(em, 0, stack as int, sc, g0) is Ok,
                    cg_block(em, 0, stack as int, sc, g0) == cg_block(
                        em,
                        i as int,
                        stack as int,
                        sc,
                        gen_of(v@, *uid, *st),
                    ),
                    extends(v0, v@),
                decreases vec.len() - i,
            {
                assert(em[i as int] == vec@[i as int]@);
                let r = compile(&vec[i], v, stack, uid, namespace, st);
                if r.is_err() {
                    return r;
                }
                i = i + 1;
            }
            Ok(())
        },
        Expr::FuncDef(_, _, _) => Err(CompileError::NestedFuncDef),
        Expr::FuncCall(name, args) => {
            assert(e@->FuncCall_1 =~= boxed_model(args@));
            let mut stack = stack;
            compile_call(name, args, v, &mut stack, uid, namespace, st)
        },
        Expr::Program(defs, body) => {
            let ghost dm = exprs_model(defs@);
            assert(e@->Program_0 =~= dm);
            let ghost uid0 = *uid;
            let ghost v0 = v@;
            let ghost g0 = gen_of(v@, *uid, *st);
            let mut i: usize = 0;
            while i < defs.len()
                invariant
                    i <= defs.len(),
                    dm == exprs_model(defs@),
                    *namespace == *old(namespace),
                    v0 == old(v)@,
                    uid0 == *old(uid),
                    g0 == gen_of(old(v)@, *old(uid), *old(st)),
                    expr_size(e@) == 1 + exprs_size(dm, 0) + expr_size(body@),
                    e@ == ExprV::Program(dm, Box::new(body@)),
                    0 <= stack,
                    stack + 1 + exprs_size(dm, 0) + expr_size(body@) <= LIMIT,
                    uid0 + 1 + exprs_size(dm, 0) + expr_size(body@) <= LIMIT,
                    0 <= uid0 <= *uid,
                    exprs_size(dm, i as int) <= exprs_size(dm, 0),
                    *uid + exprs_size(dm, i as int) <= uid0 + exprs_size(dm, 0),
                    *uid == uid0 + exprs_branches(dm, 0) - exprs_branches(dm, i as int),
                    cg(e@, stack as int, namespace@, g0) is Ok,
                    cg_defs(dm, 0, g0) == cg_defs(dm, i as int, gen_of(v@, *uid, *st)),
                    extends(v0, v@),
                decreases defs.len() - i,
            {
                assert(dm[i as int] == defs@[i as int]@);
                let r = compile_def(&defs[i], v, uid, st);
                if r.is_err() {
                    return r;
                }
                i = i + 1;
            }
            let ghost g1 = gen_of(v@, *uid, *st);
            assert(cg_defs(dm, 0, g0) == Ok::<Gen, CgError>(g1));
            put(v, Instr::ILabel(Val::Label("our_code_starts_here:".to_owned())));
            assert(gen_of(v@, *uid, *st).code =~= g1.code + seq![
                InstrV::ILabel(label("our_code_starts_here:"@)),
            ]);
            let r = compile(body, v, stack, uid, namespace, st);
            if r.is_err() {
                return r;
            }
            let ghost g3 = gen_of(v@, *uid, *st);
            put(v, Instr::Ret);
            assert(gen_of(v@, *uid, *st).code =~= g3.code + seq![InstrV::Ret]);
            Ok(())
        },
    }
}

/// The scope of the main expression: no variables, no loop.
pub open spec fn main_scope() -> Scope {
    Scope { func: "main"@, names: Map::empty(), break_label: Seq::empty() }
}

/// Nothing generated yet.
pub open spec fn empty_gen() -> Gen {
    Gen { code: Seq::empty(), uid: 0, defs: Map::empty() }
}

/// Compiles an expression as the main program and writes out its code. The
/// expression must compile (`check_expr` says why where it does not). The
/// code's jumps and calls go to labels it defines or to the runtime's error
/// handlers; it defines each label once unless it compiles two `Program`
/// nodes; and without a `Program` node it writes memory only in its own
/// stack slots. Each call starts with no function defined and no type
/// recorded: no definition carries over from one call to the next, so a
/// second call may define a function of a name an earlier call defined,
/// and may not call a function that only an earlier call defined.
pub fn compile_expr(e: &Expr) -> (text: String)
    requires
        expr_size(e@) + STACK_BASE <= LIMIT,
        cg(e@, STACK_BASE as int, main_scope(), empty_gen()) is Ok,
    ensures
        cg(e@, STACK_BASE as int, main_scope(), empty_gen()) matches Ok(g) && text@ == program_text(
            g.code,
        ) && targets_defined(g.code) && (programs(e@) <= 1 ==> labels_distinct(g.code)) && (
        programs(e@) == 0 ==> writes_ok(g.code, STACK_BASE as int, Map::empty())),
{
    let mut instrs: Vec<Instr> = Vec::new();
    let mut outer_namespace = Namespace {
        h: Vec::new(),
        break_label: String::new(),
        func: "main".to_owned(),
    };
    let mut uid: i64 = 0;
    let mut st = State { defs: Vec::new(), types: Vec::new() };
    assert(outer_namespace@ == main_scope()) by {
        assert(names_table(outer_namespace.h@) =~= Map::empty());
    }
    assert(gen_of(instrs@, uid, st) == empty_gen()) by {
        assert(instrs_view(instrs@) =~= Seq::empty());
        assert(arity_table(st.defs@) =~= Map::empty());
    }
    match compile(e, &mut instrs, STACK_BASE, &mut uid, &mut outer_namespace, &mut st) {
        Ok(_) => {
            proof {
                lemma_jumps_land(e@, STACK_BASE as int, main_scope(), empty_gen());
                if programs(e@) == 0 {
                    lemma_writes_above(e@, STACK_BASE as int, main_scope(), empty_gen());
                    match cg(e@, STACK_BASE as int, main_scope(), empty_gen()) {
                        Ok(h) => assert(crate::labels::added(empty_gen(), h) =~= h.code),
                        Err(_) => {},
                    }
                }
                if programs(e@) <= 1 {
                    lemma_labels_defined_once(e@, STACK_BASE as int, main_scope(), empty_gen());
                }
            }
            assert(all_renderable(instrs_view(instrs@))) by {
                assert forall|i: int| 0 <= i < instrs_view(instrs@).len() implies #[trigger] renderable_instr(
                    instrs_view(instrs@)[i],
                ) by {
                    assert(renderable_instr(instrs@[i]@));
                }
            }
            stringify(instrs)
        },
        Err(_) => String::new(),
    }
}

/// Whether `s` is bound in `namespace`.
fn in_scope(namespace: &Namespace, s: &String) -> (r: bool)
    ensures
        r == namespace@.names.contains_key(s@),
{
    let mut i = namespace.h.len();
    while i > 0
        invariant
            i <= namespace.h.len(),
            forall|j: int| i <= j < namespace.h.len() ==> namespace.h@[j].0@ != s@,
        decreases i,
    {
        i = i - 1;
        if namespace.h[i].0.eq(s) {
            proof {
                lemma_names_lookup(namespace.h@, i as int);
            }
            return true;
        }
    }
    proof {
        lemma_names_absent(namespace.h@, s@);
    }
    false
}

/// A namespace that the checker keeps for a scope: the same names, the
/// same function, and a `break` label exactly where the scope has one.
pub open spec fn agrees(ns: Namespace, sc: Scope) -> bool {
    &&& ns@.names.dom() == sc.names.dom()
    &&& ns@.func == sc.func
    &&& (ns@.break_label.len() == 0) == (sc.break_label.len() == 0)
}

/// Whether a check ended as the model of code generation says: on success
/// with the functions the model has defined, on failure with its error.
pub open spec fn checked(model: Result<Gen, CgError>, r: Result<(), CompileError>, st: State) -> bool {
    match model {
        Ok(h) => r is Ok && arity_table(st.defs@) == h.defs,
        Err(x) => r matches Err(y) && y@ == x,
    }
}

/// Binds `s` to a place the checker does not need.
fn bind_name(ns: &mut Namespace, s: &String)
    ensures
        final(ns)@.names.dom() == old(ns)@.names.dom().insert(s@),
        final(ns)@.func == old(ns)@.func,
        final(ns)@.break_label == old(ns)@.break_label,
{
    ns.h.push((s.clone(), Val::Imm(0)));
    proof {
        assert(ns.h@.drop_last() =~= old(ns).h@);
        assert(ns@.names.dom() =~= old(ns)@.names.dom().insert(s@));
    }
}

/// Makes the checks that compiling `e` makes, in the same order, without
/// writing code.
fn check(
    e: &Expr,
    ns: &Namespace,
    st: &mut State,
    Ghost(stack): Ghost<int>,
    Ghost(sc): Ghost<Scope>,
    Ghost(g): Ghost<Gen>,
) -> (r: Result<(), CompileError>)
    requires
        agrees(*ns, sc),
        arity_table(old(st).defs@) == g.defs,
    ensures
        checked(cg(e@, stack, sc, g), r, *final(st)),
    decreases expr_size(e@), 0nat,
{
    let ghost rax = reg(Register::RAX);
    match e {
        Expr::EZeroOp(op) => {
            match op {
                ZeroOp::Input => {
                    if text_is(ns.func.as_str(), "main") {
                        Ok(())
                    } else {
                        Err(CompileError::InputOutsideMain)
                    }
                },
                ZeroOp::Identifier(s) => {
                    if in_scope(ns, s) {
                        Ok(())
                    } else {
                        Err(CompileError::UnboundVariable(s.clone()))
                    }
                },
                _ => Ok(()),
            }
        },
        Expr::EUnitaryOp(op, x) => {
            if *op == UnitaryOp::Loop {
                let mut inner = ns.copy();
                inner.break_label = "loop".to_owned();
                let ghost id = g.uid + 1;
                let ghost name = "loop_"@ + decimal(id);
                let ghost g1 = Gen {
                    uid: id,
                    code: g.code + seq![InstrV::ILabel(label(name + ":"@))],
                    ..g
                };
                let ghost sc1 = Scope { break_label: name, ..sc };
                proof {
                    reveal_strlit("loop");
                    reveal_strlit("loop_");
                    assert(name.len() > 0);
                }
                check(x, &inner, st, Ghost(stack), Ghost(sc1), Ghost(g1))
            } else {
                let r = check(x, ns, st, Ghost(stack), Ghost(sc), Ghost(g));
                if r.is_err() {
                    return r;
                }
                if *op == UnitaryOp::Break && ns.break_label.as_str().is_empty() {
                    return Err(CompileError::BreakOutsideLoop);
                }
                Ok(())
            }
        },
        Expr::EBinaryOp(_, x, y) => {
            let r = check(y, ns, st, Ghost(stack), Ghost(sc), Ghost(g));
            if r.is_err() {
                return r;
            }
            let ghost g1 = cg(y@, stack, sc, g)->Ok_0;
            let ghost slot = ValV::RegOffset(Register::RSP, stack as i64);
            check(x, ns, st, Ghost(stack + 1), Ghost(sc), Ghost(emit(g1, seq![mov(slot, rax)])))
        },
        Expr::Let(bs, body) => {
            let ghost bm = binds_model(bs@);
            assert(e@->Let_0 =~= bm);
            let mut inner = ns.copy();
            let r = check_let(bs, 0, &mut inner, st, Ghost(stack), Ghost(sc), Ghost(g));
            if r.is_err() {
                return r;
            }
            let ghost out = cg_let(bm, 0, stack, sc, g)->Ok_0;
            check(body, &inner, st, Ghost(out.1), Ghost(out.2), Ghost(out.0))
        },
        Expr::SetBinding(Binding(name, x)) => {
            let r = check(x, ns, st, Ghost(stack), Ghost(sc), Ghost(g));
            if r.is_err() {
                return r;
            }
            if in_scope(ns, name) {
                Ok(())
            } else {
                Err(CompileError::UnboundVariable(name.clone()))
            }
        },
        Expr::If(c, t, f) => {
            let r = check(c, ns, st, Ghost(stack), Ghost(sc), Ghost(g));
            if r.is_err() {
                return r;
            }
            let ghost g1 = cg(c@, stack, sc, g)->Ok_0;
            let ghost id = g1.uid + 1;
            let ghost if_false = "if_false_"@ + decimal(id);
            let ghost end_if = "end_if_"@ + decimal(id);
            let ghost g2 = Gen {
                uid: id,
                code: g1.code + seq![InstrV::Cmp(rax, ValV::ValFalse), InstrV::Je(label(if_false))],
                ..g1
            };
            let r = check(t, ns, st, Ghost(stack), Ghost(sc), Ghost(g2));
            if r.is_err() {
                return r;
            }
            let ghost g3 = cg(t@, stack, sc, g2)->Ok_0;
            let ghost g4 = emit(
                g3,
                seq![InstrV::Jmp(label(end_if)), InstrV::ILabel(label(if_false + ":"@))],
            );
            check(f, ns, st, Ghost(stack), Ghost(sc), Ghost(g4))
        },
        Expr::Block(es) => {
            let ghost em = exprs_model(es@);
            assert(e@->Block_0 =~= em);
            check_block(es, 0, ns, st, Ghost(stack), Ghost(sc), Ghost(g))
        },
        Expr::FuncDef(_, _, _) => Err(CompileError::NestedFuncDef),
        Expr::FuncCall(name, args) => {
            let ghost am = boxed_model(args@);
            assert(e@->FuncCall_1 =~= am);
            let r = check_regs(args, 0, ns, st, Ghost(stack), Ghost(sc), Ghost(g));
            if r.is_err() {
                return r;
            }
            let ghost g1 = cg_regs(am, 0, stack, sc, g)->Ok_0;
            let n = args.len();
            if n >= 7 {
                let r = check_spill(args, n - 2, ns, st, Ghost(stack), Ghost(sc), Ghost(g1));
                if r.is_err() {
                    return r;
                }
            }
            match defs_get(st, name) {
                None => Err(CompileError::FunctionNotFound),
                Some(length) => {
                    if length != n {
                        Err(CompileError::WrongArgCount)
                    } else {
                        Ok(())
                    }
                },
            }
        },
        Expr::Program(defs, body) => {
            let ghost dm = exprs_model(defs@);
            assert(e@->Program_0 =~= dm);
            let r = check_defs(defs, 0, st, Ghost(g));
            if r.is_err() {
                return r;
            }
            let ghost g1 = cg_defs(dm, 0, g)->Ok_0;
            let ghost g2 = emit(g1, seq![InstrV::ILabel(label("our_code_starts_here:"@))]);
            check(body, ns, st, Ghost(stack), Ghost(sc), Ghost(g2))
        },
    }
}

/// The checks of the bindings `bs[i..]` of a `let`, each bound for the
/// ones after it.
fn check_let(
    bs: &Vec<Binding>,
    i: usize,
    ns: &mut Namespace,
    st: &mut State,
    Ghost(stack): Ghost<int>,
    Ghost(sc): Ghost<Scope>,
    Ghost(g): Ghost<Gen>,
) -> (r: Result<(), CompileError>)
    requires
        agrees(*old(ns), sc),
        arity_table(old(st).defs@) == g.defs,
    ensures
        match cg_let(binds_model(bs@), i as int, stack, sc, g) {
            Ok((h, _, sc1)) => r is Ok && arity_table(final(st).defs@) == h.defs && agrees(
                *final(ns),
                sc1,
            ),
            Err(x) => r matches Err(y) && y@ == x,
        },
    decreases binds_size(binds_model(bs@), i as int), 1nat,
{
    let ghost bm = binds_model(bs@);
    if i >= bs.len() {
        return Ok(());
    }
    assert(bm[i as int] == (bs@[i as int].0@, bs@[i as int].1@));
    let r = check(&bs[i].1, ns, st, Ghost(stack), Ghost(sc), Ghost(g));
    if r.is_err() {
        return r;
    }
    let ghost g1 = cg(bm[i as int].1, stack, sc, g)->Ok_0;
    let ghost slot = ValV::RegOffset(Register::RSP, stack as i64);
    let ghost sc1 = Scope { names: sc.names.insert(bm[i as int].0, slot), ..sc };
    bind_name(ns, &bs[i].0);
    assert(ns@.names.dom() =~= sc1.names.dom());
    check_let(
        bs,
        i + 1,
        ns,
        st,
        Ghost(stack + 1),
        Ghost(sc1),
        Ghost(emit(g1, seq![mov(slot, reg(Register::RAX))])),
    )
}

/// The checks of the expressions `es[i..]` of a block.
fn check_block(
    es: &Vec<Expr>,
    i: usize,
    ns: &Namespace,
    st: &mut State,
    Ghost(stack): Ghost<int>,
    Ghost(sc): Ghost<Scope>,
    Ghost(g): Ghost<Gen>,
) -> (r: Result<(), CompileError>)
    requires
        agrees(*ns, sc),
        arity_table(old(st).defs@) == g.defs,
    ensures
        checked(cg_block(exprs_model(es@), i as int, stack, sc, g), r, *final(st)),
    decreases exprs_size(exprs_model(es@), i as int), 1nat,
{
    let ghost em = exprs_model(es@);
    if i >= es.len() {
        return Ok(());
    }
    assert(em[i as int] == es@[i as int]@);
    let r = check(&es[i], ns, st, Ghost(stack), Ghost(sc), Ghost(g));
    if r.is_err() {
        return r;
    }
    let ghost g1 = cg(em[i as int], stack, sc, g)->Ok_0;
    assert(expr_size(em[i as int]) >= 1);
    check_block(es, i + 1, ns, st, Ghost(stack), Ghost(sc), Ghost(g1))
}

/// The checks of the arguments `args[i..6]` of a call.
fn check_regs(
    args: &Vec<Box<Expr>>,
    i: usize,
    ns: &Namespace,
    st: &mut State,
    Ghost(stack): Ghost<int>,
    Ghost(sc): Ghost<Scope>,
    Ghost(g): Ghost<Gen>,
) -> (r: Result<(), CompileError>)
    requires
        agrees(*ns, sc),
        arity_table(old(st).defs@) == g.defs,
    ensures
        checked(cg_regs(boxed_model(args@), i as int, stack, sc, g), r, *final(st)),
    decreases regs_size(boxed_model(args@), i as int), 1nat,
{
    let ghost am = boxed_model(args@);
    if i >= args.len() || i >= 6 {
        return Ok(());
    }
    assert(am[i as int] == args@[i as int]@);
    let r = check(&args[i], ns, st, Ghost(stack), Ghost(sc), Ghost(g));
    if r.is_err() {
        return r;
    }
    let ghost g1 = cg(am[i as int], stack, sc, g)->Ok_0;
    assert(expr_size(am[i as int]) >= 1);
    check_regs(
        args,
        i + 1,
        ns,
        st,
        Ghost(stack),
        Ghost(sc),
        Ghost(emit(g1, seq![mov(reg(arg_reg(i as int)), reg(Register::RAX))])),
    )
}

/// The checks of the arguments `args[i]` down to `args[5]` of a call.
fn check_spill(
    args: &Vec<Box<Expr>>,
    i: usize,
    ns: &Namespace,
    st: &mut State,
    Ghost(stk): Ghost<int>,
    Ghost(sc): Ghost<Scope>,
    Ghost(g): Ghost<Gen>,
) -> (r: Result<(), CompileError>)
    requires
        agrees(*ns, sc),
        arity_table(old(st).defs@) == g.defs,
    ensures
        match cg_spill(boxed_model(args@), i as int, stk, sc, g) {
            Ok((h, _)) => r is Ok && arity_table(final(st).defs@) == h.defs,
            Err(x) => r matches Err(y) && y@ == x,
        },
    decreases spill_size(boxed_model(args@), i as int), 1nat,
{
    let ghost am = boxed_model(args@);
    if i < 5 || i >= args.len() {
        return Ok(());
    }
    assert(am[i as int] == args@[i as int]@);
    let r = check(&args[i], ns, st, Ghost(stk), Ghost(sc), Ghost(g));
    if r.is_err() {
        return r;
    }
    let ghost g1 = cg(am[i as int], stk, sc, g)->Ok_0;
    assert(expr_size(am[i as int]) >= 1);
    check_spill(
        args,
        i - 1,
        ns,
        st,
        Ghost(stk + 1),
        Ghost(sc),
        Ghost(emit(g1, seq![mov(ValV::RegOffset(Register::RSP, stk as i64), reg(Register::RAX))])),
    )
}

/// The checks of the parameters `params[i..]` of a function: no name twice.
fn check_params(params: &Vec<String>, i: usize, ns: &mut Namespace, Ghost(sc): Ghost<Scope>) -> (r:
    Result<(), CompileError>)
    requires
        agrees(*old(ns), sc),
    ensures
        match param_scope(names_model(params@), i as int, sc) {
            Ok(sc1) => r is Ok && agrees(*final(ns), sc1),
            Err(x) => r matches Err(y) && y@ == x,
        },
    decreases params.len() - i,
{
    let ghost pm = names_model(params@);
    if i >= params.len() {
        return Ok(());
    }
    assert(pm[i as int] == params@[i as int]@);
    if in_scope(ns, &params[i]) {
        return Err(CompileError::DuplicateBinding);
    }
    let ghost sc1 = Scope { names: sc.names.insert(pm[i as int], param_loc(i as int)), ..sc };
    bind_name(ns, &params[i]);
    assert(ns@.names.dom() =~= sc1.names.dom());
    check_params(params, i + 1, ns, Ghost(sc1))
}

/// The checks of a function definition: its name new, its parameters
/// distinct, its body.
fn check_def(d: &Expr, st: &mut State, Ghost(g): Ghost<Gen>) -> (r: Result<(), CompileError>)
    requires
        arity_table(old(st).defs@) == g.defs,
    ensures
        checked(cg_def(d@, g), r, *final(st)),
    decreases expr_size(d@), 0nat,
{
    match d {
        Expr::FuncDef(name, params, body) => {
            if defs_get(st, name).is_some() {
                return Err(CompileError::NameInUse);
            }
            let ghost pm = names_model(params@);
            assert(pm =~= d@->FuncDef_1);
            st.defs.push((name.clone(), params.len()));
            proof {
                assert(st.defs@.drop_last() =~= old(st).defs@);
            }
            let ghost g1 = Gen {
                defs: g.defs.insert(name@, pm.len()),
                code: g.code + seq![InstrV::ILabel(label("def_"@ + name@ + ":"@))],
                ..g
            };
            let mut ns = Namespace { h: Vec::new(), break_label: String::new(), func: name.clone() };
            let ghost sc0 = Scope { func: name@, names: Map::empty(), break_label: Seq::empty() };
            assert(names_table(ns.h@) =~= Map::empty());
            let r = check_params(params, 0, &mut ns, Ghost(sc0));
            if r.is_err() {
                return r;
            }
            let ghost sc = param_scope(pm, 0, sc0)->Ok_0;
            check(body, &ns, st, Ghost(STACK_BASE as int), Ghost(sc), Ghost(g1))
        },
        _ => Err(CompileError::ExpectedDefinition),
    }
}

/// The checks of the function definitions `defs[i..]` of a program.
fn check_defs(defs: &Vec<Expr>, i: usize, st: &mut State, Ghost(g): Ghost<Gen>) -> (r: Result<
    (),
    CompileError,
>)
    requires
        arity_table(old(st).defs@) == g.defs,
    ensures
        checked(cg_defs(exprs_model(defs@), i as int, g), r, *final(st)),
    decreases exprs_size(exprs_model(defs@), i as int), 1nat,
{
    let ghost dm = exprs_model(defs@);
    if i >= defs.len() {
        return Ok(());
    }
    assert(dm[i as int] == defs@[i as int]@);
    let r = check_def(&defs[i], st, Ghost(g));
    if r.is_err() {
        return r;
    }
    let ghost g1 = cg_def(dm[i as int], g)->Ok_0;
    check_defs(defs, i + 1, st, Ghost(g1))
}

/// Whether an expression compiles as the main program, or the first error
/// the compiler meets in it: the checks that compiling makes, in the same
/// order, without writing code.
pub fn check_expr(e: &Expr) -> (r: Result<(), CompileError>)
    ensures
        match cg(e@, STACK_BASE as int, main_scope(), empty_gen()) {
            Ok(_) => r is Ok,
            Err(x) => r matches Err(y) && y@ == x,
        },
{
    let ns = Namespace { h: Vec::new(), break_label: String::new(), func: "main".to_owned() };
    let mut st = State { defs: Vec::new(), types: Vec::new() };
    assert(names_table(ns.h@) =~= Map::empty());
    assert(arity_table(st.defs@) =~= Map::empty());
    check(
        e,
        &ns,
        &mut st,
        Ghost(STACK_BASE as int),
        Ghost(main_scope()),
        Ghost(empty_gen()),
    )
}

/// `x`, or one past `LIMIT` where it is larger.
pub open spec fn capped(x: int) -> int {
    if x > LIMIT {
        LIMIT + 1
    } else {
        x
    }
}

/// The capped sum of two capped numbers.
fn sat_add(a: u64, b: u64) -> (r: u64)
    requires
        a <= LIMIT + 1,
        b <= LIMIT + 1,
    ensures
        r == capped(a + b),
{
    let c = (LIMIT + 1) as u64;
    if a + b > c {
        c
    } else {
        a + b
    }
}

/// The size of an expression, capped one past `LIMIT`.
fn capped_size(e: &Expr) -> (n: u64)
    ensures
        n == capped(expr_size(e@) as int),
    decreases expr_size(e@),
{
    match e {
        Expr::EZeroOp(_) => 1,
        Expr::EUnitaryOp(_, x) => sat_add(1, capped_size(x)),
        Expr::EBinaryOp(_, x, y) => {
            let a = capped_size(x);
            let b = capped_size(y);
            sat_add(sat_add(1, a), b)
        },
        Expr::SetBinding(Binding(_, x)) => sat_add(1, capped_size(x)),
        Expr::If(c, t, f) => {
            let a = capped_size(c);
            let b = capped_size(t);
            let d = capped_size(f);
            sat_add(sat_add(sat_add(1, a), b), d)
        },
        Expr::Let(vec, body) => {
            let ghost bm = binds_model(vec@);
            assert(e@->Let_0 =~= bm);
            let mut acc: u64 = 1;
            let mut i: usize = 0;
            while i < vec.len()
                invariant
                    i <= vec.len(),
                    bm == binds_model(vec@),
                    e@ == ExprV::Let(bm, Box::new(body@)),
                    binds_size(bm, i as int) <= binds_size(bm, 0),
                    acc == capped(1 + binds_size(bm, 0) - binds_size(bm, i as int)),
                decreases vec.len() - i,
            {
                assert(bm[i as int].1 == vec@[i as int].1@);
                let b = capped_size(&vec[i].1);
                acc = sat_add(acc, sat_add(1, b));
                i = i + 1;
            }
            sat_add(acc, capped_size(body))
        },
        Expr::Block(vec) => {
            let ghost em = exprs_model(vec@);
            assert(e@->Block_0 =~= em);
            let mut acc: u64 = 1;
            let mut i: usize = 0;
            while i < vec.len()
                invariant
                    i <= vec.len(),
                    em == exprs_model(vec@),
                    e@ == ExprV::Block(em),
                    exprs_size(em, i as int) <= exprs_size(em, 0),
                    acc == capped(1 + exprs_size(em, 0) - exprs_size(em, i as int)),
                decreases vec.len() - i,
            {
                assert(em[i as int] == vec@[i as int]@);
                let b = capped_size(&vec[i]);
                acc = sat_add(acc, b);
                i = i + 1;
            }
            acc
        },
        Expr::FuncDef(_, params, body) => {
            let c = (LIMIT + 1) as u64;
            let plen = params.len();
            let p: u64 = if plen as u128 > c as u128 {
                c
            } else {
                plen as u64
            };
            assert(e@->FuncDef_1.len() == plen);
            sat_add(sat_add(1, p), capped_size(body))
        },
        Expr::FuncCall(_, args) => {
            let ghost am = boxed_model(args@);
            assert(e@->FuncCall_1 =~= am);
            let n = args.len();
            let k = if n < 6 {
                n
            } else {
                6
            };
            let mut acc: u64 = 1;
            let mut i: usize = 0;
            while i < k
                invariant
                    k <= n,
                    k <= 6,
                    n == args.len(),
                    i <= k,
                    am == boxed_model(args@),
                    e@ == ExprV::FuncCall(e@->FuncCall_0, am),
                    regs_size(am, i as int) <= regs_size(am, 0),
                    acc == capped(1 + regs_size(am, 0) - regs_size(am, i as int)),
                decreases k - i,
            {
                assert(am[i as int] == args@[i as int]@);
                let b = capped_size(&args[i]);
                acc = sat_add(acc, b);
                i = i + 1;
            }
            let ghost before = 1 + regs_size(am, 0);
            let mut j: usize = if n >= 7 {
                n - 2
            } else {
                4
            };
            while j >= 5
                invariant
                    n == args.len(),
                    j >= 5 ==> n >= 7,
                    n >= 7 ==> j <= n - 2,
                    n < 7 ==> j == 4,
                    am == boxed_model(args@),
                    e@ == ExprV::FuncCall(e@->FuncCall_0, am),
                    before == 1 + regs_size(am, 0),
                    spill_size(am, j as int) <= spill_size(am, n - 2),
                    acc == capped(before + spill_size(am, n - 2) - spill_size(am, j as int)),
                decreases j,
            {
                assert(am[j as int] == args@[j as int]@);
                let b = capped_size(&args[j]);
                acc = sat_add(acc, b);
                j = j - 1;
            }
            acc
        },
        Expr::Program(defs, body) => {
            let ghost dm = exprs_model(defs@);
            assert(e@->Program_0 =~= dm);
            let mut acc: u64 = 1;
            let mut i: usize = 0;
            while i < defs.len()
                invariant
                    i <= defs.len(),
                    dm == exprs_model(defs@),
                    e@ == ExprV::Program(dm, Box::new(body@)),
                    exprs_size(dm, i as int) <= exprs_size(dm, 0),
                    acc == capped(1 + exprs_size(dm, 0) - exprs_size(dm, i as int)),
                decreases defs.len() - i,
            {
                assert(dm[i as int] == defs@[i as int]@);
                let b = capped_size(&defs[i]);
                acc = sat_add(acc, b);
                i = i + 1;
            }
            sat_add(acc, capped_size(body))
        },
    }
}

/// Whether an expression is small enough for `compile_expr`: no stack
/// slot, offset or label number of its code overflows.
pub fn within_limits(e: &Expr) -> (r: bool)
    ensures
        r == (expr_size(e@) + STACK_BASE <= LIMIT),
{
    capped_size(e) <= (LIMIT - STACK_BASE) as u64
}

} // verus!
