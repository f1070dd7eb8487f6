use diamondback::compiler::{check_expr, compile, compile_expr, within_limits, CompileError, Namespace, State};
use diamondback::nasm::read_val;
use diamondback::parser::parse_text;
use diamondback::types::{BinaryOp, Binding, Expr, Instr, Register, UnitaryOp, Val, ZeroOp};

fn compile_text(text: &str) -> Result<String, CompileError> {
    let e = parse_text(text).unwrap();
    assert!(within_limits(&e));
    check_expr(&e)?;
    Ok(compile_expr(&e))
}

fn lines(ls: &[&str]) -> String {
    let mut s = String::new();
    for l in ls {
        s.push('\n');
        s.push_str(l);
    }
    s
}

fn num(n: i64) -> Box<Expr> {
    Box::new(Expr::EZeroOp(ZeroOp::Number(n)))
}

fn var(s: &str) -> Box<Expr> {
    Box::new(Expr::EZeroOp(ZeroOp::Identifier(s.to_string())))
}

fn def(name: &str, params: &[&str], body: Box<Expr>) -> Expr {
    Expr::FuncDef(name.to_string(), params.iter().map(|p| p.to_string()).collect(), body)
}

fn call(name: &str, args: Vec<Box<Expr>>) -> Box<Expr> {
    Box::new(Expr::FuncCall(name.to_string(), args))
}

#[test]
fn compiles_constants() {
    assert_eq!(compile_text("5").unwrap(), lines(&["mov rax, 10"]));
    assert_eq!(compile_text("-3").unwrap(), lines(&["mov rax, -6"]));
    assert_eq!(compile_text("true").unwrap(), lines(&["mov rax, 3"]));
    assert_eq!(compile_text("false").unwrap(), lines(&["mov rax, 1"]));
    assert_eq!(compile_text("input").unwrap(), lines(&["mov rax, rdi"]));
}

#[test]
fn compiles_add1_with_checks() {
    assert_eq!(
        compile_text("(add1 1)").unwrap(),
        lines(&["mov rax, 2", "test rax, 1", "jnz expect_numeric", "add rax, 2", "jo overflow"])
    );
    assert_eq!(
        compile_text("(sub1 1)").unwrap(),
        lines(&["mov rax, 2", "test rax, 1", "jnz expect_numeric", "sub rax, 2", "jo overflow"])
    );
}

#[test]
fn compiles_type_tests() {
    assert_eq!(
        compile_text("(isnum 1)").unwrap(),
        lines(&["mov rax, 2", "not rax", "and rax, 1", "shl rax, 1", "inc rax"])
    );
    assert_eq!(
        compile_text("(isbool 1)").unwrap(),
        lines(&["mov rax, 2", "and rax, 1", "shl rax, 1", "inc rax"])
    );
}

#[test]
fn compiles_plus_second_operand_first() {
    assert_eq!(
        compile_text("(+ 1 2)").unwrap(),
        lines(&[
            "mov rax, 4",
            "mov [rsp - 16], rax",
            "mov rax, 2",
            "mov rbx, [rsp - 16]",
            "test rax, 1",
            "jnz expect_numeric",
            "test rbx, 1",
            "jnz expect_numeric",
            "add rax, rbx",
            "jo overflow",
        ])
    );
}

#[test]
fn compiles_times_with_untagging() {
    assert_eq!(
        compile_text("(* 1 2)").unwrap(),
        lines(&[
            "mov rax, 4",
            "mov [rsp - 16], rax",
            "mov rax, 2",
            "mov rbx, [rsp - 16]",
            "test rax, 1",
            "jnz expect_numeric",
            "test rbx, 1",
            "jnz expect_numeric",
            "sar rax, 1",
            "sar rbx, 1",
            "imul rax, rbx",
            "jo overflow",
            "sal rax, 1",
            "jo overflow",
        ])
    );
}

#[test]
fn compiles_comparison() {
    assert_eq!(
        compile_text("(< 1 2)").unwrap(),
        lines(&[
            "mov rax, 4",
            "mov [rsp - 16], rax",
            "mov rax, 2",
            "mov rbx, [rsp - 16]",
            "test rax, 1",
            "jnz expect_numeric",
            "test rbx, 1",
            "jnz expect_numeric",
            "cmp rax, rbx",
            "mov rax, 1",
            "mov rbx, 3",
            "cmovl rax, rbx",
        ])
    );
}

#[test]
fn compiles_equality() {
    assert_eq!(
        compile_text("(= 1 true)").unwrap(),
        lines(&[
            "mov rax, 3",
            "mov [rsp - 16], rax",
            "mov rax, 2",
            "mov rbx, [rsp - 16]",
            "xor rbx, rax",
            "mov rbp, 3",
            "mov rax, 1",
            "cmovz rax, rbp",
            "test rbx, 1",
            "jnz expect_numeric",
        ])
    );
}

#[test]
fn compiles_let_into_stack_slots() {
    assert_eq!(
        compile_text("(let ((x 5) (y x)) y)").unwrap(),
        lines(&[
            "mov rax, 10",
            "mov [rsp - 16], rax",
            "mov rax, [rsp - 16]",
            "mov [rsp - 24], rax",
            "mov rax, [rsp - 24]",
        ])
    );
}

#[test]
fn compiles_set() {
    assert_eq!(
        compile_text("(let ((x 5)) (set! x 6))").unwrap(),
        lines(&["mov rax, 10", "mov [rsp - 16], rax", "mov rax, 12", "mov [rsp - 16], rax"])
    );
}

#[test]
fn compiles_if_with_fresh_labels() {
    assert_eq!(
        compile_text("(if true 1 2)").unwrap(),
        lines(&[
            "mov rax, 3",
            "cmp rax, 1",
            "je if_false_1",
            "mov rax, 2",
            "jmp end_if_1",
            "if_false_1:",
            "mov rax, 4",
            "jmp end_if_1",
            "end_if_1:",
        ])
    );
}

#[test]
fn each_branch_takes_the_next_label_number() {
    let text = compile_text("(block (if true 1 2) (loop (break 3)) (if false 4 5))").unwrap();
    assert!(text.contains("\nje if_false_1\n"));
    assert!(text.contains("\nloop_2:\n"));
    assert!(text.contains("\njmp end_loop_2\n"));
    assert!(text.contains("\nend_loop_2:"));
    assert!(text.contains("\nje if_false_3\n"));
    assert!(!text.contains("_4"));
}

#[test]
fn compiles_loop_and_break() {
    assert_eq!(
        compile_text("(loop (break 1))").unwrap(),
        lines(&["loop_1:", "mov rax, 2", "jmp end_loop_1", "jmp loop_1", "end_loop_1:"])
    );
}

#[test]
fn compiles_block_in_order() {
    assert_eq!(compile_text("(block 1 2)").unwrap(), lines(&["mov rax, 2", "mov rax, 4"]));
}

#[test]
fn reports_unbound_variable() {
    assert_eq!(compile_text("y"), Err(CompileError::UnboundVariable("y".to_string())));
    assert_eq!(
        compile_text("(set! z 1)"),
        Err(CompileError::UnboundVariable("z".to_string()))
    );
}

#[test]
fn let_binding_is_not_seen_outside() {
    assert_eq!(
        compile_text("(block (let ((x 1)) x) x)"),
        Err(CompileError::UnboundVariable("x".to_string()))
    );
}

#[test]
fn reports_break_outside_loop() {
    assert_eq!(compile_text("(break 1)"), Err(CompileError::BreakOutsideLoop));
}

#[test]
fn reports_nested_definition() {
    let e = Expr::Block(vec![def("f", &[], num(2))]);
    assert_eq!(check_expr(&e), Err(CompileError::NestedFuncDef));
}

#[test]
fn compiles_program_with_function() {
    let e = Expr::Program(
        vec![def("f", &["a"], var("a"))],
        call("f", vec![num(2)]),
    );
    assert!(within_limits(&e));
    assert_eq!(
        compile_expr(&e),
        lines(&[
            "def_f:",
            "mov rax, rdi",
            "ret\n",
            "our_code_starts_here:",
            "mov rax, 2",
            "mov rdi, rax",
            "add rsp, 16",
            "call def_f",
            "sub rsp, 16",
            "ret\n",
        ])
    );
}

#[test]
fn seventh_parameter_lives_below_the_stack_pointer() {
    let e = Expr::Program(
        vec![def("g", &["a", "b", "c", "d", "e", "f", "h"], var("h"))],
        num(0),
    );
    assert_eq!(
        compile_expr(&e),
        lines(&["def_g:", "mov rax, [rsp - -64]", "ret\n", "our_code_starts_here:", "mov rax, 0", "ret\n"])
    );
}

#[test]
fn call_with_seven_arguments_spills_from_the_sixth() {
    let e = Expr::Program(
        vec![def("g", &["a", "b", "c", "d", "e", "f", "h"], num(0))],
        call("g", vec![num(2), num(4), num(6), num(8), num(10), num(12), num(14)]),
    );
    let text = compile_expr(&e);
    assert!(text.contains("\nmov rax, 12\nmov r9, rax\nmov rax, 12\nmov [rsp - 16], rax\nadd rsp, 24\ncall def_g\nsub rsp, 24"));
    assert!(!text.contains("mov rax, 14"));
}

#[test]
fn reports_call_errors() {
    let missing = Expr::Program(vec![], call("f", vec![]));
    assert_eq!(check_expr(&missing), Err(CompileError::FunctionNotFound));
    let wrong = Expr::Program(vec![def("f", &["a"], var("a"))], call("f", vec![]));
    assert_eq!(check_expr(&wrong), Err(CompileError::WrongArgCount));
    let later = Expr::Program(
        vec![def("f", &[], call("g", vec![])), def("g", &[], num(0))],
        num(0),
    );
    assert_eq!(check_expr(&later), Err(CompileError::FunctionNotFound));
}

#[test]
fn reports_definition_errors() {
    let twice = Expr::Program(vec![def("f", &[], num(0)), def("f", &[], num(0))], num(0));
    assert_eq!(check_expr(&twice), Err(CompileError::NameInUse));
    let dup = Expr::Program(vec![def("f", &["a", "a"], num(0))], num(0));
    assert_eq!(check_expr(&dup), Err(CompileError::DuplicateBinding));
    let not_def = Expr::Program(vec![*num(0)], num(0));
    assert_eq!(check_expr(&not_def), Err(CompileError::ExpectedDefinition));
    let input = Expr::Program(vec![def("f", &[], Box::new(Expr::EZeroOp(ZeroOp::Input)))], num(0));
    assert_eq!(check_expr(&input), Err(CompileError::InputOutsideMain));
}

#[test]
fn function_named_main_may_read_input() {
    let e = Expr::Program(vec![def("main", &[], Box::new(Expr::EZeroOp(ZeroOp::Input)))], num(0));
    assert!(check_expr(&e).is_ok());
    assert!(compile_expr(&e).contains("def_main:"));
}

#[test]
fn compile_leaves_namespace_unchanged_and_counts_labels() {
    let e = parse_text("(let ((x 1)) (if x (loop (break x)) (if x 1 2)))").unwrap();
    let mut v: Vec<Instr> = Vec::new();
    let mut uid: i64 = 7;
    let mut ns = Namespace {
        func: "main".to_string(),
        h: vec![("z".to_string(), Val::Reg(Register::RCX))],
        break_label: String::new(),
    };
    let mut st = State { defs: Vec::new(), types: Vec::new() };
    let r = compile(&e, &mut v, 2, &mut uid, &mut ns, &mut st);
    assert_eq!(r, Ok(()));
    assert_eq!(uid, 10);
    assert_eq!(ns.func, "main");
    assert_eq!(ns.h, vec![("z".to_string(), Val::Reg(Register::RCX))]);
    assert_eq!(ns.break_label, "");
    assert!(v.contains(&Instr::ILabel(Val::Label("if_false_8:".to_string()))));
    assert!(v.contains(&Instr::ILabel(Val::Label("loop_9:".to_string()))));
    assert!(v.contains(&Instr::ILabel(Val::Label("end_if_10:".to_string()))));
}

#[test]
fn writes_operands() {
    assert_eq!(read_val(Val::Reg(Register::R8)), "r8");
    assert_eq!(read_val(Val::Imm(-42)), "-42");
    assert_eq!(read_val(Val::RegOffset(Register::RSP, 3)), "[rsp - 24]");
    assert_eq!(read_val(Val::ValTrue), "3");
    assert_eq!(read_val(Val::ValFalse), "1");
    assert_eq!(read_val(Val::Label("here:".to_string())), "here:");
}

#[test]
fn writes_program_text() {
    let v = vec![
        Instr::ILabel(Val::Label("start:".to_string())),
        Instr::IMov(Val::Reg(Register::RAX), Val::Imm(8)),
        Instr::Call(Val::Label("def_f".to_string())),
        Instr::Ret,
    ];
    assert_eq!(diamondback::nasm::stringify(v), "\nstart:\nmov rax, 8\ncall def_f\nret\n");
    assert_eq!(diamondback::nasm::stringify(Vec::new()), "");
}

#[test]
fn small_programs_are_within_limits() {
    assert!(within_limits(&parse_text("(let ((x 1)) (+ x x))").unwrap()));
    let mut e = *num(0);
    for _ in 0..100 {
        e = Expr::EUnitaryOp(UnitaryOp::Add1, Box::new(e));
    }
    assert!(within_limits(&e));
}

#[test]
fn binding_keeps_its_name() {
    let e = Expr::Let(vec![Binding("a".to_string(), num(2))], var("a"));
    assert_eq!(
        compile_expr(&e),
        lines(&["mov rax, 2", "mov [rsp - 16], rax", "mov rax, [rsp - 16]"])
    );
}

fn label_lines(text: &str) -> Vec<String> {
    text.lines().filter(|l| l.ends_with(':')).map(|l| l.to_string()).collect()
}

fn all_distinct(v: &[String]) -> bool {
    for i in 0..v.len() {
        for j in (i + 1)..v.len() {
            if v[i] == v[j] {
                return false;
            }
        }
    }
    true
}

#[test]
fn nested_branches_define_each_label_once() {
    let text = compile_text(
        "(let ((x 0)) (block (if (if true false true) (loop (if (> x 3) (break x) (set! x (add1 x)))) (loop (break 1))) (if x x x)))",
    )
    .unwrap();
    let labels = label_lines(&text);
    assert_eq!(labels.len(), 12);
    assert!(all_distinct(&labels));
}

#[test]
fn program_defines_each_label_once() {
    let body = Box::new(Expr::If(num(1), num(2), num(3)));
    let e = Expr::Program(
        vec![
            def("f", &["a"], Box::new(Expr::EUnitaryOp(UnitaryOp::Loop, Box::new(Expr::EUnitaryOp(UnitaryOp::Break, var("a")))))),
            def("g", &[], Box::new(Expr::If(num(0), num(1), num(2)))),
        ],
        body,
    );
    let text = compile_expr(&e);
    let labels = label_lines(&text);
    assert_eq!(
        labels,
        vec![
            "def_f:".to_string(),
            "loop_1:".to_string(),
            "end_loop_1:".to_string(),
            "def_g:".to_string(),
            "if_false_2:".to_string(),
            "end_if_2:".to_string(),
            "our_code_starts_here:".to_string(),
            "if_false_3:".to_string(),
            "end_if_3:".to_string(),
        ]
    );
}

fn jump_targets(text: &str) -> Vec<String> {
    let mut v = Vec::new();
    for l in text.lines() {
        for op in ["jmp ", "je ", "jo ", "jnz ", "call "] {
            if let Some(t) = l.strip_prefix(op) {
                v.push(t.to_string());
            }
        }
    }
    v
}

#[test]
fn every_jump_lands_on_a_defined_label() {
    let body = Box::new(Expr::Let(
        vec![Binding("x".to_string(), num(0))],
        Box::new(Expr::EUnitaryOp(
            UnitaryOp::Loop,
            Box::new(Expr::If(
                Box::new(Expr::EBinaryOp(BinaryOp::Greater, var("x"), num(3))),
                Box::new(Expr::EUnitaryOp(UnitaryOp::Break, call("f", vec![var("x")]))),
                Box::new(Expr::SetBinding(Binding(
                    "x".to_string(),
                    Box::new(Expr::EUnitaryOp(UnitaryOp::Add1, var("x"))),
                ))),
            )),
        )),
    ));
    let e = Expr::Program(vec![def("f", &["a"], Box::new(Expr::EUnitaryOp(UnitaryOp::Sub1, var("a"))))], body);
    let text = compile_expr(&e);
    let labels = label_lines(&text);
    let targets = jump_targets(&text);
    assert!(targets.len() >= 6);
    for t in &targets {
        let handler = t == "overflow" || t == "expect_numeric";
        assert!(handler || labels.contains(&format!("{}:", t)), "{}", t);
    }
}

fn stack_writes(text: &str) -> Vec<i64> {
    let mut v = Vec::new();
    for l in text.lines() {
        if let Some(rest) = l.strip_prefix("mov [rsp - ") {
            let n: i64 = rest.split(']').next().unwrap().parse().unwrap();
            v.push(n);
        }
    }
    v
}

#[test]
fn main_program_writes_only_its_own_slots() {
    let text = compile_text(
        "(let ((a 1) (b (+ a (* 2 3)))) (block (set! a (- b (let ((c 4)) (+ c a)))) (if (< a b) (= a b) (+ a (+ b (+ a b))))))",
    )
    .unwrap();
    let writes = stack_writes(&text);
    assert!(writes.len() >= 6);
    for n in writes {
        assert!(n >= 16 && n % 8 == 0, "{}", n);
    }
}

#[test]
fn parsed_programs_have_no_entry_label_of_their_own() {
    let text = compile_text("(block (let ((x 1)) x) (if true (loop (break 1)) 2))").unwrap();
    assert!(!text.contains("our_code_starts_here"));
    assert!(!text.contains("def_"));
}

#[test]
fn check_reports_the_first_error_in_order() {
    let e = parse_text("(block (set! y 1) (break 2))").unwrap();
    assert_eq!(check_expr(&e), Err(CompileError::UnboundVariable("y".to_string())));
    let e = parse_text("(block (break 2) (set! y 1))").unwrap();
    assert_eq!(check_expr(&e), Err(CompileError::BreakOutsideLoop));
    let e = parse_text("(let ((a 1) (a 2)) (loop (break a)))").unwrap();
    assert_eq!(check_expr(&e), Ok(()));
}

#[test]
fn writes_large_stack_offsets() {
    assert_eq!(read_val(Val::RegOffset(Register::RSP, 1 << 57)), "[rsp - 1152921504606846976]");
    assert_eq!(read_val(Val::RegOffset(Register::RSP, -(1 << 59))), "[rsp - -4611686018427387904]");
}

#[test]
fn text_of_joined_lists_is_joined_text() {
    let a = vec![Instr::IMov(Val::Reg(Register::RAX), Val::Imm(2)), Instr::Ret];
    let b = vec![Instr::ILabel(Val::Label("l:".to_string())), Instr::Jmp(Val::Label("l".to_string()))];
    let mut ab = Vec::new();
    ab.extend(vec![Instr::IMov(Val::Reg(Register::RAX), Val::Imm(2)), Instr::Ret]);
    ab.extend(vec![Instr::ILabel(Val::Label("l:".to_string())), Instr::Jmp(Val::Label("l".to_string()))]);
    let joined = diamondback::nasm::stringify(a) + &diamondback::nasm::stringify(b);
    assert_eq!(diamondback::nasm::stringify(ab), joined);
}
