use mirascript_vm::constants::Constant;
use mirascript_vm::error::{MiraError, RuntimeErrorKind};
use mirascript_vm::frame::{FrameArena, FrameId};
use mirascript_vm::globals::Globals;
use mirascript_vm::model::{BinaryOperation, Operation, Program};
use mirascript_vm::register::RegisterId;
use mirascript_vm::runtime::{Flow, NumOp, check_body, eval, execute_op, run};
use mirascript_vm::script::ScriptId;
use mirascript_vm::value::MiraValue;

fn render(bits: u64, exponent: bool) -> String {
    let value = f64::from_bits(bits);
    if exponent {
        format!("{value:e}")
    } else {
        value.to_string()
    }
}

fn num(op: NumOp, a: u64, b: u64) -> u64 {
    let x = f64::from_bits(a);
    let y = f64::from_bits(b);
    let flag = |holds: bool| if holds { 1.0f64 } else { 0.0 };
    let result = match op {
        NumOp::Add => x + y,
        NumOp::Sub => x - y,
        NumOp::Mul => x * y,
        NumOp::Div => x / y,
        NumOp::Mod => x % y,
        NumOp::Pow => x.powf(y),
        NumOp::Neg => -x,
        NumOp::FromInt => f64::from(a as u32 as i32),
        NumOp::Increment => x + 1.0,
        NumOp::Less => flag(x < y),
        NumOp::LessEqual => flag(x <= y),
        NumOp::Equal => flag(x == y),
        NumOp::SameValue => flag(x == y || (x.is_nan() && y.is_nan())),
        NumOp::Approx => {
            let diff = (x - y).abs();
            flag(!x.is_nan() && !y.is_nan() && (x == y || diff < 1e-15 || diff < x.abs().min(y.abs()) * 1e-15))
        }
    };
    result.to_bits()
}

fn compile_and_decode(source: &str) -> Program {
    let (chunk, _warnings) =
        mirascript_core::Compiler::compile(source, &mirascript_core::CompileConfig::new());
    Program::decode(&chunk.expect("the source compiles"), &Globals::new(), &render).unwrap()
}

fn evaluate(source: &str, fuel: u64) -> Result<MiraValue, Box<MiraError>> {
    let program = compile_and_decode(source);
    assert!(check_body(&program.root.body, &program.constants, program.root.register_count));
    let mut frames = FrameArena::new(program.root.register_count);
    run(&program, &Globals::new(), &mut frames, fuel, &num).expect("the run stays within the scalar runtime")
}

fn number(value: MiraValue) -> f64 {
    match value {
        MiraValue::Number(bits) => f64::from_bits(bits),
        other => panic!("not a number: {other:?}"),
    }
}

#[test]
fn runs_six_times_seven_to_forty_two() {
    assert_eq!(number(evaluate("6*7", 100).unwrap()), 42.0);
}

#[test]
fn runs_arithmetic_with_precedence() {
    assert_eq!(number(evaluate("1 + 2 * 3 - 4 / 2", 100).unwrap()), 5.0);
    assert_eq!(number(evaluate("-(5 - 2)", 100).unwrap()), -3.0);
}

#[test]
fn runs_booleans_and_conditionals() {
    assert_eq!(evaluate("true && !false", 100).unwrap(), MiraValue::Boolean(true));
}

#[test]
fn arithmetic_on_nil_is_a_type_mismatch() {
    let error = evaluate("nil + 1", 100).unwrap_err();
    assert!(matches!(
        *error,
        MiraError::Runtime { kind: RuntimeErrorKind::TypeMismatch { expected: "number-convertible value", .. }, .. }
    ));
}

#[test]
fn an_empty_root_gives_nil() {
    let program = compile_and_decode("");
    let mut frames = FrameArena::new(program.root.register_count);
    assert_eq!(run(&program, &Globals::new(), &mut frames, 10, &num).unwrap().unwrap(), MiraValue::Nil);
}

#[test]
fn comparisons_with_nan_are_false() {
    assert_eq!(evaluate("1 < 2", 100).unwrap(), MiraValue::Boolean(true));
    assert_eq!(evaluate("2 <= 1", 100).unwrap(), MiraValue::Boolean(false));
    assert_eq!(evaluate("0/0 < 1", 100).unwrap(), MiraValue::Boolean(false));
    assert_eq!(evaluate("0/0 <= 1", 100).unwrap(), MiraValue::Boolean(false));
    assert_eq!(evaluate("0/0 > 1", 100).unwrap(), MiraValue::Boolean(false));
    assert_eq!(evaluate("0/0 >= 1", 100).unwrap(), MiraValue::Boolean(false));
}

#[test]
fn nan_is_not_equal_to_itself() {
    assert_eq!(evaluate("0/0 == 0/0", 100).unwrap(), MiraValue::Boolean(false));
    assert_eq!(evaluate("0/0 != 0/0", 100).unwrap(), MiraValue::Boolean(true));
    assert_eq!(evaluate("1 == 1", 100).unwrap(), MiraValue::Boolean(true));
}

#[test]
fn same_value_treats_nan_as_itself() {
    let mut frames = FrameArena::new(3);
    frames.begin_run(3);
    let nan = f64::NAN.to_bits();
    frames.write_register(FrameId::root(), RegisterId::new(1), MiraValue::Number(nan));
    frames.write_register(FrameId::root(), RegisterId::new(2), MiraValue::Number(nan));
    let constants: Vec<Constant> = Vec::new();
    let names: Vec<(String, Option<usize>)> = Vec::new();
    let globals = Globals::new();
    let cases = [
        (BinaryOperation::Eq, false),
        (BinaryOperation::Neq, true),
        (BinaryOperation::Same, true),
        (BinaryOperation::Nsame, false),
    ];
    for (kind, expected) in cases {
        let op = Operation::Binary {
            kind,
            destination: RegisterId::new(3),
            left: RegisterId::new(1),
            right: RegisterId::new(2),
        };
        assert!(matches!(execute_op(&mut frames, &op, FrameId::root(), &constants, &names, &globals, &num), Ok(Flow::Continue)));
        assert_eq!(frames.read_register(FrameId::root(), RegisterId::new(3)).unwrap(), MiraValue::Boolean(expected));
    }
}

#[test]
fn conditionals_take_the_branch_their_test_picks() {
    assert_eq!(number(evaluate("if 1 < 2 { 10 } else { 20 }", 100).unwrap()), 10.0);
    assert_eq!(number(evaluate("if 2 < 1 { 10 } else { 20 }", 100).unwrap()), 20.0);
}

#[test]
fn loops_leave_on_break_and_time_out_without_fuel() {
    assert_eq!(number(evaluate("loop { break; } 3", 100).unwrap()), 3.0);
    let error = evaluate("loop { }", 5).unwrap_err();
    assert!(matches!(*error, MiraError::Runtime { kind: RuntimeErrorKind::Timeout, .. }));
}

#[test]
fn eval_compiles_and_runs_source() {
    let mut frames = FrameArena::new(0);
    let id = ScriptId::new(1).unwrap();
    let result = eval("6 * 7", &Globals::new(), &render, id, &mut frames, 100, &num);
    assert_eq!(number(result.unwrap().unwrap()), 42.0);
    let failed = eval("1 +", &Globals::new(), &render, id, &mut frames, 100, &num);
    assert!(matches!(*failed.unwrap().unwrap_err(), MiraError::Compile { .. }));
}

#[test]
fn loop_bodies_reach_enclosing_variables() {
    assert_eq!(number(evaluate("let x = 3; loop { return x * 2; }", 100).unwrap()), 6.0);
    assert_eq!(number(evaluate("let mut s = 0; for i in 1..4 { s = s + i; } s", 100).unwrap()), 10.0);
}

#[test]
fn runs_stop_only_at_instructions_they_reach() {
    assert_eq!(number(evaluate("if false { 'unreachable' } else { 1 }", 100).unwrap()), 1.0);
    let program = compile_and_decode("'text'");
    assert!(check_body(&program.root.body, &program.constants, program.root.register_count));
    let mut frames = FrameArena::new(program.root.register_count);
    assert!(run(&program, &Globals::new(), &mut frames, 100, &num).is_none());
}

#[test]
fn runs_read_host_globals() {
    let program = compile_and_decode("x + 1");
    let mut globals = Globals::new();
    globals.insert("x".into(), MiraValue::Number(5.0f64.to_bits()));
    let mut frames = FrameArena::new(program.root.register_count);
    assert_eq!(number(run(&program, &globals, &mut frames, 100, &num).unwrap().unwrap()), 6.0);
    let missing = run(&program, &Globals::new(), &mut frames, 100, &num).unwrap().unwrap_err();
    assert!(matches!(&*missing, MiraError::Runtime { kind: RuntimeErrorKind::UndefinedGlobal { name }, .. } if name == "x"));
    globals.insert("x".into(), MiraValue::String(7));
    assert!(run(&program, &globals, &mut frames, 100, &num).is_none());
}
