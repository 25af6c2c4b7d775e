use mirascript_vm::call_stack::CallStack;
use mirascript_vm::execution::call;
use mirascript_vm::error::{
    decode_diagnostics, ConversionPathSegment, ConversionReason, MiraError, RuntimeErrorKind,
    RuntimeTrace,
};
use mirascript_vm::frame::{Frame, FrameArena, FrameId};
use mirascript_vm::model::{Instruction, InstructionKind, Operation, block_may_capture_frame};
use mirascript_vm::tables::{CellTable, SlotTable};
use mirascript_vm::operations::{assert_non_nil, into_element, overload_number, to_boolean};
use mirascript_vm::register::{MiraAny, RegisterId, Registers};
use mirascript_vm::script::{compile_with, CompileOptions, ScriptId};
use mirascript_vm::globals::Globals;
use mirascript_vm::value::{MiraType, MiraValue};

fn render(bits: u64, exponent: bool) -> String {
    let value = f64::from_bits(bits);
    if exponent {
        format!("{value:e}")
    } else {
        value.to_string()
    }
}

#[test]
fn call_stack_spills_past_its_inline_depth() {
    let mut stack = CallStack::new();
    assert_eq!(stack.last(), None);
    for function in 1..=6u32 {
        stack.push(function);
    }
    assert_eq!(stack.depth(), 6);
    assert_eq!(stack.last(), Some(6));
    assert_eq!(stack.iter(), [1, 2, 3, 4, 5, 6]);
    stack.pop();
    stack.pop();
    stack.pop();
    assert_eq!(stack.last(), Some(3));
    assert_eq!(stack.iter(), [1, 2, 3]);
    stack.pop();
    stack.pop();
    stack.pop();
    stack.pop();
    assert_eq!(stack.depth(), 0);
    assert_eq!(stack.last(), None);
}

#[test]
fn register_files_read_nil_from_register_zero() {
    let mut registers = Registers::new(20);
    assert!(registers.read(RegisterId::new(0)).unwrap().is_nil());
    assert!(registers.read(RegisterId::new(20)).is_uninitialized());
    registers.set(RegisterId::new(20), MiraAny::from(MiraValue::boolean(true)));
    assert_eq!(registers.read(RegisterId::new(20)).check().unwrap(), MiraValue::Boolean(true));
    registers.reset(3);
    assert!(registers.read(RegisterId::new(3)).is_uninitialized());
    assert!(RegisterId::new(0).is_nil());
    assert!(!RegisterId::new(1).is_nil());
}

#[test]
fn frames_follow_parent_links() {
    let mut arena = FrameArena::new(4);
    let first = arena.push(2, Some(FrameId::root()));
    let second = arena.push(2, Some(first));
    assert_eq!(first, FrameId(1));
    assert_eq!(second, FrameId(2));
    assert_eq!(arena.parent_frame(second, 0).unwrap(), second);
    assert_eq!(arena.parent_frame(second, 2).unwrap(), FrameId::root());
    assert!(arena.parent_frame(second, 3).is_err());
    arena.write_register(second, RegisterId::new(1), MiraValue::Boolean(false));
    assert_eq!(arena.read_register(second, RegisterId::new(1)).unwrap(), MiraValue::Boolean(false));
    arena.clear_register(second, RegisterId::new(1));
    assert!(arena.read_register(second, RegisterId::new(1)).is_err());
    assert_eq!(arena.read_register(second, RegisterId::new(0)).unwrap(), MiraValue::Nil);
    let mut frame = Frame::new(1, None);
    frame.reset(Some(FrameId::root()));
    assert_eq!(frame.parent, Some(FrameId::root()));
}

#[test]
fn name_tables_keep_first_positions() {
    let mut slots = SlotTable::new();
    assert_eq!(slots.push("a".into(), None), 0);
    assert_eq!(slots.push("b".into(), Some(3)), 1);
    assert_eq!(slots.len(), 2);
    assert_eq!(slots.index_of("b"), Some(1));
    assert_eq!(slots.index_of("c"), None);
    assert_eq!(slots.entry(1), Some(("b".to_string(), Some(3))));
    assert_eq!(slots.entry(2), None);

    let mut cells = CellTable::new();
    assert_eq!(cells.push("x".into(), MiraAny::uninitialized()), 0);
    cells.set(0, MiraAny::from(MiraValue::Nil));
    assert_eq!(cells.cell(0).unwrap(), MiraValue::Nil);
    assert_eq!(cells.name(0), Some("x".to_string()));
    assert_eq!(cells.index_of("x"), Some(0));
}

#[test]
fn value_operations() {
    assert_eq!(into_element(MiraValue::Function(3)), MiraValue::Nil);
    assert_eq!(into_element(MiraValue::Array(3)), MiraValue::Array(3));
    assert!(assert_non_nil(MiraValue::Nil).is_err());
    assert!(assert_non_nil(MiraValue::Boolean(false)).is_ok());
    assert!(overload_number(&MiraValue::Number(0), &MiraValue::String(1)));
    assert!(!overload_number(&MiraValue::Nil, &MiraValue::String(1)));
    assert!(overload_number(&MiraValue::Nil, &MiraValue::Boolean(true)));
    assert!(to_boolean(MiraValue::Boolean(true)).unwrap());
    match *to_boolean(MiraValue::Nil).unwrap_err() {
        MiraError::Runtime { kind: RuntimeErrorKind::TypeMismatch { expected, actual }, .. } => {
            assert_eq!(expected, "boolean");
            assert_eq!(actual, MiraType::Nil);
        }
        other => panic!("unexpected error {other:?}"),
    }
}

#[test]
fn diagnostics_decode_in_groups_of_five() {
    let decoded = decode_diagnostics(&[1, 2, 3, 4, 65535, 5, 6, 7, 8, 65535]);
    assert_eq!(decoded.len(), 2);
    assert_eq!(decoded[1].start_line, 5);
    assert_eq!(decoded[1].end_col, 8);
    assert_eq!(decoded[0].code, 65535);
}

#[test]
fn conversion_paths_grow_outward() {
    let error = MiraError::conversion_type("u8", MiraType::String)
        .at_index(2)
        .at_field("items".into());
    match *error {
        MiraError::Conversion { path, reason: ConversionReason::Type { expected, .. } } => {
            assert_eq!(expected, "u8");
            assert_eq!(
                path,
                [ConversionPathSegment::Field("items".into()), ConversionPathSegment::Index(2)]
            );
        }
        other => panic!("unexpected error {other:?}"),
    }
}

#[test]
fn runtime_context_is_recorded_once() {
    let error = *MiraError::runtime(RuntimeErrorKind::Timeout);
    let error = error.with_runtime_context(Some("f".into()), 7, vec!["main".into()]);
    let error = error.with_runtime_context(None, 9, Vec::new());
    match error {
        MiraError::Runtime { trace, .. } => {
            assert_eq!(trace.offset, Some(7));
            assert_eq!(trace.function.as_deref(), Some("f"));
            assert_eq!(trace.stack, ["main"]);
        }
        other => panic!("unexpected error {other:?}"),
    }
    let empty = RuntimeTrace::new();
    assert!(empty.function.is_none() && empty.offset.is_none() && empty.stack.is_empty());
}

#[test]
fn compiling_gives_scripts_or_diagnostics() {
    let globals = Globals::new();
    let id = ScriptId::new(5).unwrap();
    let script = compile_with("1 + 2", &CompileOptions::new(), &globals, &render, id).unwrap();
    assert_eq!(script.id(), id);
    assert_eq!(script.id().get(), 5);
    assert_eq!(script.program().root.offset, 0);
    assert_eq!(script.clone().id(), id);
    match *compile_with("1 +", &CompileOptions::new(), &globals, &render, id).unwrap_err() {
        MiraError::Compile { diagnostics } => assert!(!diagnostics.is_empty()),
        other => panic!("unexpected error {other:?}"),
    }
    assert!(ScriptId::new(0).is_none());
}

#[test]
fn capturing_instructions_are_found_in_nested_blocks() {
    let noop = Instruction { offset: 0, kind: InstructionKind::Op(Operation::Noop) };
    assert!(!block_may_capture_frame(&vec![noop]));
    let function = Instruction {
        offset: 1,
        kind: InstructionKind::Function { destination: RegisterId::new(0), function: 0 },
    };
    let nested = Instruction {
        offset: 2,
        kind: InstructionKind::If {
            condition: mirascript_vm::model::Condition::Truthy,
            register: RegisterId::new(0),
            then_body: Vec::new(),
            else_body: vec![function],
        },
    };
    assert!(block_may_capture_frame(&vec![nested]));
}

#[test]
fn call_stack_follows_a_vec_model_over_any_sequence() {
    let mut stack = CallStack::new();
    let mut model: Vec<u32> = Vec::new();
    let steps: [i64; 14] = [1, 2, 3, -1, 4, 5, 6, 7, -1, -1, 8, -1, -1, -1];
    for step in steps {
        if step > 0 {
            stack.push(step as u32);
            model.push(step as u32);
        } else {
            stack.pop();
            model.pop();
        }
        assert_eq!(stack.iter(), model);
        assert_eq!(stack.last(), model.last().copied());
        assert_eq!(stack.depth(), model.len());
    }
    for _ in 0..3 {
        stack.pop();
        model.pop();
    }
    assert_eq!(stack.iter(), model);
    assert_eq!(stack.depth(), 0);
}

#[test]
fn frames_are_numbered_from_one_in_push_order_each_run() {
    let mut arena = FrameArena::new(2);
    for run in 0..2 {
        arena.begin_run(2);
        for k in 1..=5usize {
            let parent = Some(FrameId(k - 1));
            let id = arena.push(3, parent);
            assert_eq!(id.0, k, "run {run}");
            assert_eq!(arena.get(id).parent, parent);
        }
    }
}

#[test]
fn calls_check_depth_then_callability() {
    let mut stack: CallStack<u64> = CallStack::new();
    assert_eq!(call(&mut stack, 2, MiraValue::Function(7)).unwrap(), 7);
    assert_eq!(stack.iter(), [7]);
    let refused = call(&mut stack, 2, MiraValue::Number(0)).unwrap_err();
    assert!(matches!(*refused, MiraError::Runtime { kind: RuntimeErrorKind::NotCallable { actual: MiraType::Number }, .. }));
    assert_eq!(stack.depth(), 1);
    call(&mut stack, 2, MiraValue::Function(8)).unwrap();
    let deep = call(&mut stack, 2, MiraValue::Function(9)).unwrap_err();
    assert!(matches!(*deep, MiraError::Runtime { kind: RuntimeErrorKind::MaxCallDepth { max: 2 }, .. }));
    assert_eq!(stack.iter(), [7, 8]);
}

#[test]
fn cloned_scripts_keep_their_identity() {
    let id = ScriptId::new(11).unwrap();
    let script = compile_with("1 + 2", &CompileOptions::new(), &Globals::new(), &render, id).unwrap();
    let copy = script.clone();
    assert_eq!(copy.id(), script.id());
    assert_eq!(copy.program_ref().constants.len(), script.program_ref().constants.len());
}

#[test]
fn global_slots_follow_the_names_they_read() {
    let id = ScriptId::new(12).unwrap();
    let script = compile_with("foo(bar)", &CompileOptions::new(), &Globals::new(), &render, id).unwrap();
    let program = script.program_ref();
    let name = |slot: usize| program.global_names[slot].0.clone();
    let mut fused = 0;
    for (index, instruction) in program.root.body.iter().enumerate() {
        if let InstructionKind::Op(Operation::CallGlobal1FromGlobal { slot, argument_slot, .. }) = &instruction.kind {
            assert_eq!(name(*slot), "foo");
            assert_eq!(name(*argument_slot), "bar");
            assert!(matches!(
                &program.root.body[index - 1].kind,
                InstructionKind::Op(Operation::GetGlobal { slot, .. }) if slot == argument_slot
            ));
            fused += 1;
        }
    }
    assert_eq!(fused, 1);
}
