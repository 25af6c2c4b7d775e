use mirascript_core::OpCode;
use mirascript_vm::constants::Constant;
use mirascript_vm::error::{InvalidBytecodeReason, MiraError};
use mirascript_vm::globals::Globals;
use mirascript_vm::model::{
    ArrayElement, CallTarget, Instruction, InstructionKind, Operation, Program, RangeEndpoint,
};

fn render(bits: u64, exponent: bool) -> String {
    let value = f64::from_bits(bits);
    if exponent {
        format!("{value:e}")
    } else {
        value.to_string()
    }
}

fn decode(chunk: &[u8]) -> Result<Program, Box<MiraError>> {
    Program::decode(chunk, &Globals::new(), &render)
}

fn chunk(code: &[u8], constants: &[u8]) -> Vec<u8> {
    let length = 4 + code.len() + 4 + constants.len();
    let mut chunk = Vec::with_capacity(length + 4);
    chunk.extend_from_slice(&(length as u32).to_le_bytes());
    chunk.extend_from_slice(&(code.len() as u32).to_le_bytes());
    chunk.extend_from_slice(code);
    chunk.extend_from_slice(&(constants.len() as u32).to_le_bytes());
    chunk.extend_from_slice(constants);
    chunk
}

fn root(body: &[u8], register_count: u8) -> Vec<u8> {
    let mut code = vec![OpCode::Func as u8, 0, 0, register_count];
    code.extend_from_slice(body);
    code.push(OpCode::FuncEnd as u8);
    code
}

fn compile_and_decode(source: &str) -> Program {
    let (chunk, diagnostics) =
        mirascript_core::Compiler::compile(source, &mirascript_core::CompileConfig::new());
    assert!(diagnostics.is_empty());
    decode(&chunk.unwrap()).unwrap()
}

fn first_loop(body: &[Instruction]) -> Option<bool> {
    body.iter().find_map(|instruction| match &instruction.kind {
        InstructionKind::Loop { reuse_frame, .. } => Some(*reuse_frame),
        InstructionKind::If {
            then_body,
            else_body,
            ..
        } => first_loop(then_body).or_else(|| first_loop(else_body)),
        _ => None,
    })
}

fn failure(result: Result<Program, Box<MiraError>>) -> (usize, InvalidBytecodeReason) {
    match *result.unwrap_err() {
        MiraError::InvalidBytecode { offset, reason } => (offset, reason),
        other => panic!("expected invalid bytecode, got {other:?}"),
    }
}

#[test]
fn bytecode_rejects_truncated_header() {
    let error = decode(&[0; 3]).unwrap_err();
    assert!(matches!(*error, MiraError::InvalidBytecode { .. }));
}

#[test]
fn tests_rejects_truncated_header() {
    let error = decode(&[0; 3]).unwrap_err();
    assert!(matches!(error.as_ref(), MiraError::InvalidBytecode { .. }));
}

#[test]
fn bytecode_decodes_compiler_output() {
    compile_and_decode("1 + 2");
}

#[test]
fn tests_decodes_compiler_output() {
    let (chunk, diagnostics) =
        mirascript_core::Compiler::compile("1 + 2", &mirascript_core::CompileConfig::new());
    assert!(diagnostics.is_empty());
    decode(&chunk.unwrap()).unwrap();
}

#[test]
fn integer_literal_array_ranges_use_constant_endpoints() {
    let program =
        compile_and_decode("[1.0..2e0, -1.0..<2, 1_000..0x3E9, +1..+2, -2147483648..2147483647]");
    let Some(InstructionKind::Array { elements, .. }) = program
        .root
        .body
        .iter()
        .map(|instruction| &instruction.kind)
        .find(|instruction| matches!(instruction, InstructionKind::Array { .. }))
    else {
        panic!("expected array instruction");
    };

    let ranges: Vec<_> = elements
        .iter()
        .map(|element| match element {
            ArrayElement::Range {
                start: RangeEndpoint::Constant(start),
                end: RangeEndpoint::Constant(end),
                exclusive,
            } => (*start, *end, *exclusive),
            _ => panic!("expected constant array range"),
        })
        .collect();
    assert_eq!(
        ranges,
        [
            (1, 2, false),
            (-1, 1, false),
            (1_000, 1_001, false),
            (1, 2, false),
            (-2_147_483_648, 2_147_483_647, false),
        ]
    );
}

#[test]
fn non_integer_literal_array_ranges_keep_dynamic_endpoints() {
    let program = compile_and_decode("[1.1..<2, 1..2e-1, 1 + 0..2, 1..1 + 1, 0..<-2147483648]");
    let Some(InstructionKind::Array { elements, .. }) = program
        .root
        .body
        .iter()
        .map(|instruction| &instruction.kind)
        .find(|instruction| matches!(instruction, InstructionKind::Array { .. }))
    else {
        panic!("expected array instruction");
    };

    assert!(elements.iter().all(|element| matches!(
        element,
        ArrayElement::Range {
            start: RangeEndpoint::Dynamic(_),
            end: RangeEndpoint::Dynamic(_),
            ..
        }
    )));
}

fn every_constant_encoding() -> Vec<u8> {
    let mut constants = vec![0, 1, 2, 3];
    constants.extend_from_slice(&(-7_i32).to_le_bytes());
    constants.push(4);
    constants.extend_from_slice(&1.25_f64.to_le_bytes());
    constants.push(5);
    constants.extend_from_slice(&1_u32.to_le_bytes());
    constants.push(b'x');
    constants
}

#[test]
fn bytecode_decodes_every_constant_encoding() {
    let program = decode(&chunk(&root(&[], 0), &every_constant_encoding())).unwrap();
    assert_eq!(
        program.constants,
        vec![
            Constant::Nil,
            Constant::True,
            Constant::False,
            Constant::Int(-7),
            Constant::Float(1.25_f64.to_bits()),
            Constant::String("x".into()),
        ],
    );
}

#[test]
fn tests_decodes_every_constant_encoding() {
    let program = decode(&chunk(&root(&[], 0), &every_constant_encoding())).unwrap();
    assert_eq!(
        program.constants.as_slice(),
        &[
            Constant::Nil,
            Constant::True,
            Constant::False,
            Constant::Int(-7),
            Constant::Float(1.25_f64.to_bits()),
            Constant::String("x".into()),
        ],
    );
}

fn wide_code() -> Vec<u8> {
    let wide = OpCode::WIDE_MASK;
    let mut code = vec![OpCode::Func as u8 | wide];
    code.extend_from_slice(&0_u32.to_le_bytes());
    code.extend_from_slice(&0_u32.to_le_bytes());
    code.extend_from_slice(&300_u32.to_le_bytes());
    code.push(OpCode::Constant as u8 | wide);
    code.extend_from_slice(&300_u32.to_le_bytes());
    code.extend_from_slice(&0_u32.to_le_bytes());
    code.push(OpCode::Return as u8 | wide);
    code.extend_from_slice(&300_u32.to_le_bytes());
    code.push(OpCode::FuncEnd as u8);
    code
}

#[test]
fn bytecode_decodes_wide_registers_and_constants() {
    let program = decode(&chunk(&wide_code(), &[0])).unwrap();
    assert_eq!(program.root.register_count, 300);
}

#[test]
fn tests_decodes_wide_registers_and_constants() {
    let program = decode(&chunk(&wide_code(), &[0])).unwrap();
    assert_eq!(program.root.register_count, 300);
}

#[test]
fn bytecode_rejects_malformed_constants() {
    for constants in [vec![99], vec![4, 0], vec![5, 1, 0, 0, 0, 0xff]] {
        assert!(matches!(
            decode(&chunk(&root(&[], 0), &constants)).map_err(|error| *error),
            Err(MiraError::InvalidBytecode { .. })
        ));
    }
}

#[test]
fn tests_rejects_malformed_constants() {
    for constants in [vec![99], vec![4, 0], vec![5, 1, 0, 0, 0, 0xff]] {
        assert!(matches!(
            decode(&chunk(&root(&[], 0), &constants))
                .unwrap_err()
                .as_ref(),
            MiraError::InvalidBytecode { .. }
        ));
    }
}

fn malformed_instructions() -> [Vec<u8>; 4] {
    [
        root(&[0x7f], 0),
        root(&[OpCode::Constant as u8 | OpCode::WIDE_MASK, 0], 1),
        root(&[OpCode::Constant as u8, 1, 0], 1),
        root(&[OpCode::Uninit as u8, 1], 0),
    ]
}

#[test]
fn bytecode_rejects_unknown_truncated_and_out_of_range_instructions() {
    for code in malformed_instructions() {
        assert!(matches!(
            decode(&chunk(&code, &[])).map_err(|error| *error),
            Err(MiraError::InvalidBytecode { .. })
        ));
    }
}

#[test]
fn tests_rejects_unknown_truncated_and_out_of_range_instructions() {
    for code in malformed_instructions() {
        assert!(matches!(
            decode(&chunk(&code, &[])).unwrap_err().as_ref(),
            MiraError::InvalidBytecode { .. }
        ));
    }
}

fn illegal_nesting() -> [Vec<u8>; 2] {
    [
        root(&[OpCode::IfEnd as u8], 0),
        vec![
            OpCode::Func as u8,
            0,
            0,
            0,
            OpCode::FuncEnd as u8 | OpCode::WIDE_MASK,
        ],
    ]
}

#[test]
fn bytecode_rejects_illegal_nesting_and_wide_terminators() {
    for code in illegal_nesting() {
        assert!(matches!(
            decode(&chunk(&code, &[])).map_err(|error| *error),
            Err(MiraError::InvalidBytecode { .. })
        ));
    }
}

#[test]
fn tests_rejects_illegal_nesting_and_wide_terminators() {
    for code in illegal_nesting() {
        assert!(matches!(
            decode(&chunk(&code, &[])).unwrap_err().as_ref(),
            MiraError::InvalidBytecode { .. }
        ));
    }
}

#[test]
fn bytecode_loop_frame_reuse_excludes_captured_environments() {
    let scalar = compile_and_decode("let mut total = 0; for value in 1..10 { total += value; } total");
    assert_eq!(first_loop(&scalar.root.body), Some(true));

    let captured =
        compile_and_decode("let mut first = nil; for value in 1..2 { first = fn { value }; } first()");
    assert_eq!(first_loop(&captured.root.body), Some(false));
}

#[test]
fn tests_loop_frame_reuse_excludes_captured_environments() {
    let scalar = compile_and_decode("let mut total = 0; for value in 1..10 { total += value; } total");
    assert_eq!(first_loop(&scalar.root.body), Some(true));

    let captured =
        compile_and_decode("let mut first = nil; for value in 1..2 { first = fn { value }; } first()");
    assert_eq!(first_loop(&captured.root.body), Some(false));
}

#[test]
fn static_calls_with_small_fixed_arity_are_quickened() {
    let program = compile_and_decode("f(); f(1); f(1, 2); f(1, 2, 3); f(1, 2, 3, 4); nil");
    let arities: Vec<_> = program
        .root
        .body
        .iter()
        .filter_map(|instruction| match &instruction.kind {
            InstructionKind::Op(Operation::CallGlobal0 { .. }) => Some(0),
            InstructionKind::Op(Operation::CallGlobal1 { .. }) => Some(1),
            InstructionKind::Op(Operation::CallGlobal2 { .. }) => Some(2),
            InstructionKind::Op(Operation::CallGlobal3 { .. }) => Some(3),
            InstructionKind::Op(Operation::CallGlobal4 { .. }) => Some(4),
            _ => None,
        })
        .collect();
    assert_eq!(arities, [0, 1, 2, 3, 4]);
}

#[test]
fn arithmetic_uses_specialized_numeric_operations() {
    let program = compile_and_decode(
        "[left + right, left - right, left * right, left / right, left % right, left ^ right]",
    );
    let operations: Vec<_> = program
        .root
        .body
        .iter()
        .filter_map(|instruction| match &instruction.kind {
            InstructionKind::Op(Operation::Add { .. }) => Some("add"),
            InstructionKind::Op(Operation::Sub { .. }) => Some("sub"),
            InstructionKind::Op(Operation::Mul { .. }) => Some("mul"),
            InstructionKind::Op(Operation::Div { .. }) => Some("div"),
            InstructionKind::Op(Operation::Mod { .. }) => Some("mod"),
            InstructionKind::Op(Operation::Pow { .. }) => Some("pow"),
            _ => None,
        })
        .collect();
    assert_eq!(operations, ["add", "sub", "mul", "div", "mod", "pow"]);
}

#[test]
fn static_calls_borrow_adjacent_global_arguments() {
    let program = compile_and_decode("function(argument)");
    assert!(program.root.body.iter().any(|instruction| matches!(
        instruction.kind,
        InstructionKind::Op(Operation::CallGlobal1FromGlobal { .. })
    )));
}

#[test]
fn opcode_numbers_agree_with_the_compiler() {
    for code in 0u8..=255 {
        let ours = mirascript_vm::opcode::OpCode::from_code(code);
        let theirs = OpCode::try_from(code).ok();
        assert_eq!(ours.is_some(), theirs.is_some(), "byte {code}");
        if let (Some(ours), Some(theirs)) = (ours, theirs) {
            assert_eq!(ours.code(), theirs as u8);
            assert_eq!(format!("{ours:?}").replace("SetKey", "Set"), format!("{theirs:?}"));
        }
    }
    assert_eq!(mirascript_vm::opcode::WIDE_MASK, OpCode::WIDE_MASK);
}

#[test]
fn header_errors_report_their_offsets() {
    assert_eq!(failure(decode(&[0; 11])), (11, InvalidBytecodeReason::BadChunkHeader));
    let mut wrong_length = chunk(&root(&[], 0), &[]);
    wrong_length[0] = 0;
    let expected = wrong_length.len() - 4;
    assert_eq!(
        failure(decode(&wrong_length)),
        (0, InvalidBytecodeReason::ChunkLengthMismatch(0, expected))
    );
    let mut long_code = chunk(&root(&[], 0), &[]);
    long_code[4] = 200;
    assert_eq!(
        failure(decode(&long_code)),
        (4, InvalidBytecodeReason::CodeSectionExceedsChunk)
    );
}

#[test]
fn constant_errors_report_chunk_offsets() {
    let code = root(&[], 0);
    let start = 12 + code.len();
    assert_eq!(
        failure(decode(&chunk(&code, &[99]))),
        (start, InvalidBytecodeReason::UnknownConstantTag(99))
    );
    assert_eq!(
        failure(decode(&chunk(&code, &[4, 0]))),
        (start + 1, InvalidBytecodeReason::TruncatedConstant)
    );
    assert_eq!(
        failure(decode(&chunk(&code, &[5, 2, 0, 0, 0, b'a', 0xff]))),
        (start + 6, InvalidBytecodeReason::InvalidStringConstant)
    );
}

#[test]
fn instruction_errors_name_their_reason() {
    assert_eq!(
        failure(decode(&chunk(&[], &[]))),
        (0, InvalidBytecodeReason::TruncatedOpCode)
    );
    assert_eq!(
        failure(decode(&chunk(&[OpCode::Noop as u8], &[]))),
        (0, InvalidBytecodeReason::BadRootStart)
    );
    assert_eq!(
        failure(decode(&chunk(&[OpCode::Func as u8, 1, 0, 0, OpCode::FuncEnd as u8], &[]))),
        (0, InvalidBytecodeReason::BadRootDestination)
    );
    assert_eq!(
        failure(decode(&chunk(&[OpCode::Func as u8, 0, 2, 1, OpCode::FuncEnd as u8], &[]))),
        (0, InvalidBytecodeReason::FunctionArgCountMismatch(2, 1))
    );
    let mut trailing = root(&[], 0);
    trailing.push(OpCode::Noop as u8);
    assert_eq!(
        failure(decode(&chunk(&trailing, &[]))),
        (5, InvalidBytecodeReason::BadRootEnd)
    );
    assert_eq!(
        failure(decode(&chunk(&[OpCode::Func as u8, 0, 0, 0], &[]))),
        (4, InvalidBytecodeReason::UnterminatedBlock)
    );
    assert_eq!(
        failure(decode(&chunk(&root(&[OpCode::Uninit as u8, 1], 0), &[]))),
        (4, InvalidBytecodeReason::RegisterIndexOutOfRange(1, 0))
    );
    assert_eq!(
        failure(decode(&chunk(&root(&[OpCode::Constant as u8, 1, 0], 1), &[]))),
        (4, InvalidBytecodeReason::ConstantIndexOutOfRange(0, 0))
    );
    assert_eq!(
        failure(decode(&chunk(&root(&[OpCode::Break as u8], 0), &[]))),
        (4, InvalidBytecodeReason::UnexpectedOpCode(mirascript_vm::opcode::OpCode::Break))
    );
    assert_eq!(
        failure(decode(&chunk(&root(&[OpCode::GetUpvalue as u8, 0, 1, 0], 0), &[]))),
        (4, InvalidBytecodeReason::InvalidUpvalueLevel(1))
    );
    assert_eq!(
        failure(decode(&chunk(&root(&[OpCode::Format as u8, 0, 0, 0], 0), &[1]))),
        (4, InvalidBytecodeReason::InvalidConstantType)
    );
    assert_eq!(
        failure(decode(&chunk(
            &root(&[OpCode::CallDyn as u8, 0, 0, 1, 0, 1, 1], 0),
            &[]
        ))),
        (4, InvalidBytecodeReason::SpreadArgumentIndexOutOfRange(1, 1))
    );
    assert_eq!(
        failure(decode(&chunk(
            &root(&[OpCode::Module as u8, 0, 0, OpCode::Field as u8, 0, 0, OpCode::Field as u8, 0, 0, OpCode::Freeze as u8], 0),
            &[5, 1, 0, 0, 0, b'm']
        ))),
        (10, InvalidBytecodeReason::DuplicateExportKey("m".into()))
    );
    assert_eq!(
        failure(decode(&chunk(&root(&[OpCode::Record as u8, 0, OpCode::Freeze as u8 | OpCode::WIDE_MASK], 0), &[]))),
        (6, InvalidBytecodeReason::UnsupportedWide)
    );
    assert_eq!(
        failure(decode(&chunk(&[OpCode::Func as u8, 0, 0, 1, OpCode::Constant as u8, 0], &[]))),
        (4, InvalidBytecodeReason::TruncatedParameter(6))
    );
}

#[test]
fn global_slots_are_shared_by_name_and_hinted_by_the_standard_library() {
    let mut std = Globals::new();
    std.insert_std("print".into(), mirascript_vm::value::MiraValue::nil());
    let constants = [5, 5, 0, 0, 0, b'p', b'r', b'i', b'n', b't', 5, 1, 0, 0, 0, b'x', 5, 5, 0, 0, 0, b'p', b'r', b'i', b'n', b't'];
    let body = [
        OpCode::GetGlobal as u8, 1, 0,
        OpCode::GetGlobal as u8, 1, 1,
        OpCode::GetGlobal as u8, 1, 2,
    ];
    let program = Program::decode(&chunk(&root(&body, 1), &constants), &std, &render).unwrap();
    assert_eq!(
        program.global_names,
        vec![("print".to_string(), Some(0)), ("x".to_string(), None)]
    );
    let slots: Vec<_> = program
        .root
        .body
        .iter()
        .map(|instruction| match &instruction.kind {
            InstructionKind::Op(Operation::GetGlobal { slot, .. }) => *slot,
            _ => panic!("expected a global read"),
        })
        .collect();
    assert_eq!(slots, [0, 1, 0]);
}

#[test]
fn calls_with_spreads_or_many_arguments_stay_general() {
    let call = OpCode::Call as u8;
    let body = [call, 0, 0, 5, 0, 0, 0, 0, 0, 0, call, 0, 0, 1, 0, 1, 0];
    let program = decode(&chunk(&root(&body, 0), &[5, 1, 0, 0, 0, b'f'])).unwrap();
    let general: Vec<_> = program
        .root
        .body
        .iter()
        .map(|instruction| match &instruction.kind {
            InstructionKind::Op(Operation::Call { target: CallTarget::Global(slot), arguments, spreads, .. }) => {
                (*slot, arguments.len(), spreads.len())
            }
            _ => panic!("expected a general call"),
        })
        .collect();
    assert_eq!(general, [(0, 5, 0), (0, 1, 1)]);
}
