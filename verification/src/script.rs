//! Compiling source text into validated, shareable scripts.
use vstd::prelude::*;

use std::rc::Rc;

use mirascript_core::{CompileConfig, Compiler};
use mirascript_core::DiagnosticPositionEncoding as CoreEncoding;
use mirascript_core::InputMode as CoreInputMode;

use crate::decoder::decode_result_ok;
use crate::error::{MiraError, Result, spec_diagnostic};
use crate::globals::Globals;
use crate::model::Program;

verus! {

/// Stable identity shared by clones of one compiled script; never zero.
#[derive(Debug, Clone, Copy, PartialEq, Eq, Hash, Structural)]
pub struct ScriptId(u64);

impl ScriptId {
    #[verifier::type_invariant]
    spec fn nonzero(self) -> bool {
        self.0 != 0
    }

    /// The identity with a given number, unless the number is zero.
    pub fn new(raw: u64) -> (r: Option<Self>)
        ensures
            raw == 0 ==> r is None,
            raw != 0 ==> r is Some && r.unwrap().spec_get() == raw,
    {
        if raw == 0 {
            None
        } else {
            Some(ScriptId(raw))
        }
    }

    /// The number of this identity.
    pub closed spec fn spec_get(self) -> u64 {
        self.0
    }

    /// The number of this identity.
    #[verifier::when_used_as_spec(spec_get)]
    pub fn get(self) -> (r: u64)
        ensures
            r == self.spec_get(),
            r != 0,
    {
        proof {
            use_type_invariant(&self);
        }
        self.0
    }
}

/// How the compiler reads its input.
#[derive(Debug, Clone, Copy, PartialEq, Eq, Structural)]
pub enum InputMode {
    /// A full script of statements and declarations.
    Script,
    /// A single template string.
    Template,
}

/// How diagnostic positions count characters.
#[derive(Debug, Clone, Copy, PartialEq, Eq, Structural)]
pub enum DiagnosticPositionEncoding {
    /// Positions count UTF-8 bytes.
    Utf8,
    /// Positions count UTF-16 code units.
    Utf16,
    /// Positions count code points.
    Utf32,
}

/// The options of the compiler.
#[derive(Debug, Clone, Copy, PartialEq, Eq, Structural)]
pub struct CompileOptions {
    /// How the input is read.
    pub input_mode: InputMode,
    /// How diagnostic positions are counted.
    pub diagnostic_position_encoding: DiagnosticPositionEncoding,
    /// Report errors.
    pub diagnostic_error: bool,
    /// Report warnings.
    pub diagnostic_warning: bool,
    /// Report information.
    pub diagnostic_info: bool,
    /// Report hints.
    pub diagnostic_hint: bool,
    /// Report references.
    pub diagnostic_reference: bool,
    /// Report tags.
    pub diagnostic_tag: bool,
    /// Report source maps.
    pub diagnostic_sourcemap: bool,
}

impl CompileOptions {
    /// The compiler's default options: a script, UTF-8 positions, and every
    /// diagnostic but tags and source maps.
    pub open spec fn spec_default() -> Self {
        CompileOptions {
            input_mode: InputMode::Script,
            diagnostic_position_encoding: DiagnosticPositionEncoding::Utf8,
            diagnostic_error: true,
            diagnostic_warning: true,
            diagnostic_info: true,
            diagnostic_hint: true,
            diagnostic_reference: true,
            diagnostic_tag: false,
            diagnostic_sourcemap: false,
        }
    }

    /// The compiler's default options: a script, UTF-8 positions, and every
    /// diagnostic but tags and source maps.
    pub fn new() -> (r: Self)
        ensures
            r == Self::spec_default(),
    {
        CompileOptions {
            input_mode: InputMode::Script,
            diagnostic_position_encoding: DiagnosticPositionEncoding::Utf8,
            diagnostic_error: true,
            diagnostic_warning: true,
            diagnostic_info: true,
            diagnostic_hint: true,
            diagnostic_reference: true,
            diagnostic_tag: false,
            diagnostic_sourcemap: false,
        }
    }
}

/// What the compiler of `mirascript-core` gives for a source text and
/// options: the chunk, when it compiled, and the encoded diagnostics.
pub uninterp spec fn compiler_output(source: Seq<char>, options: CompileOptions) -> (
    Option<Seq<u8>>,
    Seq<u32>,
);

/// Runs `mirascript_core::Compiler::compile` on the source with the same
/// options. Its result is named `compiler_output`; the crate encodes each
/// diagnostic as five numbers, so their count is a multiple of five.
#[verifier::external_body]
fn compile_source(source: &str, options: &CompileOptions) -> (r: (Option<Vec<u8>>, Vec<u32>))
    ensures
        r.0 is None <==> compiler_output(source@, *options).0 is None,
        r.0 is Some ==> r.0.unwrap()@ == compiler_output(source@, *options).0.unwrap(),
        r.1@ == compiler_output(source@, *options).1,
        r.1@.len() % 5 == 0,
{
    let input_mode = match options.input_mode {
        InputMode::Script => CoreInputMode::Script,
        InputMode::Template => CoreInputMode::Template,
    };
    let encoding = match options.diagnostic_position_encoding {
        DiagnosticPositionEncoding::Utf8 => CoreEncoding::Utf8,
        DiagnosticPositionEncoding::Utf16 => CoreEncoding::Utf16,
        DiagnosticPositionEncoding::Utf32 => CoreEncoding::Utf32,
    };
    let config = CompileConfig { input_mode, diagnostic_position_encoding: encoding,
        diagnostic_error: options.diagnostic_error, diagnostic_warning: options.diagnostic_warning,
        diagnostic_info: options.diagnostic_info, diagnostic_hint: options.diagnostic_hint,
        diagnostic_reference: options.diagnostic_reference, diagnostic_tag: options.diagnostic_tag,
        diagnostic_sourcemap: options.diagnostic_sourcemap };
    Compiler::compile(source, &config)
}

/// Another handle to the same program (`Rc::clone`).
#[verifier::external_body]
fn share(program: &Rc<Program>) -> (r: Rc<Program>)
    ensures
        *r == **program,
{
    Rc::clone(program)
}

/// A validated, reusable program with its identity.
#[derive(Debug)]
pub struct MiraScript {
    id: ScriptId,
    program: Rc<Program>,
}

impl Clone for MiraScript {
    /// Another handle to the same script: the identity and the program are
    /// shared, so a runtime treats the two as one script.
    fn clone(&self) -> (r: Self)
        ensures
            r.spec_id() == self.spec_id(),
            r.spec_program() == self.spec_program(),
    {
        MiraScript { id: self.id, program: share(&self.program) }
    }
}

impl MiraScript {
    /// The identity of the script.
    pub closed spec fn spec_id(&self) -> ScriptId {
        self.id
    }

    /// The program of the script.
    pub closed spec fn spec_program(&self) -> Program {
        *self.program
    }

    /// A script of a program, with an identity.
    pub fn new(program: Program, id: ScriptId) -> (r: Self)
        ensures
            r.spec_id() == id,
            r.spec_program() == program,
    {
        MiraScript { id, program: Rc::new(program) }
    }

    /// The identity shared by clones of this script.
    pub fn id(&self) -> (r: ScriptId)
        ensures
            r == self.spec_id(),
    {
        self.id
    }

    /// The program of the script.
    pub fn program_ref(&self) -> (r: &Program)
        ensures
            *r == self.spec_program(),
    {
        &self.program
    }

    /// A shared handle to the program of the script.
    pub fn program(&self) -> (r: Rc<Program>)
        ensures
            *r == self.spec_program(),
    {
        share(&self.program)
    }
}

/// The program of a compiled script, or the error.
pub open spec fn script_program(r: Result<MiraScript>) -> Result<Program> {
    match r {
        Ok(script) => Ok(script.spec_program()),
        Err(e) => Err(e),
    }
}

/// What compiling gives: a compile error decoding the compiler's
/// diagnostics when it gives no chunk, and otherwise what decoding the
/// chunk gives, the script carrying identity `id`.
pub open spec fn compile_result_ok<F: Fn(u64, bool) -> String>(
    source: Seq<char>,
    options: CompileOptions,
    r: Result<MiraScript>,
    std: &Globals,
    render: F,
    id: ScriptId,
) -> bool {
    match compiler_output(source, options).0 {
        None => r matches Err(e) && match *e {
            MiraError::Compile { diagnostics } => {
                let encoded = compiler_output(source, options).1;
                &&& diagnostics@.len() == encoded.len() / 5
                &&& forall|i: int|
                    0 <= i < diagnostics@.len() ==> #[trigger] diagnostics@[i]
                        == spec_diagnostic(encoded, i)
            },
            _ => false,
        },
        Some(chunk) => {
            &&& decode_result_ok(chunk, script_program(r), std, render)
            &&& r matches Ok(script) ==> script.spec_id() == id
        },
    }
}

/// Compile source text into a script with identity `id`: the compiler's
/// diagnostics become a compile error when it gives no chunk, and the chunk
/// is decoded and validated as `Program::decode` does.
pub fn compile_with<F: Fn(u64, bool) -> String>(
    source: &str,
    options: &CompileOptions,
    std: &Globals,
    render: &F,
    id: ScriptId,
) -> (r: Result<MiraScript>)
    requires
        std.wf(),
        forall|b: u64, exponent: bool| render.requires((b, exponent)),
    ensures
        compile_result_ok(source@, *options, r, std, *render, id),
{
    let (chunk, diagnostics) = compile_source(source, options);
    match chunk {
        None => Err(MiraError::compile(diagnostics.as_slice())),
        Some(chunk) => match Program::decode(chunk.as_slice(), std, render) {
            Ok(program) => Ok(MiraScript::new(program, id)),
            Err(e) => Err(e),
        },
    }
}

/// Compile source text with the compiler's default options.
pub fn compile<F: Fn(u64, bool) -> String>(source: &str, std: &Globals, render: &F, id: ScriptId) -> (r: Result<MiraScript>)
    requires
        std.wf(),
        forall|b: u64, exponent: bool| render.requires((b, exponent)),
    ensures
        compile_result_ok(source@, CompileOptions::spec_default(), r, std, *render, id),
{
    compile_with(source, &CompileOptions::new(), std, render, id)
}

} // verus!
