//! Errors produced while compiling, decoding and executing MiraScript.
use vstd::prelude::*;

use crate::opcode::OpCode;
use crate::value::MiraType;

verus! {

/// The error type of `anyhow`, carried by host-callback failures.
#[verifier::external_type_specification]
#[verifier::external_body]
pub struct ExAnyhowError(anyhow::Error);

/// The error type of `serde_json`, carried by JSON failures.
#[verifier::external_type_specification]
#[verifier::external_body]
pub struct ExJsonError(serde_json::Error);

/// Result type returned by the MiraScript VM.
pub type Result<T> = core::result::Result<T, Box<MiraError>>;

/// One compiler diagnostic, decoded from the compiler's flat encoding.
#[derive(Debug, Clone, PartialEq, Eq, Structural)]
pub struct Diagnostics {
    /// The diagnostic code (`mirascript-core`'s `DiagnosticCode` number).
    pub code: u16,
    /// The starting line (1-based).
    pub start_line: u32,
    /// The starting column (1-based).
    pub start_col: u32,
    /// The ending line (1-based).
    pub end_line: u32,
    /// The ending column (1-based).
    pub end_col: u32,
}

/// Why a bytecode chunk failed structural validation.
#[derive(Debug, Clone, PartialEq)]
pub enum InvalidBytecodeReason {
    /// The chunk header is truncated.
    BadChunkHeader,
    /// The chunk length header does not match the actual chunk length.
    ChunkLengthMismatch(usize, usize),
    /// The code section exceeds the chunk length.
    CodeSectionExceedsChunk,
    /// The constant section exceeds the chunk length.
    ConstantSectionExceedsChunk,
    /// The constant section is truncated.
    TruncatedConstant,
    /// The constant section contains an invalid UTF-8 string.
    InvalidStringConstant,
    /// The constant section contains an unknown constant tag.
    UnknownConstantTag(u8),
    /// The root instruction must be a `Func` instruction.
    BadRootStart,
    /// Code follows the root `FuncEnd` instruction.
    BadRootEnd,
    /// The root function destination must be register 0.
    BadRootDestination,
    /// Unknown opcode.
    InvalidOpCode(u8),
    /// The code ends while reading an opcode.
    TruncatedOpCode,
    /// The code ends while reading an instruction parameter at this code offset.
    TruncatedParameter(usize),
    /// A register index (first) exceeds the register count in scope (second).
    RegisterIndexOutOfRange(usize, usize),
    /// A constant index (first) is not below the number of constants (second).
    ConstantIndexOutOfRange(usize, usize),
    /// A constant of the wrong kind is referenced.
    InvalidConstantType,
    /// A function declares more arguments (first) than registers (second).
    FunctionArgCountMismatch(usize, usize),
    /// A block is not terminated before the code ends.
    UnterminatedBlock,
    /// A terminator or `Freeze` uses the wide encoding.
    UnsupportedWide,
    /// An opcode appears where it is not allowed.
    UnexpectedOpCode(OpCode),
    /// A module exports the same key twice.
    DuplicateExportKey(String),
    /// An upvalue level is zero or exceeds the enclosing scopes.
    InvalidUpvalueLevel(usize),
    /// A spread index (first) is not below the argument count (second).
    SpreadArgumentIndexOutOfRange(usize, usize),
}

/// A VM or standard-library execution failure.
#[derive(Debug)]
#[non_exhaustive]
pub enum RuntimeErrorKind {
    /// A register was read before initialization.
    UninitializedValue,
    /// A non-nil value was required.
    ExpectedNonNil,
    /// A global variable is not defined.
    UndefinedGlobal {
        /// Missing name.
        name: String,
    },
    /// An argument is required.
    MissingArgument {
        /// Argument name.
        name: &'static str,
    },
    /// A value has the wrong type for an operation.
    TypeMismatch {
        /// Human-readable expected type set.
        expected: &'static str,
        /// Actual value category.
        actual: MiraType,
    },
    /// A value is not callable.
    NotCallable {
        /// Actual value category.
        actual: MiraType,
    },
    /// An index or field does not exist.
    MissingIndexOrField,
    /// An array allocation would exceed the configured limit.
    ArrayLimit {
        /// Requested length.
        requested: usize,
        /// Configured maximum.
        max: usize,
    },
    /// An arena handle belongs to another runtime.
    ForeignHandle,
    /// An arena handle is invalid for its value category.
    InvalidHandle {
        /// Arena category.
        category: &'static str,
    },
    /// The value behind a typed handle has a different concrete Rust type.
    HandleTypeMismatch {
        /// Arena category.
        category: &'static str,
    },
    /// One arena category exhausted its 32-bit slot space.
    ArenaExhausted {
        /// Arena category.
        category: &'static str,
    },
    /// Runtime execution was entered recursively.
    ReentrantRun,
    /// Internal bytecode control flow reached an invalid boundary.
    InvalidControlFlow {
        /// Boundary being exited.
        context: &'static str,
    },
    /// An upvalue level is invalid for the current frame.
    InvalidUpvalueLevel {
        /// Requested lexical level.
        level: usize,
    },
    /// Execution exceeded its time limit.
    Timeout,
    /// Execution exceeded its call-depth limit.
    MaxCallDepth {
        /// Configured maximum call depth.
        max: u32,
    },
    /// A script closure or script module attempted to escape a run.
    EscapingClosure,
    /// A script-scoped callable was used after its run ended.
    ExecutionEnded,
    /// Bytecode referenced a constant with an incompatible kind.
    InvalidConstantKind {
        /// Constant-table index.
        index: usize,
        /// Required constant kind.
        expected: &'static str,
    },
    /// Matrix dimensions are invalid or exceed the configured limit.
    InvalidMatrixSize,
    /// A matrix operation requires a square matrix.
    MatrixMustBeSquare,
    /// Matrix operands have incompatible dimensions.
    IncompatibleMatrixDimensions,
    /// An integer-valued argument failed its domain constraint.
    InvalidIntegerArgument {
        /// Argument name.
        name: &'static str,
        /// Required integer constraint.
        constraint: &'static str,
    },
    /// The number of update entries is not valid.
    InvalidUpdateEntryCount {
        /// Actual number of entries.
        actual: usize,
    },
    /// A datetime string could not be parsed.
    InvalidDateTime,
    /// A value cannot be interpreted as a timestamp.
    InvalidTimestamp {
        /// Actual value category.
        actual: MiraType,
    },
    /// A timezone offset is outside the supported range.
    TimeOffsetOutOfRange,
    /// JSON serialization failed.
    JsonSerialization {
        /// Serializer error.
        source: serde_json::Error,
    },
    /// JSON input is invalid.
    InvalidJson {
        /// Parser error.
        source: serde_json::Error,
    },
    /// A script assertion or panic supplied a message.
    UserMessage {
        /// Script-provided message.
        message: String,
    },
}

/// One segment in a failed Rust value conversion path.
#[derive(Debug, Clone, PartialEq, Eq, Hash)]
pub enum ConversionPathSegment {
    /// A record field.
    Field(String),
    /// An array index.
    Index(usize),
}

/// The reason a MiraScript value could not be converted to a Rust type.
#[derive(Debug)]
pub enum ConversionReason {
    /// The MiraScript value has the wrong category.
    Type {
        /// Requested Rust type.
        expected: &'static str,
        /// Actual MiraScript type.
        actual: MiraType,
    },
    /// A number cannot be represented by the requested Rust type.
    Number {
        /// Requested Rust type.
        expected: &'static str,
        /// IEEE-754 bit pattern of the number that failed validation.
        value_bits: u64,
    },
}

/// Runtime source location and call stack attached to an execution error.
#[derive(Debug, Clone)]
pub struct RuntimeTrace {
    /// Function active at the failure site, when known.
    pub function: Option<String>,
    /// Bytecode offset of the failure site, when known.
    pub offset: Option<usize>,
    /// Active callers ordered from root to leaf.
    pub stack: Vec<String>,
}

impl RuntimeTrace {
    /// The empty trace: no function, no offset, no callers.
    pub fn new() -> (r: Self)
        ensures
            r.function is None,
            r.offset is None,
            r.stack@.len() == 0,
    {
        RuntimeTrace { function: None, offset: None, stack: Vec::new() }
    }
}

/// An error produced while compiling, decoding, executing, or bridging values.
#[derive(Debug)]
#[non_exhaustive]
pub enum MiraError {
    /// The compiled bytecode chunk failed structural validation.
    InvalidBytecode {
        /// Byte offset at which validation failed.
        offset: usize,
        /// Structural validation failure.
        reason: InvalidBytecodeReason,
    },
    /// Source compilation failed.
    Compile {
        /// Compiler diagnostics.
        diagnostics: Vec<Diagnostics>,
    },
    /// Script execution failed.
    Runtime {
        /// Structured runtime failure.
        kind: RuntimeErrorKind,
        /// Execution location and stack.
        trace: RuntimeTrace,
    },
    /// A MiraScript value could not be converted to a Rust type.
    Conversion {
        /// Structured conversion failure.
        reason: ConversionReason,
        /// Nested field and index path, outermost first.
        path: Vec<ConversionPathSegment>,
    },
    /// A host callback returned an arbitrary error.
    External(anyhow::Error),
}


/// The diagnostic code that `mirascript-core` reports for a raw code number.
pub uninterp spec fn diagnostic_code(raw: u16) -> u16;

/// Calls `mirascript_core::DiagnosticCode::from_code` and returns the number of
/// the code it gives, or of `DiagnosticCode::Unknown` (65535) when it gives
/// none. That crate answers `None` for numbers that name no code and for
/// 65535 itself, so the result is the raw number or 65535; which numbers
/// name a code is left to the name `diagnostic_code`.
#[verifier::external_body]
fn known_diagnostic_code(raw: u16) -> (r: u16)
    ensures
        r == diagnostic_code(raw),
        r == raw || r == 65535,
{
    mirascript_core::DiagnosticCode::from_code(raw).unwrap_or(mirascript_core::DiagnosticCode::Unknown).code()
}

/// The diagnostic described by the `index`-th group of five numbers.
pub open spec fn spec_diagnostic(encoded: Seq<u32>, index: int) -> Diagnostics {
    Diagnostics {
        code: diagnostic_code(encoded[5 * index + 4] as u16),
        start_line: encoded[5 * index],
        start_col: encoded[5 * index + 1],
        end_line: encoded[5 * index + 2],
        end_col: encoded[5 * index + 3],
    }
}

/// Decode the compiler's diagnostics: groups of five numbers holding the
/// start line, start column, end line, end column and code.
pub fn decode_diagnostics(encoded: &[u32]) -> (r: Vec<Diagnostics>)
    requires
        encoded@.len() % 5 == 0,
    ensures
        r@.len() == encoded@.len() / 5,
        forall|i: int| 0 <= i < r@.len() ==> #[trigger] r@[i] == spec_diagnostic(encoded@, i),
{
    let mut result: Vec<Diagnostics> = Vec::new();
    let mut index: usize = 0;
    let count = encoded.len() / 5;
    while index < count
        invariant
            count == encoded@.len() / 5,
            encoded@.len() <= usize::MAX,
            encoded@.len() % 5 == 0,
            index <= count,
            result@.len() == index,
            forall|i: int| 0 <= i < index ==> #[trigger] result@[i] == spec_diagnostic(encoded@, i),
        decreases count - index,
    {
        proof {
            vstd::arithmetic::div_mod::lemma_fundamental_div_mod(encoded@.len() as int, 5);
            assert(index * 5 + 5 <= encoded@.len()) by (nonlinear_arith)
                requires
                    index < count,
                    encoded@.len() == 5 * count + 0,
            ;
        }
        let base = index * 5;
        let code = known_diagnostic_code(#[verifier::truncate] (encoded[base + 4] as u16));
        result.push(Diagnostics {
            code,
            start_line: encoded[base],
            start_col: encoded[base + 1],
            end_line: encoded[base + 2],
            end_col: encoded[base + 3],
        });
        index = index + 1;
    }
    result
}

impl MiraError {
    /// A runtime failure with an empty trace.
    pub fn runtime(kind: RuntimeErrorKind) -> (r: Box<Self>)
        ensures
            r.is_runtime_with(kind),
    {
        Box::new(MiraError::Runtime { kind, trace: RuntimeTrace::new() })
    }

    /// Whether this is a runtime failure of the given kind with an empty trace.
    pub open spec fn is_runtime_with(&self, expected: RuntimeErrorKind) -> bool {
        match self {
            MiraError::Runtime { kind, trace } => {
                &&& *kind == expected
                &&& trace.function is None
                &&& trace.offset is None
                &&& trace.stack@.len() == 0
            },
            _ => false,
        }
    }

    /// A structural validation failure at a byte offset.
    pub fn invalid_bytecode(offset: usize, reason: InvalidBytecodeReason) -> (r: Box<Self>)
        ensures
            *r == (MiraError::InvalidBytecode { offset, reason }),
    {
        Box::new(MiraError::InvalidBytecode { offset, reason })
    }

    /// A compilation failure carrying the decoded compiler diagnostics.
    pub fn compile(encoded: &[u32]) -> (r: Box<Self>)
        requires
            encoded@.len() % 5 == 0,
        ensures
            match *r {
                MiraError::Compile { diagnostics } => {
                    &&& diagnostics@.len() == encoded@.len() / 5
                    &&& forall|i: int|
                        0 <= i < diagnostics@.len() ==> #[trigger] diagnostics@[i] == spec_diagnostic(
                            encoded@,
                            i,
                        )
                },
                _ => false,
            },
    {
        Box::new(MiraError::Compile { diagnostics: decode_diagnostics(encoded) })
    }

    /// A conversion failure because the value has the wrong category.
    pub fn conversion_type(expected: &'static str, actual: MiraType) -> (r: Box<Self>)
        ensures
            match *r {
                MiraError::Conversion { reason, path } => {
                    &&& reason == (ConversionReason::Type { expected, actual })
                    &&& path@.len() == 0
                },
                _ => false,
            },
    {
        Box::new(MiraError::Conversion { reason: ConversionReason::Type { expected, actual }, path: Vec::new() })
    }

    /// A conversion failure because a number does not fit the Rust type.
    pub fn conversion_number(expected: &'static str, value_bits: u64) -> (r: Box<Self>)
        ensures
            match *r {
                MiraError::Conversion { reason, path } => {
                    &&& reason == (ConversionReason::Number { expected, value_bits })
                    &&& path@.len() == 0
                },
                _ => false,
            },
    {
        Box::new(MiraError::Conversion { reason: ConversionReason::Number { expected, value_bits }, path: Vec::new() })
    }

    /// Attach a record field to the front of a conversion path; any other
    /// error is returned unchanged.
    pub fn at_field(self: Box<Self>, field: String) -> (r: Box<Self>)
        ensures
            match *self {
                MiraError::Conversion { reason, path } => match *r {
                    MiraError::Conversion { reason: reason2, path: path2 } => {
                        &&& reason2 == reason
                        &&& path2@ == seq![ConversionPathSegment::Field(field)] + path@
                    },
                    _ => false,
                },
                _ => r == self,
            },
    {
        match *self {
            MiraError::Conversion { reason, mut path } => {
                path.insert(0, ConversionPathSegment::Field(field));
                Box::new(MiraError::Conversion { reason, path })
            },
            other => Box::new(other),
        }
    }

    /// Attach an array index to the front of a conversion path; any other
    /// error is returned unchanged.
    pub fn at_index(self: Box<Self>, index: usize) -> (r: Box<Self>)
        ensures
            match *self {
                MiraError::Conversion { reason, path } => match *r {
                    MiraError::Conversion { reason: reason2, path: path2 } => {
                        &&& reason2 == reason
                        &&& path2@ == seq![ConversionPathSegment::Index(index)] + path@
                    },
                    _ => false,
                },
                _ => r == self,
            },
    {
        match *self {
            MiraError::Conversion { reason, mut path } => {
                path.insert(0, ConversionPathSegment::Index(index));
                Box::new(MiraError::Conversion { reason, path })
            },
            other => Box::new(other),
        }
    }

    /// Record where a runtime failure happened, unless a location was
    /// already recorded; other errors are returned unchanged.
    pub fn with_runtime_context(self, function: Option<String>, offset: usize, stack: Vec<String>) -> (r: Self)
        ensures
            match self {
                MiraError::Runtime { kind, trace } => if trace.offset is None {
                    match r {
                        MiraError::Runtime { kind: kind2, trace: trace2 } => {
                            &&& kind2 == kind
                            &&& trace2.function == function
                            &&& trace2.offset == Some(offset)
                            &&& trace2.stack == stack
                        },
                        _ => false,
                    }
                } else {
                    r == self
                },
                _ => r == self,
            },
    {
        match self {
            MiraError::Runtime { kind, trace } => {
                if trace.offset.is_none() {
                    MiraError::Runtime {
                        kind,
                        trace: RuntimeTrace { function, offset: Some(offset), stack },
                    }
                } else {
                    MiraError::Runtime { kind, trace }
                }
            },
            other => other,
        }
    }
}

} // verus!
