# mirascript-vm

The core of the MiraScript virtual machine, written in Verus.

`src/` is the verified library:

- `opcode` – the instruction set and how opcodes and their parameters are
  encoded.
- `constants`, `number`, `number_syntax` – the constant section of a chunk,
  the text of number constants and the syntax of numeric literals.
- `model`, `validity`, `encoding`, `decoder` – the decoded program, what
  makes it structurally valid, when code is well formed, and the decoder that
  turns a bytecode chunk into a program proved valid for its code, succeeding
  exactly on well-formed code.
- `tables`, `globals` – name tables kept in insertion order, and the global
  scope with its standard-library layer.
- `value`, `register`, `frame`, `call_stack`, `execution`, `operations` – the
  pieces of run-time state: values, registers, frames, the call stack and
  entering a call, execution ids, time checks and simple value operations.
- `script`, `error` – compiling source text into a script, and the error type
  with its diagnostics.
- `runtime` – running decoded programs on scalar values (nil, booleans,
  numbers): operations, comparisons, reads of scalar globals,
  conditionals, and infinite and numeric-range loops whose bodies reach
  enclosing variables through upvalues. Floating-point arithmetic is handed
  in by the caller, and loop iterations are bounded by a budget. What a run
  gives is stated by a step-by-step semantics over the frames (`op_step`,
  `block_run`, `instruction_run`, `loop_run`); `eval` compiles source text
  and runs it. A run that reaches an instruction needing strings, records,
  arrays, functions, modules or calls stops there without a result: the
  value arena and standard library those need are not part of this crate.

`app/` holds what stays outside verification: rendering of floating-point
numbers, the clock used by time limits, process-wide script ids and the
error types with their messages, and the platform's floating point handed
to the runtime.
