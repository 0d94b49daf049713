# brisc8

A verified toolchain for BRISC8, a small 8-bit RISC architecture with four
registers (register 3 is the program counter) and 256 bytes of memory.

- `src/isa.rs` — how a byte decodes into an instruction.
- `src/brisc8core.rs` — the processor core and the `Peripheral` trait for
  devices on its I/O bus.
- `src/text.rs` — character-level helpers shared by the lexers: trimming,
  integer parsing, UTF-8 encoding, string literals, comments.
- `src/lexer.rs` — the assembly lexer used by the assembler.
- `src/tokenizer.rs` — a second lexer, with 16-bit immediates and string tokens.
- `src/generator.rs` — the assembler, with label references patched after
  the whole program has been read.
- `src/bf_compiler.rs` — a Brainfuck compiler that emits BRISC8 assembly.
- `src/laws.rs` — properties that tie the assembler to the processor.
- `src/toolchain.rs` — how the tools compose: a compiled Brainfuck program
  lexes and assembles to an image of a known size, and each command
  assembles to known bytes.
- `src/bf_semantics.rs` — what those bytes do on the core: the cell
  commands, input and output, and the loop test.
- `app/main.rs` — the command line: `asm`, `bfc` and `vm` subcommands, the
  console and system peripherals, and all file I/O.

Every function in `src/` carries a contract checked by Verus. Two small
calls into std are trusted: collecting characters into a `String`, and
`str::to_uppercase`, whose Unicode mapping is named rather than specified.
