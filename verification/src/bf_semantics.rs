//! What the code that the Brainfuck compiler writes does on the core, once
//! assembled and its labels resolved: the cell commands, input and output,
//! and the loops.
use vstd::prelude::*;
use crate::brisc8core::{
    CoreView, PC, after_instruction, current_opcode, fetched_registers, io_port, writes_peripheral,
};
use crate::generator::{imm_encoding, nibble_of, reg_encoding};
use crate::isa::{Instruction, decode};
use crate::laws::{
    jump_bytes, law_immediate_encoding_decodes, law_jump_transfers_control, law_lir_loads_byte, law_register_encoding_decodes, lir_bytes,
    run_steps,
};

verus! {

/// Running `a + b` instructions is running `a` and then `b`.
proof fn lemma_run_steps_add(v: CoreView, a: nat, b: nat, io: u8)
    ensures
        run_steps(v, a + b, io) == run_steps(run_steps(v, a, io), b, io),
    decreases a,
{
    if a > 0 {
        lemma_run_steps_add(after_instruction(v, io), (a - 1) as nat, b, io);
        assert((a - 1) as nat + b == (a + b - 1) as nat);
    }
}

proof fn lemma_one_step(v: CoreView, io: u8)
    ensures
        run_steps(v, 1, io) == after_instruction(v, io),
{
    assert(run_steps(after_instruction(v, io), 0, io) == after_instruction(v, io));
}

/// The address where the code for a loop keeps the cell pointer: the value
/// that `LIL %R2, #-1` leaves in `%R2`, since `LIL` keeps only the four low
/// bits of its immediate.
pub open spec fn save_address() -> u8 {
    15
}

/// The two bytes at a loop's start label: `LIL %R2, #-1` and `LOA %R1, %R2`,
/// which take the cell pointer back from `save_address()`.
pub open spec fn restart_bytes() -> Seq<u8> {
    seq![imm_encoding(0, 2, 255, false), reg_encoding(0b1100, 1, 2)]
}

/// The code for `[` once its end label `e` is resolved: a jump to `e`, then
/// (at the loop's start label) the restart bytes.
pub open spec fn open_bytes(e: u8) -> Seq<u8> {
    jump_bytes(2, e) + restart_bytes()
}

/// The code for `]` once its start label `t` is resolved: load the cell,
/// save the cell pointer, load `t` into `%R1`, test the cell against 1 and
/// jump to `t` unless it is below, test it against the value of `#-1` and
/// jump unless it is above, and take the cell pointer back.
pub open spec fn close_bytes(t: u8) -> Seq<u8> {
    seq![reg_encoding(0b1100, 0, 1), imm_encoding(0, 2, 255, false), reg_encoding(0b1101, 1, 2)]
        + lir_bytes(1, t) + seq![
        imm_encoding(0, 2, 1, false),
        reg_encoding(0b1110, 0, 2),
        reg_encoding(0b1111, 1, 3),
        imm_encoding(0, 2, 255, false),
        reg_encoding(0b1110, 2, 0),
        reg_encoding(0b1111, 1, 3),
    ] + restart_bytes()
}

/// `bytes` sit in the memory of `v` from address `at` on.
pub open spec fn holds(v: CoreView, at: int, bytes: Seq<u8>) -> bool {
    &&& 0 <= at
    &&& at + bytes.len() <= 255
    &&& forall|j: int| 0 <= j < bytes.len() ==> v.memory[at + j] == #[trigger] bytes[j]
}

/// `LIL` keeps the four low bits of the immediate the assembler writes.
proof fn lemma_small_immediates()
    ensures
        nibble_of(255u8, false) == 15u8,
        nibble_of(1u8, false) == 1u8,
        nibble_of(0u8, false) == 0u8,
{
    assert(nibble_of(255u8, false) == 15u8) by (bit_vector);
    assert(nibble_of(1u8, false) == 1u8) by (bit_vector);
    assert(nibble_of(0u8, false) == 0u8) by (bit_vector);
}

/// `n` bytes from `at` on leave out the address where the cell pointer is kept.
pub open spec fn clear_of_save(at: int, n: int) -> bool {
    save_address() < at || at + n <= save_address()
}

/// The restart bytes load `%R1` from `save_address()`.
proof fn lemma_restart(v: CoreView, io: u8)
    requires
        v.memory.len() == 256,
        v.registers.len() == 4,
        holds(v, v.registers[PC as int] as int, restart_bytes()),
    ensures
        run_steps(v, 2, io).registers.len() == 4,
        run_steps(v, 2, io).registers[1] == v.memory[save_address() as int],
        run_steps(v, 2, io).registers[0] == v.registers[0],
        run_steps(v, 2, io).registers[PC as int] == v.registers[PC as int] + 2,
        run_steps(v, 2, io).memory == v.memory,
{
    let p = v.registers[PC as int] as int;
    lemma_small_immediates();
    law_immediate_encoding_decodes(0, 2, 255, false);
    law_register_encoding_decodes(0b1100, 1, 2);
    assert(v.memory[p] == restart_bytes()[0]);
    assert(v.memory[p + 1] == restart_bytes()[1]);
    let v1 = after_instruction(v, io);
    let v2 = after_instruction(v1, io);
    assert(v1.registers[2] == 15);
    lemma_one_step(v1, io);
    assert(run_steps(v, 2, io) == v2);
}

/// The first six instructions of the code for `]`: the cell in `%R0`, the
/// cell pointer saved, the start address in `%R1` and 1 in `%R2`.
proof fn lemma_close_prefix(v: CoreView, t: u8, io: u8)
    requires
        v.memory.len() == 256,
        v.registers.len() == 4,
        holds(v, v.registers[PC as int] as int, close_bytes(t)),
        clear_of_save(v.registers[PC as int] as int, 13),
    ensures
        ({
            let w = run_steps(v, 6, io);
            &&& w.registers.len() == 4
            &&& w.memory == v.memory.update(save_address() as int, v.registers[1])
            &&& w.registers[0] == v.memory[v.registers[1] as int]
            &&& w.registers[1] == t
            &&& w.registers[2] == 1
            &&& w.registers[PC as int] == v.registers[PC as int] + 6
        }),
{
    let p = v.registers[PC as int] as int;
    let bytes = close_bytes(t);
    lemma_small_immediates();
    law_immediate_encoding_decodes(0, 2, 255, false);
    law_immediate_encoding_decodes(0, 2, 1, false);
    law_register_encoding_decodes(0b1100, 0, 1);
    law_register_encoding_decodes(0b1101, 1, 2);
    assert(v.memory[p] == bytes[0]);
    assert(v.memory[p + 1] == bytes[1]);
    assert(v.memory[p + 2] == bytes[2]);
    let v1 = after_instruction(v, io);
    let v2 = after_instruction(v1, io);
    let v3 = after_instruction(v2, io);
    assert(v1.registers[0] == v.memory[v.registers[1] as int]);
    assert(v2.registers[2] == 15);
    assert(v3.memory == v.memory.update(15, v.registers[1]));
    lemma_one_step(v2, io);
    lemma_run_steps_add(v1, 1, 1, io);
    lemma_run_steps_add(v, 1, 2, io);
    assert(run_steps(v, 3, io) == v3);
    assert(v3.memory[p + 3] == bytes[3]);
    assert(v3.memory[p + 4] == bytes[4]);
    assert(bytes[3] == lir_bytes(1, t)[0] && bytes[4] == lir_bytes(1, t)[1]);
    law_lir_loads_byte(v3, 1, t, io);
    let v5 = run_steps(v3, 2, io);
    assert(v5.memory[p + 5] == bytes[5]);
    let v6 = after_instruction(v5, io);
    lemma_one_step(v5, io);
    lemma_run_steps_add(v3, 2, 1, io);
    lemma_run_steps_add(v, 3, 3, io);
    assert(run_steps(v, 6, io) == v6);
    assert(v3.registers[0] == v.memory[v.registers[1] as int]);
    assert(v5.registers[0] == v3.registers[0]);
    assert(v5.registers[1] == t);
    assert(v5.registers.len() == 4);
    assert(v5.memory == v3.memory);
    assert(v5.registers[PC as int] == p + 5);
    assert(v6.registers[2] == 1);
    assert(v6.registers[0] == v5.registers[0]);
    assert(v6.registers[1] == t);
    assert(v6.memory == v5.memory);
}

/// The state after the six-instruction prefix of the code for `]`.
pub open spec fn tested(v: CoreView, w: CoreView, t: u8) -> bool {
    &&& v.memory.len() == 256
    &&& v.registers.len() == 4
    &&& w.memory.len() == 256
    &&& w.registers.len() == 4
    &&& w.memory == v.memory.update(save_address() as int, v.registers[1])
    &&& w.registers[0] == v.memory[v.registers[1] as int]
    &&& w.registers[1] == t
    &&& w.registers[2] == 1
    &&& w.registers[PC as int] == v.registers[PC as int] + 6
    &&& holds(w, v.registers[PC as int] as int, close_bytes(t))
    &&& holds(w, t as int, restart_bytes())
}

/// From `w`, about to run `SWP %R1, %R3` with `t` in `%R1`: two more
/// steps through the restart bytes.
proof fn lemma_jump_back(w: CoreView, t: u8, io: u8)
    requires
        w.memory.len() == 256,
        w.registers.len() == 4,
        w.registers[1] == t,
        w.registers[PC as int] < 255,
        w.memory[w.registers[PC as int] as int] == reg_encoding(0b1111, 1, 3),
        holds(w, t as int, restart_bytes()),
    ensures
        run_steps(w, 3, io).registers[1] == w.memory[save_address() as int],
        run_steps(w, 3, io).registers[PC as int] == t + 2,
        run_steps(w, 3, io).memory == w.memory,
{
    law_register_encoding_decodes(0b1111, 1, 3);
    let w1 = after_instruction(w, io);
    assert(w1.registers[PC as int] == t);
    assert(w1.memory == w.memory);
    lemma_restart(w1, io);
    lemma_one_step(w, io);
    lemma_run_steps_add(w, 1, 2, io);
}

/// A cell from 1 to 127: the first test does not skip, and the jump is taken.
proof fn lemma_test_positive(v: CoreView, w: CoreView, t: u8, io: u8)
    requires
        tested(v, w, t),
        1 <= w.registers[0] < 128,
    ensures
        run_steps(w, 4, io).registers[1] == v.registers[1],
        run_steps(w, 4, io).registers[PC as int] == t + 2,
        run_steps(w, 4, io).memory == w.memory,
{
    let p = v.registers[PC as int] as int;
    law_register_encoding_decodes(0b1110, 0, 2);
    assert(w.memory[p + 6] == close_bytes(t)[6]);
    let w1 = after_instruction(w, io);
    assert(w1.registers[PC as int] == p + 7);
    assert(w1.memory[p + 7] == close_bytes(t)[7]);
    lemma_jump_back(w1, t, io);
    lemma_one_step(w, io);
    lemma_run_steps_add(w, 1, 3, io);
    assert(w.memory[15] == v.registers[1]);
}

/// A zero cell or one from 128 to 255: the first test skips the first jump,
/// and the second test, against 15, skips nothing.
proof fn lemma_test_not_positive(v: CoreView, w: CoreView, t: u8, io: u8)
    requires
        tested(v, w, t),
        w.registers[0] == 0 || w.registers[0] >= 128,
    ensures
        ({
            let u = run_steps(w, 3, io);
            &&& u.memory == w.memory
            &&& u.registers.len() == 4
            &&& u.registers[1] == t
            &&& u.registers[PC as int] == v.registers[PC as int] + 10
        }),
{
    let p = v.registers[PC as int] as int;
    lemma_small_immediates();
    law_register_encoding_decodes(0b1110, 0, 2);
    law_register_encoding_decodes(0b1110, 2, 0);
    law_immediate_encoding_decodes(0, 2, 255, false);
    assert(w.memory[p + 6] == close_bytes(t)[6]);
    let w1 = after_instruction(w, io);
    assert(w1.registers[PC as int] == p + 8);
    assert(w1.memory[p + 8] == close_bytes(t)[8]);
    let w2 = after_instruction(w1, io);
    assert(w2.registers[2] == 15);
    assert(w2.registers[PC as int] == p + 9);
    assert(w2.memory[p + 9] == close_bytes(t)[9]);
    let w3 = after_instruction(w2, io);
    lemma_one_step(w2, io);
    lemma_run_steps_add(w1, 1, 1, io);
    lemma_one_step(w, io);
    lemma_run_steps_add(w, 1, 2, io);
    assert(run_steps(w, 3, io) == w3);
}

/// The code for `[` jumps straight to the loop's test: run from its first
/// byte, the processor ends at the loop's end label `e` after three
/// instructions, with `%R0`, `%R1` and the memory as they were; the loop's
/// start label, right after the jump, holds the restart bytes that the
/// loop test needs.
pub proof fn law_loop_entry(v: CoreView, e: u8, io: u8)
    requires
        v.memory.len() == 256,
        v.registers.len() == 4,
        holds(v, v.registers[PC as int] as int, open_bytes(e)),
    ensures
        run_steps(v, 3, io).registers[PC as int] == e,
        run_steps(v, 3, io).registers[0] == v.registers[0],
        run_steps(v, 3, io).registers[1] == v.registers[1],
        run_steps(v, 3, io).memory == v.memory,
        holds(v, v.registers[PC as int] + 3, restart_bytes()),
{
    let p = v.registers[PC as int] as int;
    assert(v.memory[p] == open_bytes(e)[0]);
    assert(v.memory[p + 1] == open_bytes(e)[1]);
    assert(v.memory[p + 2] == open_bytes(e)[2]);
    law_jump_transfers_control(v, 2, e, io);
    assert forall|j: int| 0 <= j < restart_bytes().len() implies v.memory[p + 3 + j] == #[trigger] restart_bytes()[j] by {
        assert(v.memory[p + (3 + j)] == open_bytes(e)[3 + j]);
    }
}

/// The loop test that ends the code for `]`, on the core: run from its
/// first byte, with `%R1` pointing at a cell and the restart bytes at the
/// loop's start label `t`, control always goes back to the start, past the
/// restart bytes: ten instructions for a cell from 1 to 127, twelve
/// otherwise. The code tests the cell against 1 and against what
/// `LIL %R2, #-1` loads, 15, and leaves the loop only for a cell below 1
/// and above 15, which no cell is. `%R1` points at the same cell again, and
/// the only memory written is `save_address()`, which keeps the cell
/// pointer. Neither piece of code may cover that address.
pub proof fn law_loop_test(v: CoreView, t: u8, io: u8)
    requires
        v.memory.len() == 256,
        v.registers.len() == 4,
        holds(v, v.registers[PC as int] as int, close_bytes(t)),
        holds(v, t as int, restart_bytes()),
        clear_of_save(v.registers[PC as int] as int, 13),
        clear_of_save(t as int, 2),
    ensures
        ({
            let ptr = v.registers[1];
            let cell = v.memory[ptr as int];
            let n: nat = if 1 <= cell < 128 { 10 } else { 12 };
            let w = run_steps(v, n, io);
            &&& w.registers[1] == ptr
            &&& w.memory == v.memory.update(save_address() as int, ptr)
            &&& w.registers[PC as int] == t + 2
        }),
{
    let p = v.registers[PC as int] as int;
    let ptr = v.registers[1];
    let cell = v.memory[ptr as int];
    lemma_close_prefix(v, t, io);
    let w = run_steps(v, 6, io);
    assert forall|j: int| 0 <= j < close_bytes(t).len() implies w.memory[p + j] == #[trigger] close_bytes(t)[j] by {
        assert(v.memory[p + j] == close_bytes(t)[j]);
    }
    assert forall|j: int| 0 <= j < restart_bytes().len() implies w.memory[t + j] == #[trigger] restart_bytes()[j] by {
        assert(v.memory[t + j] == restart_bytes()[j]);
    }
    assert(tested(v, w, t));
    assert(w.memory[15] == ptr);
    if 1 <= cell < 128 {
        lemma_test_positive(v, w, t, io);
        lemma_run_steps_add(v, 6, 4, io);
    } else {
        lemma_test_not_positive(v, w, t, io);
        let u = run_steps(w, 3, io);
        assert(u.memory[p + 10] == close_bytes(t)[10]);
        lemma_jump_back(u, t, io);
        lemma_run_steps_add(w, 3, 3, io);
        lemma_run_steps_add(v, 6, 6, io);
    }
}

/// The bytes the compiled code of a command without a loop assembles to:
/// for `+` and `-`, load the cell, load the step, add, store the cell; for
/// `>` and `<`, load the step and add it to the cell pointer `%R1`; for
/// `.`, load the cell and write it to bus address 0; for `,`, read bus
/// address 0 and store the result in the cell.
pub open spec fn command_bytes(c: char) -> Seq<u8> {
    let step: u8 = if c == '+' || c == '>' { 1 } else { 255 };
    if c == '+' || c == '-' {
        seq![
            reg_encoding(0b1100, 0, 1),
            imm_encoding(0, 2, step, false),
            reg_encoding(0b1000, 0, 2),
            reg_encoding(0b1101, 0, 1),
        ]
    } else if c == '.' {
        seq![reg_encoding(0b1100, 0, 1), imm_encoding(0, 2, 0, false), reg_encoding(0b1011, 0, 2)]
    } else if c == ',' {
        seq![imm_encoding(0, 2, 0, false), reg_encoding(0b1010, 0, 2), reg_encoding(0b1101, 0, 1)]
    } else {
        seq![imm_encoding(0, 2, step, false), reg_encoding(0b1000, 1, 2)]
    }
}

/// A command that works on the cells: `+`, `-`, `>` or `<`.
pub open spec fn cell_command(c: char) -> bool {
    c == '+' || c == '-' || c == '>' || c == '<'
}

/// A command without a loop: a cell command, `.` or `,`.
pub open spec fn simple_command(c: char) -> bool {
    cell_command(c) || c == '.' || c == ','
}

/// What the code for a cell command adds, modulo 256: one for `+` and `>`.
/// For `-` and `<` the code loads `#-1` with `LIL`, which keeps only the four
/// low bits of its immediate, so it adds 15.
pub open spec fn cell_step(c: char) -> u8 {
    if c == '+' || c == '>' {
        1
    } else {
        15
    }
}

/// The immediate the code for a cell command writes after `LIL %R2, `.
pub open spec fn written_step(c: char) -> u8 {
    if c == '+' || c == '>' {
        1
    } else {
        255
    }
}

/// The code for a cell command, run on the core: run from where its bytes
/// start, `+` and `-` add `cell_step(c)` (1, or 15) to the cell that `%R1`
/// points at, and `>` and `<` add it to `%R1`; `%R1` is otherwise kept,
/// the program counter ends right after the code, and only the cell is
/// written.
pub proof fn law_cell_command_runs(v: CoreView, c: char, io: u8)
    requires
        cell_command(c),
        v.memory.len() == 256,
        v.registers.len() == 4,
        holds(v, v.registers[PC as int] as int, command_bytes(c)),
    ensures
        ({
            let n = command_bytes(c).len();
            let w = run_steps(v, n, io);
            let cell = v.registers[1] as int;
            &&& w.registers.len() == 4
            &&& w.registers[PC as int] == v.registers[PC as int] + n
            &&& (c == '+' || c == '-') ==> w.memory == v.memory.update(cell, ((v.memory[cell] + cell_step(c)) % 256) as u8)
                && w.registers[1] == v.registers[1]
            &&& (c == '>' || c == '<') ==> w.memory == v.memory && w.registers[1] == ((v.registers[1] + cell_step(c)) % 256) as u8
                && w.registers[0] == v.registers[0]
        }),
{
    let p = v.registers[PC as int];
    let step = cell_step(c);
    let bytes = command_bytes(c);
    lemma_small_immediates();
    assert(bytes[if c == '+' || c == '-' { 1int } else { 0int }] == imm_encoding(0, 2, written_step(c), false));
    assert(nibble_of(written_step(c), false) == step);
    law_immediate_encoding_decodes(0, 2, written_step(c), false);
    law_register_encoding_decodes(0b1000, 0, 2);
    law_register_encoding_decodes(0b1000, 1, 2);
    law_register_encoding_decodes(0b1100, 0, 1);
    law_register_encoding_decodes(0b1101, 0, 1);
    if c == '+' || c == '-' {
        assert(v.memory[p as int] == bytes[0]);
        let v1 = after_instruction(v, io);
        assert(v1.registers[0] == v.memory[v.registers[1] as int]);
        assert(v1.memory == v.memory);
        assert(v.memory[p + 1] == bytes[1]);
        let v2 = after_instruction(v1, io);
        assert(v2.registers[2] == step);
        assert(v.memory[p + 2] == bytes[2]);
        let v3 = after_instruction(v2, io);
        assert(v.memory[p + 3] == bytes[3]);
        let v4 = after_instruction(v3, io);
        assert(run_steps(v4, 0, io) == v4);
        assert(run_steps(v3, 1, io) == v4);
        assert(run_steps(v2, 2, io) == v4);
        assert(run_steps(v1, 3, io) == v4);
        assert(run_steps(v, 4, io) == v4);
        assert(v4.memory =~= v.memory.update(v.registers[1] as int, ((v.memory[v.registers[1] as int] + step) % 256) as u8));
    } else {
        assert(v.memory[p as int] == bytes[0]);
        let v1 = after_instruction(v, io);
        assert(v1.registers[2] == step);
        assert(v.memory[p + 1] == bytes[1]);
        let v2 = after_instruction(v1, io);
        assert(run_steps(v2, 0, io) == v2);
        assert(run_steps(v1, 1, io) == v2);
        assert(run_steps(v, 2, io) == v2);
    }
}

/// The code for `,` stores in the cell what the device at bus address 0
/// answers, and the code for `.` ends with a write of the cell to bus
/// address 0; both keep `%R1` and end with the program counter right after
/// the code.
pub proof fn law_io_command_runs(v: CoreView, c: char, io: u8)
    requires
        c == '.' || c == ',',
        v.memory.len() == 256,
        v.registers.len() == 4,
        holds(v, v.registers[PC as int] as int, command_bytes(c)),
    ensures
        ({
            let w = run_steps(v, 3, io);
            let cell = v.registers[1] as int;
            &&& w.registers.len() == 4
            &&& w.registers[PC as int] == v.registers[PC as int] + 3
            &&& w.registers[1] == v.registers[1]
            &&& c == ',' && v.attached[0] ==> w.memory == v.memory.update(cell, io)
            &&& c == '.' ==> w.memory == v.memory && ({
                let u = run_steps(v, 2, io);
                &&& decode(current_opcode(u)) == (Instruction::Iow { a: 0, b: 2 })
                &&& io_port(u) == 0
                &&& fetched_registers(u)[0] == v.memory[cell]
                &&& writes_peripheral(u) == v.attached[0]
            })
        }),
{
    let p = v.registers[PC as int];
    let bytes = command_bytes(c);
    law_immediate_encoding_decodes(0, 2, 0, false);
    lemma_small_immediates();
    law_register_encoding_decodes(0b1100, 0, 1);
    law_register_encoding_decodes(0b1101, 0, 1);
    law_register_encoding_decodes(0b1010, 0, 2);
    law_register_encoding_decodes(0b1011, 0, 2);
    assert(v.memory[p as int] == bytes[0]);
    assert(v.memory[p + 1] == bytes[1]);
    assert(v.memory[p + 2] == bytes[2]);
    let v1 = after_instruction(v, io);
    let v2 = after_instruction(v1, io);
    let v3 = after_instruction(v2, io);
    assert(run_steps(v3, 0, io) == v3);
    assert(run_steps(v2, 1, io) == v3);
    assert(run_steps(v1, 2, io) == v3);
    assert(run_steps(v, 3, io) == v3);
    assert(run_steps(v2, 0, io) == v2);
    assert(run_steps(v1, 1, io) == v2);
    assert(run_steps(v, 2, io) == v2);
    if c == '.' {
        assert((reg_encoding(0b1011, 0, 2) & 3u8) == 2u8) by (bit_vector);
        assert(v2.registers[2] == 0);
        assert(v2.registers[0] == v.memory[v.registers[1] as int]);
    } else {
        assert(v1.registers[2] == 0);
        if v.attached[0] {
            assert(v2.registers[0] == io);
            assert(v3.memory =~= v.memory.update(v.registers[1] as int, io));
        }
    }
}

} // verus!
