//! Properties that tie the assembler, the instruction set and the core
//! together: what the assembler writes is what the processor reads, and
//! the macro instructions do what they are for.
use vstd::prelude::*;
use crate::brisc8core::{CoreView, PC, after_instruction, current_opcode};
use crate::generator::{
    AssembleView, FixupView, RunView, GenView, Mnemonic, assemble_from, byte_tokens, emit, emit_lir, fresh,
    imm_encoding, label_value, lemma_run_bytes, mnemonic, nibble_of, patched, push_byte,
    reg_encoding, resolve, run, written, zeroed,
};
use crate::lexer::{ArgView, TokenView};
use crate::text::upper_name;
use crate::isa::{Instruction, decode, field_a, field_b, field_imm, register_instruction};

verus! {

proof fn lemma_reg_fields(opcode: u8, a: u8, b: u8)
    requires
        8 <= opcode < 16,
        a < 4,
        b < 4,
    ensures
        field_a(reg_encoding(opcode, a, b)) == a,
        field_b(reg_encoding(opcode, a, b)) == b,
        reg_encoding(opcode, a, b) >> 4u8 == opcode,
{
    assert(((((opcode << 4u8) | (a << 2u8) | b) as u8 >> 2u8) & 3u8) == a
        && ((((opcode << 4u8) | (a << 2u8) | b) as u8) & 3u8) == b
        && (((opcode << 4u8) | (a << 2u8) | b) as u8) >> 4u8 == opcode) by (bit_vector)
        requires
            8 <= opcode < 16,
            a < 4,
            b < 4,
    ;
}

/// A register-mode byte that the assembler writes for opcode `opcode` and
/// registers `a`, `b` is read by the processor as that instruction on
/// those registers.
pub proof fn law_register_encoding_decodes(opcode: u8, a: u8, b: u8)
    requires
        8 <= opcode < 16,
        a < 4,
        b < 4,
    ensures
        decode(reg_encoding(opcode, a, b)) == register_instruction(opcode, a, b),
{
    lemma_reg_fields(opcode, a, b);
}

/// An immediate-mode byte that the assembler writes (`LIL` for opcode 0,
/// `LIH` for opcode 1) is read by the processor as that instruction on
/// register `a` with the chosen nibble of `i`.
pub proof fn law_immediate_encoding_decodes(opcode: u8, a: u8, i: u8, high: bool)
    requires
        opcode < 2,
        a < 4,
    ensures
        decode(imm_encoding(opcode, a, i, high)) == (if opcode == 0 {
            Instruction::Lil { a, imm: nibble_of(i, high) }
        } else {
            Instruction::Lih { a, imm: nibble_of(i, high) }
        }),
{
    let n = nibble_of(i, high);
    assert(n < 16) by (bit_vector)
        requires
            n == (if high { ((i & 0xf0u8) >> 4u8) as u8 } else { (i & 0x0fu8) as u8 }),
    ;
    let x = imm_encoding(opcode, a, i, high);
    assert(x == ((opcode << 6u8) | (a << 2u8) | (((n & 0b1100u8) << 2u8) | (n & 0b0011u8)) as u8) as u8);
    assert(((x >> 2u8) & 3u8) == a && (((x & 0x30u8) >> 2u8) | (x & 3u8)) == n && (opcode == 0 ==> x
        >> 4u8 < 4) && (opcode == 1 ==> 4 <= x >> 4u8 < 8)) by (bit_vector)
        requires
            x == ((opcode << 6u8) | (a << 2u8) | (((n & 0b1100u8) << 2u8) | (n & 0b0011u8)) as u8) as u8,
            opcode < 2,
            a < 4,
            n < 16,
    ;
}

/// Patching a label reference writes the label's nibble into the
/// placeholder that the assembler emitted for it: the result is the byte
/// the assembler would have written had the address been an immediate.
pub proof fn law_patch_fills_placeholder(opcode: u8, a: u8, address: u8, high: bool)
    requires
        opcode < 2,
        a < 4,
    ensures
        patched(imm_encoding(opcode, a, 0, false), address, high) == imm_encoding(opcode, a, address, high),
{
    let n = nibble_of(address, high);
    assert(n < 16) by (bit_vector)
        requires
            n == (if high { ((address & 0xf0u8) >> 4u8) as u8 } else { (address & 0x0fu8) as u8 }),
    ;
    let z = nibble_of(0, false);
    assert(z == 0) by (bit_vector)
        requires
            z == (0u8 & 0x0fu8) as u8,
    ;
    assert((((((opcode << 6u8) | (a << 2u8) | (((0u8 & 0b1100u8) << 2u8) | (0u8 & 0b0011u8))) as u8)
        & 0b1100_1100u8) | (((n & 0b1100u8) << 2u8) | (n & 0b0011u8)) as u8) as u8 == ((opcode << 6u8)
        | (a << 2u8) | (((n & 0b1100u8) << 2u8) | (n & 0b0011u8)) as u8) as u8) by (bit_vector)
        requires
            opcode < 2,
            a < 4,
            n < 16,
    ;
}

/// The state after running `k` instructions (peripherals answering `io`).
pub open spec fn run_steps(v: CoreView, k: nat, io: u8) -> CoreView
    decreases k,
{
    if k == 0 {
        v
    } else {
        run_steps(after_instruction(v, io), (k - 1) as nat, io)
    }
}

/// The two bytes that `LIR %Ra, #x` assembles to.
pub open spec fn lir_bytes(a: u8, x: u8) -> Seq<u8> {
    seq![imm_encoding(0, a, x, false), imm_encoding(1, a, x, true)]
}

/// `LIR %Ra, #x` loads the whole byte `x` into register `a` (an ordinary
/// register, not the program counter): run from where its two bytes
/// start, the processor ends with `x` in `a`, the program counter two
/// bytes on, and every other register and the memory as they were.
pub proof fn law_lir_loads_byte(v: CoreView, a: u8, x: u8, io: u8)
    requires
        v.memory.len() == 256,
        v.registers.len() == 4,
        a < 3,
        v.registers[PC as int] < 254,
        v.memory[v.registers[PC as int] as int] == lir_bytes(a, x)[0],
        v.memory[v.registers[PC as int] + 1] == lir_bytes(a, x)[1],
    ensures
        run_steps(v, 2, io).registers.len() == 4,
        run_steps(v, 2, io).registers[a as int] == x,
        run_steps(v, 2, io).registers[PC as int] == v.registers[PC as int] + 2,
        forall|r: int| 0 <= r < 3 && r != a ==> run_steps(v, 2, io).registers[r] == v.registers[r],
        run_steps(v, 2, io).memory == v.memory,
{
    law_immediate_encoding_decodes(0, a, x, false);
    law_immediate_encoding_decodes(1, a, x, true);
    let v1 = after_instruction(v, io);
    let v2 = after_instruction(v1, io);
    assert(run_steps(v2, 0, io) == v2);
    assert(run_steps(v1, 1, io) == v2);
    assert(run_steps(v, 2, io) == v2);
    let lo = nibble_of(x, false);
    let hi = nibble_of(x, true);
    assert(v1.registers[a as int] == lo);
    assert(((hi << 4u8) | (lo & 0x0fu8)) as u8 == x) by (bit_vector)
        requires
            lo == (x & 0x0fu8) as u8,
            hi == ((x & 0xf0u8) >> 4u8) as u8,
    ;
}

/// The three bytes that `JMP %Rc, #t` (or `CALL`) assembles to.
pub open spec fn jump_bytes(c: u8, target: u8) -> Seq<u8> {
    lir_bytes(c, target).push(reg_encoding(0b1111, c, 3))
}

/// `JMP %Rc, #t` transfers control to `t` and leaves in `c` the address
/// just after the jump, which is how `CALL` keeps its return address.
pub proof fn law_jump_transfers_control(v: CoreView, c: u8, target: u8, io: u8)
    requires
        v.memory.len() == 256,
        v.registers.len() == 4,
        c < 3,
        v.registers[PC as int] < 253,
        v.memory[v.registers[PC as int] as int] == jump_bytes(c, target)[0],
        v.memory[v.registers[PC as int] + 1] == jump_bytes(c, target)[1],
        v.memory[v.registers[PC as int] + 2] == jump_bytes(c, target)[2],
    ensures
        run_steps(v, 3, io).registers.len() == 4,
        run_steps(v, 3, io).registers[PC as int] == target,
        run_steps(v, 3, io).registers[c as int] == v.registers[PC as int] + 3,
        forall|r: int| 0 <= r < 3 && r != c ==> run_steps(v, 3, io).registers[r] == v.registers[r],
        run_steps(v, 3, io).memory == v.memory,
{
    law_lir_loads_byte(v, c, target, io);
    law_register_encoding_decodes(0b1111, c, 3);
    let v1 = after_instruction(v, io);
    let v2 = after_instruction(v1, io);
    let v3 = after_instruction(v2, io);
    assert(run_steps(v2, 0, io) == v2);
    assert(run_steps(v1, 1, io) == v2);
    assert(run_steps(v, 2, io) == v2);
    assert(run_steps(v3, 0, io) == v3);
    assert(run_steps(v2, 1, io) == v3);
    assert(run_steps(v1, 2, io) == v3);
    assert(run_steps(v, 3, io) == v3);
    assert(v2.registers.len() == 4);
    assert(v2.registers[PC as int] == v.registers[PC as int] + 2);
    assert(v2.registers[c as int] == target);
    assert(v2.memory[v2.registers[PC as int] as int] == reg_encoding(0b1111, c, 3));
    assert(decode(reg_encoding(0b1111, c, 3)) == Instruction::Swp { a: c, b: 3 });
    let f = v2.registers.update(PC as int, (v2.registers[PC as int] + 1) as u8);
    assert(v3.registers == f.update(c as int, f[3]).update(3, f[c as int]));
}

/// The assembler writes `LIR %Ra, #x` as the two bytes `lir_bytes(a, x)`
/// at the current address and moves on by two.
pub proof fn law_lir_immediate_emits(s: GenView, a: u8, x: u8)
    requires
        s.output.len() == 256,
        s.index < 254,
    ensures
        emit_lir(s, a, ArgView::Immediate(x)) == Some(GenView {
            index: (s.index + 2) as u8,
            output: s.output.update(s.index as int, lir_bytes(a, x)[0]).update(s.index + 1, lir_bytes(a, x)[1]),
            ..s
        }),
{
}

/// The assembler writes `LIR %Ra, $l` as two placeholders and records one
/// reference to `l` for each, low nibble first; once patched with the
/// label's address they are `lir_bytes(a, address)` (`law_patch_fills_placeholder`).
pub proof fn law_lir_label_emits(s: GenView, a: u8, l: Seq<char>)
    requires
        s.output.len() == 256,
        s.index < 254,
    ensures
        emit_lir(s, a, ArgView::Label(l)) == Some(GenView {
            index: (s.index + 2) as u8,
            output: s.output.update(s.index as int, imm_encoding(0, a, 0, false)).update(
                s.index + 1,
                imm_encoding(1, a, 0, false),
            ),
            fixups: s.fixups.push(FixupView { offset: s.index as int, label: l, high: false }).push(
                FixupView { offset: s.index + 1, label: l, high: true },
            ),
            ..s
        }),
{
}

/// An instruction leaves the peripherals where they are, and only a store
/// writes memory.
pub proof fn law_only_store_writes_memory(v: CoreView, io: u8)
    ensures
        after_instruction(v, io).attached == v.attached,
        !(decode(current_opcode(v)) is Sto) ==> after_instruction(v, io).memory == v.memory,
{
}

/// A jump to a label defined further on lands on that label: from a new
/// generator, `JMP %Rc, $l` (or `CALL`) followed by some bytes and then
/// `l:` assembles to an image that starts with the jump to the address of
/// `l`, right after those bytes.
pub proof fn law_forward_jump_resolves(op: Seq<char>, c: u8, l: Seq<char>, bytes: Seq<u8>)
    requires
        mnemonic(upper_name(op)) == Some(Mnemonic::Jmp) || mnemonic(upper_name(op)) == Some(Mnemonic::Call),
        c < 3,
        bytes.len() <= 252,
    ensures
        ({
            let toks = seq![TokenView::Instruction(op, seq![ArgView::Register(c), ArgView::Label(l)])]
                + byte_tokens(bytes) + seq![TokenView::Label(l)];
            &&& assemble_from(fresh(), toks) is Assembled
            &&& assemble_from(fresh(), toks)->Assembled_2 == 3 + bytes.len()
            &&& assemble_from(fresh(), toks)->Assembled_1.subrange(0, 3) == jump_bytes(c, (3 + bytes.len()) as u8)
        }),
{
    let toks = seq![TokenView::Instruction(op, seq![ArgView::Register(c), ArgView::Label(l)])]
        + byte_tokens(bytes) + seq![TokenView::Label(l)];
    let s0 = fresh();
    let args = seq![ArgView::Register(c), ArgView::Label(l)];
    law_lir_label_emits(s0, c, l);
    let s1 = emit_lir(s0, c, ArgView::Label(l))->Some_0;
    let swp = reg_encoding(0b1111, c, 3);
    let s2 = GenView { output: s1.output.update(2, swp), index: 3, ..s1 };
    assert(push_byte(s1, swp) == Some(s2));
    assert(emit(s0, op, args) == crate::generator::EmitView::Done(s2));
    assert(toks[0] == TokenView::Instruction(op, args));
    let rest = seq![TokenView::Label(l)];
    assert(toks.drop_first() =~= byte_tokens(bytes).subrange(0, bytes.len() as int) + rest);
    assert(run(s0, toks) == run(s2, toks.drop_first()));
    lemma_run_bytes(s2, bytes, 0, rest);
    assert(bytes.subrange(0, bytes.len() as int) =~= bytes);
    let addr = (3 + bytes.len()) as u8;
    let s3 = GenView { index: addr, output: written(s2.output, 3, bytes), ..s2 };
    let s4 = GenView { labels: s3.labels.push((l, addr)), ..s3 };
    assert(rest.drop_first() =~= Seq::<TokenView>::empty());
    assert(run(s3, rest) == run(s4, Seq::empty()));
    assert(run(s0, toks) == RunView::Done(s4));
    assert(s4.labels =~= seq![(l, addr)]);
    assert(label_value(s4.labels, l) == Some(addr));
    let out = s4.output;
    let ph0 = imm_encoding(0, c, 0, false);
    let ph1 = imm_encoding(1, c, 0, false);
    assert(out[0] == ph0 && out[1] == ph1 && out[2] == swp);
    law_patch_fills_placeholder(0, c, addr, false);
    law_patch_fills_placeholder(1, c, addr, true);
    let f0 = FixupView { offset: 0, label: l, high: false };
    let f1 = FixupView { offset: 1, label: l, high: true };
    assert(s4.fixups =~= seq![f0, f1]);
    let out1 = out.update(0, patched(out[0], addr, false));
    let out2 = out1.update(1, patched(out1[1], addr, true));
    assert(resolve(out2, s4.labels, s4.fixups, 2) == Some(out2));
    assert(resolve(out1, s4.labels, s4.fixups, 1) == Some(out2));
    assert(resolve(out, s4.labels, s4.fixups, 0) == Some(out2));
    assert(out2.subrange(0, 3) =~= jump_bytes(c, addr));
}

} // verus!

verus! {

/// `CALL %R2, #t` followed, at `t`, by `RET %R2` comes back to the address
/// right after the call, with the return instruction's address (plus one)
/// left in `%R2`.
pub proof fn law_call_then_ret_returns(v: CoreView, target: u8, io: u8)
    requires
        v.memory.len() == 256,
        v.registers.len() == 4,
        v.registers[PC as int] < 253,
        target < 255,
        v.memory[v.registers[PC as int] as int] == jump_bytes(2, target)[0],
        v.memory[v.registers[PC as int] + 1] == jump_bytes(2, target)[1],
        v.memory[v.registers[PC as int] + 2] == jump_bytes(2, target)[2],
        v.memory[target as int] == reg_encoding(0b1111, 2, 3),
    ensures
        run_steps(v, 4, io).registers[PC as int] == v.registers[PC as int] + 3,
        run_steps(v, 4, io).registers[2] == target + 1,
        run_steps(v, 4, io).registers[0] == v.registers[0],
        run_steps(v, 4, io).registers[1] == v.registers[1],
        run_steps(v, 4, io).memory == v.memory,
{
    law_jump_transfers_control(v, 2, target, io);
    law_register_encoding_decodes(0b1111, 2, 3);
    let v3 = run_steps(v, 3, io);
    let v4 = after_instruction(v3, io);
    lemma_run_steps_extend(v, 3, io);
    assert(v3.registers.len() == 4);
    assert(v3.memory[v3.registers[PC as int] as int] == reg_encoding(0b1111, 2, 3));
    assert(decode(reg_encoding(0b1111, 2, 3)) == Instruction::Swp { a: 2, b: 3 });
    let f = v3.registers.update(PC as int, (v3.registers[PC as int] + 1) as u8);
    assert(v4.registers == f.update(2, f[3]).update(3, f[2]));
}

/// Running `k + 1` instructions is running `k` and then one more.
pub proof fn lemma_run_steps_extend(v: CoreView, k: nat, io: u8)
    ensures
        run_steps(v, k + 1, io) == after_instruction(run_steps(v, k, io), io),
    decreases k,
{
    let w = after_instruction(v, io);
    assert(run_steps(v, k + 1, io) == run_steps(w, k, io));
    if k > 0 {
        lemma_run_steps_extend(w, (k - 1) as nat, io);
        assert(run_steps(v, k, io) == run_steps(w, (k - 1) as nat, io));
    } else {
        assert(run_steps(w, 0, io) == w);
        assert(run_steps(v, 0, io) == v);
    }
}

} // verus!

verus! {

/// A byte read as a signed number.
pub open spec fn as_signed(x: u8) -> int {
    if x < 128 {
        x as int
    } else {
        x - 256
    }
}

proof fn lemma_byte_fields(op: u8)
    ensures
        field_a(op) == (op / 4) % 4,
        field_b(op) == op % 4,
        field_imm(op) == ((op / 16) % 4) * 4 + op % 4,
        op >> 4u8 == op / 16,
{
    assert(((op >> 2u8) & 3u8) == (op / 4u8) % 4u8) by (bit_vector);
    assert((op & 3u8) == op % 4u8) by (bit_vector);
    assert((((op & 0x30u8) >> 2u8) | (op & 3u8)) == ((op / 16u8) % 4u8) * 4u8 + op % 4u8) by (bit_vector);
    assert(op >> 4u8 == op / 16u8) by (bit_vector);
}

proof fn lemma_byte_arithmetic(x: u8, y: u8)
    ensures
        (x + 1) as u8 == (x + 1) % 256,
        !(x & y) == 255 - (x & y),
        x < 16 ==> ((x << 4u8) | (y & 0x0fu8)) as u8 == x * 16 + y % 16,
{
    assert((x + 1) as u8 == (x + 1) % 256) by (bit_vector);
    assert(!(x & y) == 255 - (x & y)) by (bit_vector);
    assert(x < 16 ==> ((x << 4u8) | (y & 0x0fu8)) as u8 == x * 16 + y % 16) by (bit_vector);
}

/// The instruction table, in arithmetic on the byte at the program counter.
/// The opcode is the byte's top four bits, `rA` and `rB` are bits 3..2 and
/// 1..0, and an immediate is bits 5..4 then 1..0. The program counter has
/// moved on by one (wrapping at 256) before the instruction acts, and then:
/// LIL sets `rA` to the immediate; LIH sets its top half to the immediate and
/// keeps its bottom half; ADD adds modulo 256; NAND gives `255 - (rA & rB)`;
/// IOR loads what the device at `rB` answers, if there is one; IOW changes no
/// register; LOA loads `mem[rB]`; STO writes `rA` to `mem[rB]`; SKL moves the
/// program counter on once more when `rA < rB` as signed bytes; SWP
/// exchanges `rA` and `rB`. Only STO writes memory, and no instruction
/// attaches or removes a device.
pub proof fn law_instruction_table(v: CoreView, io: u8)
    requires
        v.memory.len() == 256,
        v.registers.len() == 4,
    ensures
        ({
            let op = current_opcode(v);
            let a = ((op / 4) % 4) as int;
            let b = (op % 4) as int;
            let imm = ((op / 16) % 4) * 4 + op % 4;
            let r = v.registers.update(3, ((v.registers[3] + 1) % 256) as u8);
            let m = v.memory;
            let w = after_instruction(v, io);
            &&& w.attached == v.attached
            &&& op < 64 ==> w.registers == r.update(a, imm as u8) && w.memory == m
            &&& 64 <= op < 128 ==> w.registers == r.update(a, (imm * 16 + r[a] % 16) as u8) && w.memory == m
            &&& op / 16 == 8 ==> w.registers == r.update(a, ((r[a] + r[b]) % 256) as u8) && w.memory == m
            &&& op / 16 == 9 ==> w.registers == r.update(a, (255 - (r[a] & r[b])) as u8) && w.memory == m
            &&& op / 16 == 10 ==> w.memory == m && w.registers == (if v.attached[r[b] as int] {
                r.update(a, io)
            } else {
                r
            })
            &&& op / 16 == 11 ==> w.registers == r && w.memory == m
            &&& op / 16 == 12 ==> w.registers == r.update(a, m[r[b] as int]) && w.memory == m
            &&& op / 16 == 13 ==> w.registers == r && w.memory == m.update(r[b] as int, r[a])
            &&& op / 16 == 14 ==> w.memory == m && w.registers == (if as_signed(r[a]) < as_signed(r[b]) {
                r.update(3, ((r[3] + 1) % 256) as u8)
            } else {
                r
            })
            &&& op / 16 == 15 ==> w.memory == m && w.registers == r.update(a, r[b]).update(b, r[a])
        }),
{
    let op = current_opcode(v);
    let a = ((op / 4) % 4) as int;
    let b = (op % 4) as int;
    let r = v.registers.update(3, ((v.registers[3] + 1) % 256) as u8);
    lemma_byte_fields(op);
    lemma_byte_arithmetic(v.registers[3], 0);
    assert(crate::brisc8core::fetched_registers(v) == r);
    assert(0 <= a < 4 && 0 <= b < 4);
    lemma_byte_arithmetic(r[a], r[b]);
    lemma_byte_arithmetic(field_imm(op), r[a]);
    lemma_byte_arithmetic(r[3], 0);
    assert(field_imm(op) < 16);
}

} // verus!

verus! {

proof fn lemma_nibbles(x: u8)
    ensures
        nibble_of(x, true) == x / 16,
        nibble_of(x, false) == x % 16,
{
    assert(((x & 0xf0u8) >> 4u8) == x / 16) by (bit_vector);
    assert((x & 0x0fu8) == x % 16) by (bit_vector);
}

/// An `LIL` or `LIH` whose operand is a label assembles, once the reference
/// it records is patched with the label's address `x`, to the very byte that
/// the same instruction with the operand `#x` assembles to; and the
/// processor reads that byte as `LIL %Ra` with the low four bits of `x`, or
/// `LIH %Ra` with the high four bits.
pub proof fn law_label_operand_patches_to_immediate(s: GenView, op: Seq<char>, a: u8, l: Seq<char>, x: u8)
    requires
        mnemonic(upper_name(op)) == Some(Mnemonic::Lil) || mnemonic(upper_name(op)) == Some(Mnemonic::Lih),
        a < 4,
        s.index < 255,
        s.output.len() == 256,
    ensures
        ({
            let high = mnemonic(upper_name(op)) == Some(Mnemonic::Lih);
            let by_label = emit(s, op, seq![ArgView::Register(a), ArgView::Label(l)]);
            let by_value = emit(s, op, seq![ArgView::Register(a), ArgView::Immediate(x)]);
            &&& by_label is Done
            &&& by_value is Done
            &&& by_label->Done_0.index == s.index + 1
            &&& by_value->Done_0.index == s.index + 1
            &&& by_label->Done_0.fixups.len() == s.fixups.len() + 1
            &&& by_label->Done_0.fixups.last().offset == s.index
            &&& by_label->Done_0.fixups.last().label == l
            &&& by_label->Done_0.output.update(
                s.index as int,
                patched(by_label->Done_0.output[s.index as int], x, by_label->Done_0.fixups.last().high),
            ) == by_value->Done_0.output
            &&& decode(by_value->Done_0.output[s.index as int]) == (if high {
                Instruction::Lih { a, imm: x / 16 }
            } else {
                Instruction::Lil { a, imm: x % 16 }
            })
        }),
{
    let high = mnemonic(upper_name(op)) == Some(Mnemonic::Lih);
    let opcode: u8 = if high { 1 } else { 0 };
    let la = seq![ArgView::Register(a), ArgView::Label(l)];
    let va = seq![ArgView::Register(a), ArgView::Immediate(x)];
    assert(la.len() == 2 && la[0] is Register && la[0]->Register_0 == a && la[1] == ArgView::Label(l));
    assert(va.len() == 2 && va[0] is Register && va[0]->Register_0 == a && va[1] == ArgView::Immediate(x));
    law_patch_fills_placeholder(opcode, a, x, high);
    law_immediate_encoding_decodes(opcode, a, x, high);
    lemma_nibbles(x);
    let s1 = emit(s, op, la)->Done_0;
    let s2 = emit(s, op, va)->Done_0;
    assert(s1.output.update(s.index as int, patched(s1.output[s.index as int], x, high)) =~= s2.output);
}

} // verus!

verus! {

/// An `LIL` or `LIH` naming a label defined further on assembles to the
/// instruction on that label's address: from a new generator,
/// `LIH %Ra, $l` (or `LIL`) followed by some bytes and then `l:` assembles
/// to an image whose first byte the processor reads as `LIH %Ra` with the
/// high four bits of `l`'s address (`LIL` with the low four bits).
pub proof fn law_forward_operand_resolves(op: Seq<char>, a: u8, l: Seq<char>, bytes: Seq<u8>)
    requires
        mnemonic(upper_name(op)) == Some(Mnemonic::Lil) || mnemonic(upper_name(op)) == Some(Mnemonic::Lih),
        a < 4,
        bytes.len() <= 254,
    ensures
        ({
            let toks = seq![TokenView::Instruction(op, seq![ArgView::Register(a), ArgView::Label(l)])]
                + byte_tokens(bytes) + seq![TokenView::Label(l)];
            let addr = (1 + bytes.len()) as u8;
            &&& assemble_from(fresh(), toks) is Assembled
            &&& assemble_from(fresh(), toks)->Assembled_2 == 1 + bytes.len()
            &&& decode(assemble_from(fresh(), toks)->Assembled_1[0]) == (if mnemonic(upper_name(op)) == Some(
                Mnemonic::Lih,
            ) {
                Instruction::Lih { a, imm: addr / 16 }
            } else {
                Instruction::Lil { a, imm: addr % 16 }
            })
        }),
{
    let high = mnemonic(upper_name(op)) == Some(Mnemonic::Lih);
    let opcode: u8 = if high { 1 } else { 0 };
    let toks = seq![TokenView::Instruction(op, seq![ArgView::Register(a), ArgView::Label(l)])]
        + byte_tokens(bytes) + seq![TokenView::Label(l)];
    let addr = (1 + bytes.len()) as u8;
    let s0 = fresh();
    let args = seq![ArgView::Register(a), ArgView::Label(l)];
    assert(args.len() == 2 && args[0] is Register && args[0]->Register_0 == a && args[1] == ArgView::Label(l));
    let f0 = FixupView { offset: 0, label: l, high };
    let s1 = GenView {
        index: 1,
        output: s0.output.update(0, imm_encoding(opcode, a, 0, false)),
        fixups: seq![f0],
        ..s0
    };
    assert(emit(s0, op, args) == crate::generator::EmitView::Done(s1));
    assert(toks[0] == TokenView::Instruction(op, args));
    let rest = seq![TokenView::Label(l)];
    assert(toks.drop_first() =~= byte_tokens(bytes).subrange(0, bytes.len() as int) + rest);
    assert(run(s0, toks) == run(s1, toks.drop_first()));
    lemma_run_bytes(s1, bytes, 0, rest);
    assert(bytes.subrange(0, bytes.len() as int) =~= bytes);
    let s3 = GenView { index: addr, output: written(s1.output, 1, bytes), ..s1 };
    let s4 = GenView { labels: s3.labels.push((l, addr)), ..s3 };
    assert(rest.drop_first() =~= Seq::<TokenView>::empty());
    assert(run(s3, rest) == run(s4, Seq::empty()));
    assert(run(s0, toks) == RunView::Done(s4));
    assert(s4.labels =~= seq![(l, addr)]);
    assert(label_value(s4.labels, l) == Some(addr));
    let out = s4.output;
    assert(out[0] == imm_encoding(opcode, a, 0, false));
    law_patch_fills_placeholder(opcode, a, addr, high);
    law_immediate_encoding_decodes(opcode, a, addr, high);
    lemma_nibbles(addr);
    let out1 = out.update(0, patched(out[0], addr, high));
    assert(resolve(out1, s4.labels, s4.fixups, 1) == Some(out1));
    assert(resolve(out, s4.labels, s4.fixups, 0) == Some(out1));
}

} // verus!

verus! {

/// What the processor is told by the register-mode instruction that the
/// assembler emits for `m %Ra, %Rb`.
pub open spec fn assembled_meaning(m: Mnemonic, a: u8, b: u8) -> Instruction {
    match m {
        Mnemonic::Add => Instruction::Add { a, b },
        Mnemonic::Nand => Instruction::Nand { a, b },
        Mnemonic::Ior => Instruction::Ior { a, b },
        Mnemonic::Iow => Instruction::Iow { a: b, b: a },
        Mnemonic::Loa => Instruction::Loa { a, b },
        Mnemonic::Sto => Instruction::Sto { a: b, b: a },
        Mnemonic::Skl => Instruction::Skl { a, b },
        _ => Instruction::Swp { a, b },
    }
}

/// A register-mode instruction `m %Ra, %Rb` assembles to one byte at the
/// current address, which the processor reads as that instruction on those
/// registers; `IOW` and `STO` name the address register first, so their
/// operands trade places in the byte.
pub proof fn law_register_instructions_emit(s: GenView, op: Seq<char>, m: Mnemonic, a: u8, b: u8)
    requires
        mnemonic(upper_name(op)) == Some(m),
        m == Mnemonic::Add || m == Mnemonic::Nand || m == Mnemonic::Ior || m == Mnemonic::Iow || m == Mnemonic::Loa
            || m == Mnemonic::Sto || m == Mnemonic::Skl || m == Mnemonic::Swp,
        a < 4,
        b < 4,
        s.index < 255,
        s.output.len() == 256,
    ensures
        emit(s, op, seq![ArgView::Register(a), ArgView::Register(b)]) is Done,
        ({
            let s1 = emit(s, op, seq![ArgView::Register(a), ArgView::Register(b)])->Done_0;
            &&& s1.index == s.index + 1
            &&& s1.labels == s.labels
            &&& s1.fixups == s.fixups
            &&& s1.output == s.output.update(s.index as int, s1.output[s.index as int])
            &&& decode(s1.output[s.index as int]) == assembled_meaning(m, a, b)
        }),
{
    let args = seq![ArgView::Register(a), ArgView::Register(b)];
    assert(args.len() == 2 && args[0] is Register && args[1] is Register);
    assert(args[0]->Register_0 == a && args[1]->Register_0 == b);
    law_register_encoding_decodes(0b1000, a, b);
    law_register_encoding_decodes(0b1001, a, b);
    law_register_encoding_decodes(0b1010, a, b);
    law_register_encoding_decodes(0b1011, b, a);
    law_register_encoding_decodes(0b1100, a, b);
    law_register_encoding_decodes(0b1101, b, a);
    law_register_encoding_decodes(0b1110, a, b);
    law_register_encoding_decodes(0b1111, a, b);
    let s1 = emit(s, op, args)->Done_0;
    assert(s1.output =~= s.output.update(s.index as int, s1.output[s.index as int]));
}

} // verus!
