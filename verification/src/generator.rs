//! The assembler: turns lexer tokens into a 256-byte memory image.
//!
//! Labels may be used before they are defined: an instruction that names a
//! label is emitted with a zero immediate and patched once every token has
//! been read.
use vstd::prelude::*;
use crate::lexer::{ArgView, InstructionArg, Token, TokenView, args_view, tokens_view};
use crate::text::{chars_equal, chars_of, concat, to_uppercase, upper_name};

verus! {

// ---------------------------------------------------------------- encoding

/// Register mode: `0bOOOO_AABB`. Bits that do not fit their field spill over,
/// as the shifts of a byte do.
pub open spec fn reg_encoding(opcode: u8, a: u8, b: u8) -> u8 {
    ((opcode << 4u8) | (a << 2u8) | b) as u8
}

/// The half of `i` that an immediate-mode instruction carries.
pub open spec fn nibble_of(i: u8, high: bool) -> u8 {
    if high {
        ((i & 0xf0u8) >> 4u8) as u8
    } else {
        (i & 0x0fu8) as u8
    }
}

/// A nibble laid out in the immediate bits of `0bOOii_AAii`.
pub open spec fn spread(n: u8) -> u8 {
    (((n & 0b1100u8) << 2u8) | (n & 0b0011u8)) as u8
}

/// Immediate mode: `0bOOii_AAii`, carrying the low or high nibble of `i`.
pub open spec fn imm_encoding(opcode: u8, a: u8, i: u8, high: bool) -> u8 {
    ((opcode << 6u8) | (a << 2u8) | spread(nibble_of(i, high))) as u8
}

fn encode_reg(opcode: u8, r_a: u8, r_b: u8) -> (r: u8)
    ensures
        r == reg_encoding(opcode, r_a, r_b),
{
    (opcode << 4u8) | (r_a << 2u8) | r_b
}

fn encode_imm(opcode: u8, r_a: u8, i: u8, high: bool) -> (r: u8)
    ensures
        r == imm_encoding(opcode, r_a, i, high),
{
    let i = if high {
        (i & 0xf0u8) >> 4u8
    } else {
        i & 0x0fu8
    };
    let i = ((i & 0b1100u8) << 2u8) | (i & 0b0011u8);
    (opcode << 6u8) | (r_a << 2u8) | i
}

// ---------------------------------------------------------------- mnemonics

/// The instructions the assembler knows; `LIR`, `JMP`, `CALL` and `RET` are
/// made of the machine instructions.
#[derive(Debug, Clone, Copy, PartialEq, Eq, Structural)]
pub enum Mnemonic {
    Lil,
    Lih,
    Add,
    Nand,
    Ior,
    Iow,
    Loa,
    Sto,
    Skl,
    Swp,
    Lir,
    Jmp,
    Call,
    Ret,
}

/// The mnemonic an upper-cased instruction name stands for.
pub open spec fn mnemonic(up: Seq<char>) -> Option<Mnemonic> {
    if up == "LIL"@ {
        Some(Mnemonic::Lil)
    } else if up == "LIH"@ {
        Some(Mnemonic::Lih)
    } else if up == "ADD"@ {
        Some(Mnemonic::Add)
    } else if up == "NAND"@ {
        Some(Mnemonic::Nand)
    } else if up == "IOR"@ {
        Some(Mnemonic::Ior)
    } else if up == "IOW"@ {
        Some(Mnemonic::Iow)
    } else if up == "LOA"@ {
        Some(Mnemonic::Loa)
    } else if up == "STO"@ {
        Some(Mnemonic::Sto)
    } else if up == "SKL"@ {
        Some(Mnemonic::Skl)
    } else if up == "SWP"@ {
        Some(Mnemonic::Swp)
    } else if up == "LIR"@ {
        Some(Mnemonic::Lir)
    } else if up == "JMP"@ {
        Some(Mnemonic::Jmp)
    } else if up == "CALL"@ {
        Some(Mnemonic::Call)
    } else if up == "RET"@ {
        Some(Mnemonic::Ret)
    } else {
        None
    }
}

fn mnemonic_exec(up: &Vec<char>) -> (r: Option<Mnemonic>)
    ensures
        r == mnemonic(up@),
{
    if chars_equal(up, "LIL") {
        Some(Mnemonic::Lil)
    } else if chars_equal(up, "LIH") {
        Some(Mnemonic::Lih)
    } else if chars_equal(up, "ADD") {
        Some(Mnemonic::Add)
    } else if chars_equal(up, "NAND") {
        Some(Mnemonic::Nand)
    } else if chars_equal(up, "IOR") {
        Some(Mnemonic::Ior)
    } else if chars_equal(up, "IOW") {
        Some(Mnemonic::Iow)
    } else if chars_equal(up, "LOA") {
        Some(Mnemonic::Loa)
    } else if chars_equal(up, "STO") {
        Some(Mnemonic::Sto)
    } else if chars_equal(up, "SKL") {
        Some(Mnemonic::Skl)
    } else if chars_equal(up, "SWP") {
        Some(Mnemonic::Swp)
    } else if chars_equal(up, "LIR") {
        Some(Mnemonic::Lir)
    } else if chars_equal(up, "JMP") {
        Some(Mnemonic::Jmp)
    } else if chars_equal(up, "CALL") {
        Some(Mnemonic::Call)
    } else if chars_equal(up, "RET") {
        Some(Mnemonic::Ret)
    } else {
        None
    }
}

/// The opcode of a register-mode machine instruction.
pub open spec fn reg_opcode(m: Mnemonic) -> u8 {
    match m {
        Mnemonic::Add => 0b1000,
        Mnemonic::Nand => 0b1001,
        Mnemonic::Ior => 0b1010,
        Mnemonic::Iow => 0b1011,
        Mnemonic::Loa => 0b1100,
        Mnemonic::Sto => 0b1101,
        Mnemonic::Skl => 0b1110,
        _ => 0b1111,
    }
}

/// `IOW` and `STO` take their operands in the other order.
pub open spec fn swaps_operands(m: Mnemonic) -> bool {
    m == Mnemonic::Iow || m == Mnemonic::Sto
}

pub open spec fn is_register_op(m: Mnemonic) -> bool {
    match m {
        Mnemonic::Add | Mnemonic::Nand | Mnemonic::Ior | Mnemonic::Iow | Mnemonic::Loa
        | Mnemonic::Sto | Mnemonic::Skl | Mnemonic::Swp => true,
        _ => false,
    }
}

// ---------------------------------------------------------------- the model

/// A reference to a label, to be patched into the byte at `offset`.
pub struct FixupView {
    pub offset: int,
    pub label: Seq<char>,
    pub high: bool,
}

/// The state of a generator: the next free address, the memory image, the
/// labels in the order they were defined, and the references to patch.
pub struct GenView {
    pub index: u8,
    pub output: Seq<u8>,
    pub labels: Seq<(Seq<char>, u8)>,
    pub fixups: Seq<FixupView>,
}

/// The address of a label: its latest definition wins.
pub open spec fn label_value(labels: Seq<(Seq<char>, u8)>, name: Seq<char>) -> Option<u8>
    decreases labels.len(),
{
    if labels.len() == 0 {
        None
    } else if labels.last().0 == name {
        Some(labels.last().1)
    } else {
        label_value(labels.drop_last(), name)
    }
}

/// Emitting one byte; the address counter is a byte, so emitting at 255
/// overflows it and stops the program (`None`).
pub open spec fn push_byte(s: GenView, b: u8) -> Option<GenView> {
    if s.index >= 255 {
        None
    } else {
        Some(GenView { output: s.output.update(s.index as int, b), index: (s.index + 1) as u8, ..s })
    }
}

/// The byte for an immediate-mode instruction whose operand is an
/// immediate or a label; a label is recorded for patching and encoded as
/// zero. A register there stops the program (`None`).
pub open spec fn imm_or_label(s: GenView, opcode: u8, a: u8, arg: ArgView, high: bool) -> Option<
    (GenView, u8),
> {
    match arg {
        ArgView::Immediate(i) => Some((s, imm_encoding(opcode, a, i, high))),
        ArgView::Label(l) => Some(
            (
                GenView {
                    fixups: s.fixups.push(FixupView { offset: s.index as int, label: l, high }),
                    ..s
                },
                imm_encoding(opcode, a, 0, false),
            ),
        ),
        ArgView::Register(_) => None,
    }
}

/// Emits one immediate-mode instruction.
pub open spec fn emit_imm(s: GenView, opcode: u8, a: u8, arg: ArgView, high: bool) -> Option<GenView> {
    match imm_or_label(s, opcode, a, arg, high) {
        None => None,
        Some((s1, v)) => push_byte(s1, v),
    }
}

/// `LIR`: an `LIL` with the low nibble followed by an `LIH` with the high one.
pub open spec fn emit_lir(s: GenView, a: u8, arg: ArgView) -> Option<GenView> {
    match emit_imm(s, 0, a, arg, false) {
        None => None,
        Some(s1) => emit_imm(s1, 1, a, arg, true),
    }
}

/// What emitting an instruction does to the generator.
pub enum EmitView {
    Done(GenView),
    /// Unknown mnemonic or arguments of the wrong kinds: nothing is emitted.
    Refused,
    /// The program stops.
    Panic,
}

pub open spec fn done_or_panic(o: Option<GenView>) -> EmitView {
    match o {
        Some(s) => EmitView::Done(s),
        None => EmitView::Panic,
    }
}

/// Emitting the instruction `op` (matched case-insensitively, by its
/// upper-case form) with arguments `args`.
pub open spec fn emit(s: GenView, op: Seq<char>, args: Seq<ArgView>) -> EmitView {
    let reg_then_any = args.len() == 2 && args[0] is Register;
    let two_regs = reg_then_any && args[1] is Register;
    let one_reg = args.len() == 1 && args[0] is Register;
    match mnemonic(upper_name(op)) {
        None => EmitView::Refused,
        Some(m) => {
            if m == Mnemonic::Lil && reg_then_any {
                done_or_panic(emit_imm(s, 0, args[0]->Register_0, args[1], false))
            } else if m == Mnemonic::Lih && reg_then_any {
                done_or_panic(emit_imm(s, 1, args[0]->Register_0, args[1], true))
            } else if is_register_op(m) && two_regs {
                let a = args[0]->Register_0;
                let b = args[1]->Register_0;
                if swaps_operands(m) {
                    done_or_panic(push_byte(s, reg_encoding(reg_opcode(m), b, a)))
                } else {
                    done_or_panic(push_byte(s, reg_encoding(reg_opcode(m), a, b)))
                }
            } else if m == Mnemonic::Lir && reg_then_any {
                done_or_panic(emit_lir(s, args[0]->Register_0, args[1]))
            } else if (m == Mnemonic::Jmp || m == Mnemonic::Call) && reg_then_any {
                let c = args[0]->Register_0;
                match emit_lir(s, c, args[1]) {
                    None => EmitView::Panic,
                    Some(s1) => done_or_panic(push_byte(s1, reg_encoding(0b1111, c, 3))),
                }
            } else if (m == Mnemonic::Jmp || m == Mnemonic::Call || m == Mnemonic::Ret) && one_reg {
                done_or_panic(push_byte(s, reg_encoding(0b1111, args[0]->Register_0, 3)))
            } else {
                EmitView::Refused
            }
        },
    }
}

/// Reading the tokens in order, until one is refused.
pub enum RunView {
    Done(GenView),
    /// The instruction named `op` was refused in state `s`.
    Failed(GenView, Seq<char>),
    Panic,
}

/// Reads tokens: a label takes the current address, a byte is emitted as
/// is, an instruction is emitted, and a directive stops the program.
pub open spec fn run(s: GenView, toks: Seq<TokenView>) -> RunView
    decreases toks.len(),
{
    if toks.len() == 0 {
        RunView::Done(s)
    } else {
        let rest = toks.drop_first();
        match toks[0] {
            TokenView::Label(name) => run(GenView { labels: s.labels.push((name, s.index)), ..s }, rest),
            TokenView::Instruction(op, args) => match emit(s, op, args) {
                EmitView::Done(s1) => run(s1, rest),
                EmitView::Refused => RunView::Failed(s, op),
                EmitView::Panic => RunView::Panic,
            },
            TokenView::Byte(b) => match push_byte(s, b) {
                Some(s1) => run(s1, rest),
                None => RunView::Panic,
            },
            TokenView::Directive(_) => RunView::Panic,
        }
    }
}

/// The byte at a patched address: the immediate bits of the instruction
/// replaced with a nibble of the label's address.
pub open spec fn patched(byte: u8, address: u8, high: bool) -> u8 {
    ((byte & 0b1100_1100u8) | spread(nibble_of(address, high))) as u8
}

/// Patches the references `fixups[i..]` in order; a reference to a label
/// that was never defined stops the program (`None`).
pub open spec fn resolve(out: Seq<u8>, labels: Seq<(Seq<char>, u8)>, fixups: Seq<FixupView>, i: int) -> Option<
    Seq<u8>,
>
    decreases fixups.len() - i,
{
    if i < 0 || i >= fixups.len() {
        Some(out)
    } else {
        let f = fixups[i];
        match label_value(labels, f.label) {
            None => None,
            Some(v) => resolve(out.update(f.offset, patched(out[f.offset], v, f.high)), labels, fixups, i + 1),
        }
    }
}

/// What `assemble` does.
pub enum AssembleView {
    /// The generator afterwards, the memory image and the number of bytes used.
    Assembled(GenView, Seq<u8>, u8),
    /// The generator afterwards and the refused instruction's name.
    Refused(GenView, Seq<char>),
    Panic,
}

/// An empty memory image.
pub open spec fn zeroed() -> Seq<u8> {
    Seq::new(256, |i: int| 0u8)
}

/// Assembling `toks` from state `s`: the tokens are read, then every label
/// reference is patched; the image is handed out and the generator keeps a
/// zeroed image, its address counter, its labels and its references.
pub open spec fn assemble_from(s: GenView, toks: Seq<TokenView>) -> AssembleView {
    match run(s, toks) {
        RunView::Panic => AssembleView::Panic,
        RunView::Failed(s1, op) => AssembleView::Refused(s1, op),
        RunView::Done(s1) => match resolve(s1.output, s1.labels, s1.fixups, 0) {
            None => AssembleView::Panic,
            Some(image) => AssembleView::Assembled(GenView { output: zeroed(), ..s1 }, image, s1.index),
        },
    }
}

// ---------------------------------------------------------------- the generator

#[derive(Clone, Copy)]
enum Nibble {
    Low,
    High,
}

struct Fixup {
    offset: u8,
    label: String,
    nibble: Nibble,
}

impl Fixup {
    spec fn view(&self) -> FixupView {
        FixupView { offset: self.offset as int, label: self.label@, high: self.nibble is High }
    }
}

/// Why the assembler refused a program.
#[derive(Debug, Clone, PartialEq, Eq)]
pub enum AsmError {
    /// An unknown instruction, or one with arguments of the wrong kinds; holds its name.
    UnknownInstruction(String),
}

impl AsmError {
    /// The error's message, as the assembler words it.
    pub fn message(&self) -> (m: String)
        ensures
            match self {
                AsmError::UnknownInstruction(op) => m@ == "unknown instruction or bad args: "@ + op@,
            },
    {
        match self {
            AsmError::UnknownInstruction(op) => concat("unknown instruction or bad args: ", op.as_str()),
        }
    }
}

/// The assembler's state.
pub struct Generator {
    index: u8,
    output: [u8; 256],
    labels: Vec<(String, u8)>,
    fixups: Vec<Fixup>,
}

fn is_register(a: &InstructionArg) -> (r: bool)
    ensures
        r == (a is Register),
{
    match a {
        InstructionArg::Register(_) => true,
        _ => false,
    }
}

enum Emitted {
    Done,
    Refused,
    Panic,
}

impl Generator {
    pub closed spec fn view(&self) -> GenView {
        GenView {
            index: self.index,
            output: self.output@,
            labels: self.labels@.map_values(|p: (String, u8)| (p.0@, p.1)),
            fixups: self.fixups@.map_values(|f: Fixup| f.view()),
        }
    }

    /// A generator at address 0 with a zeroed image, no labels and no references.
    pub fn new() -> (g: Generator)
        ensures
            g.view() == (GenView { index: 0, output: zeroed(), labels: Seq::empty(), fixups: Seq::empty() }),
    {
        let g = Generator { index: 0, output: [0u8; 256], labels: Vec::new(), fixups: Vec::new() };
        assert(g.view().output =~= zeroed());
        assert(g.view().labels =~= Seq::empty());
        assert(g.view().fixups =~= Seq::empty());
        g
    }

    fn push(&mut self, value: u8)
        requires
            old(self).index < 255,
        ensures
            push_byte(old(self).view(), value) == Some(final(self).view()),
    {
        self.output[self.index as usize] = value;
        self.index = self.index + 1;
        assert(self.view().labels =~= old(self).view().labels);
        assert(self.view().fixups =~= old(self).view().fixups);
    }

    fn encode_imm_or_label(&mut self, opcode: u8, r_a: u8, arg: &InstructionArg, nibble: Nibble) -> (r: u8)
        requires
            !(arg is Register),
        ensures
            imm_or_label(old(self).view(), opcode, r_a, arg@, nibble is High) == Some((final(self).view(), r)),
    {
        match arg {
            InstructionArg::Immediate(i) => {
                let high = match nibble {
                    Nibble::High => true,
                    Nibble::Low => false,
                };
                encode_imm(opcode, r_a, *i, high)
            },
            InstructionArg::Label(label) => {
                let ghost before = self.view();
                let f = Fixup { offset: self.index, label: label.clone(), nibble };
                self.fixups.push(f);
                assert(self.view().fixups =~= before.fixups.push(f.view()));
                assert(self.view().labels =~= before.labels);
                encode_imm(opcode, r_a, 0, false)
            },
            InstructionArg::Register(_) => 0,
        }
    }

    /// `emit_imm`, or `false` where the program would stop.
    fn emit_imm(&mut self, opcode: u8, r_a: u8, arg: &InstructionArg, high: bool) -> (ok: bool)
        ensures
            ok ==> emit_imm(old(self).view(), opcode, r_a, arg@, high) == Some(final(self).view()),
            !ok ==> emit_imm(old(self).view(), opcode, r_a, arg@, high) is None,
    {
        if is_register(arg) {
            return false;
        }
        let nibble = if high {
            Nibble::High
        } else {
            Nibble::Low
        };
        let val = self.encode_imm_or_label(opcode, r_a, arg, nibble);
        if self.index == 255 {
            return false;
        }
        self.push(val);
        true
    }

    fn encode_lir(&mut self, r_a: u8, arg: &InstructionArg) -> (ok: bool)
        ensures
            ok ==> emit_lir(old(self).view(), r_a, arg@) == Some(final(self).view()),
            !ok ==> emit_lir(old(self).view(), r_a, arg@) is None,
    {
        if !self.emit_imm(0b00, r_a, arg, false) {
            return false;
        }
        self.emit_imm(0b01, r_a, arg, true)
    }

    fn push_checked(&mut self, value: u8) -> (r: Emitted)
        ensures
            r is Done ==> push_byte(old(self).view(), value) == Some(final(self).view()),
            r is Panic ==> push_byte(old(self).view(), value) is None,
            !(r is Refused),
    {
        if self.index == 255 {
            return Emitted::Panic;
        }
        self.push(value);
        Emitted::Done
    }

    fn emit_instruction(&mut self, op: &String, args: &Vec<InstructionArg>) -> (r: Emitted)
        ensures
            r is Done ==> emit(old(self).view(), op@, args_view(args@)) == EmitView::Done(final(self).view()),
            r is Refused ==> emit(old(self).view(), op@, args_view(args@)) is Refused
                && final(self).view() == old(self).view(),
            r is Panic ==> emit(old(self).view(), op@, args_view(args@)) is Panic,
    {
        let ghost av = args_view(args@);
        let up = to_uppercase(op.as_str());
        assert(up@ == upper_name(op@));
        let up_chars = chars_of(up.as_str());
        let m = match mnemonic_exec(&up_chars) {
            None => {
                return Emitted::Refused;
            },
            Some(m) => m,
        };
        let n = args.len();
        let reg_then_any = n == 2 && is_register(&args[0]);
        let two_regs = reg_then_any && is_register(&args[1]);
        let one_reg = n == 1 && is_register(&args[0]);
        assert(reg_then_any == (av.len() == 2 && av[0] is Register));
        assert(two_regs == (av.len() == 2 && av[0] is Register && av[1] is Register));
        assert(one_reg == (av.len() == 1 && av[0] is Register));
        if m == Mnemonic::Lil && reg_then_any {
            let a = match &args[0] {
                InstructionArg::Register(a) => *a,
                _ => 0,
            };
            if self.emit_imm(0b00, a, &args[1], false) {
                Emitted::Done
            } else {
                Emitted::Panic
            }
        } else if m == Mnemonic::Lih && reg_then_any {
            let a = match &args[0] {
                InstructionArg::Register(a) => *a,
                _ => 0,
            };
            if self.emit_imm(0b01, a, &args[1], true) {
                Emitted::Done
            } else {
                Emitted::Panic
            }
        } else if two_regs && (m == Mnemonic::Add || m == Mnemonic::Nand || m == Mnemonic::Ior || m
            == Mnemonic::Iow || m == Mnemonic::Loa || m == Mnemonic::Sto || m == Mnemonic::Skl || m
            == Mnemonic::Swp) {
            let a = match &args[0] {
                InstructionArg::Register(a) => *a,
                _ => 0,
            };
            let b = match &args[1] {
                InstructionArg::Register(b) => *b,
                _ => 0,
            };
            let opcode: u8 = match m {
                Mnemonic::Add => 0b1000,
                Mnemonic::Nand => 0b1001,
                Mnemonic::Ior => 0b1010,
                Mnemonic::Iow => 0b1011,
                Mnemonic::Loa => 0b1100,
                Mnemonic::Sto => 0b1101,
                Mnemonic::Skl => 0b1110,
                _ => 0b1111,
            };
            if m == Mnemonic::Iow || m == Mnemonic::Sto {
                self.push_checked(encode_reg(opcode, b, a))
            } else {
                self.push_checked(encode_reg(opcode, a, b))
            }
        } else if m == Mnemonic::Lir && reg_then_any {
            let a = match &args[0] {
                InstructionArg::Register(a) => *a,
                _ => 0,
            };
            if self.encode_lir(a, &args[1]) {
                Emitted::Done
            } else {
                Emitted::Panic
            }
        } else if (m == Mnemonic::Jmp || m == Mnemonic::Call) && reg_then_any {
            let clobber = match &args[0] {
                InstructionArg::Register(a) => *a,
                _ => 0,
            };
            if !self.encode_lir(clobber, &args[1]) {
                return Emitted::Panic;
            }
            self.push_checked(encode_reg(0b1111, clobber, 0x3))
        } else if (m == Mnemonic::Jmp || m == Mnemonic::Call || m == Mnemonic::Ret) && one_reg {
            let dest = match &args[0] {
                InstructionArg::Register(a) => *a,
                _ => 0,
            };
            self.push_checked(encode_reg(0b1111, dest, 0x3))
        } else {
            Emitted::Refused
        }
    }

    /// The address of label `name`, as `label_value` gives it.
    fn find_label(&self, name: &String) -> (r: Option<u8>)
        ensures
            r == label_value(self.view().labels, name@),
    {
        let ghost all = self.view().labels;
        let mut i = self.labels.len();
        assert(all.take(i as int) =~= all);
        while i > 0
            invariant
                i <= self.labels@.len(),
                all == self.view().labels,
                label_value(all, name@) == label_value(all.take(i as int), name@),
            decreases i,
        {
            assert(all.take(i as int).drop_last() =~= all.take(i - 1));
            if self.labels[i - 1].0 == *name {
                return Some(self.labels[i - 1].1);
            }
            i = i - 1;
        }
        assert(all.take(0) =~= Seq::<(Seq<char>, u8)>::empty());
        None
    }

    /// Patches every label reference; `false` where an undefined label
    /// would stop the program.
    fn resolve_fixups(&mut self) -> (ok: bool)
        ensures
            final(self).view().index == old(self).view().index,
            final(self).view().labels == old(self).view().labels,
            final(self).view().fixups == old(self).view().fixups,
            ok ==> resolve(old(self).view().output, old(self).view().labels, old(self).view().fixups, 0)
                == Some(final(self).view().output),
            !ok ==> resolve(old(self).view().output, old(self).view().labels, old(self).view().fixups, 0)
                is None,
    {
        let ghost s0 = self.view();
        let mut i: usize = 0;
        while i < self.fixups.len()
            invariant
                i <= self.fixups@.len(),
                self.view().index == s0.index,
                self.view().labels == s0.labels,
                self.view().fixups == s0.fixups,
                self.view().output.len() == 256,
                s0 == old(self).view(),
                resolve(s0.output, s0.labels, s0.fixups, 0) == resolve(self.view().output, s0.labels, s0.fixups, i as int),
            decreases self.fixups@.len() - i,
        {
            let offset = self.fixups[i].offset as usize;
            let high = match self.fixups[i].nibble {
                Nibble::High => true,
                Nibble::Low => false,
            };
            let label = match self.find_label(&self.fixups[i].label) {
                Some(v) => v,
                None => {
                    return false;
                },
            };
            let mut instruction = self.output[offset];
            instruction = instruction & 0b11001100u8;
            let nibble = if high {
                (label & 0xf0u8) >> 4u8
            } else {
                label & 0x0fu8
            };
            instruction = instruction | (((nibble & 0b1100u8) << 2u8) | (nibble & 0b0011u8));
            let ghost before = self.view();
            self.output[offset] = instruction;
            assert(self.view().labels =~= before.labels);
            assert(self.view().fixups =~= before.fixups);
            assert(self.view().output == before.output.update(offset as int, patched(before.output[offset as int], label, high)));
            i = i + 1;
        }
        true
    }

    /// A copy of this generator.
    fn duplicate(&self) -> (g: Generator)
        ensures
            g.view() == self.view(),
    {
        let mut labels: Vec<(String, u8)> = Vec::new();
        let mut i: usize = 0;
        while i < self.labels.len()
            invariant
                i <= self.labels@.len(),
                labels@.len() == i,
                forall|j: int| 0 <= j < i ==> #[trigger] labels@[j].0@ == self.labels@[j].0@ && labels@[j].1 == self.labels@[j].1,
            decreases self.labels@.len() - i,
        {
            let name = self.labels[i].0.clone();
            labels.push((name, self.labels[i].1));
            i = i + 1;
        }
        assert(labels@.map_values(|p: (String, u8)| (p.0@, p.1)) =~= self.labels@.map_values(|p: (String, u8)| (p.0@, p.1)));
        let mut fixups: Vec<Fixup> = Vec::new();
        let mut i: usize = 0;
        while i < self.fixups.len()
            invariant
                i <= self.fixups@.len(),
                fixups@.len() == i,
                forall|j: int| 0 <= j < i ==> #[trigger] fixups@[j].view() == self.fixups@[j].view(),
            decreases self.fixups@.len() - i,
        {
            let f = &self.fixups[i];
            fixups.push(Fixup { offset: f.offset, label: f.label.clone(), nibble: f.nibble });
            i = i + 1;
        }
        assert(fixups@.map_values(|f: Fixup| f.view()) =~= self.fixups@.map_values(|f: Fixup| f.view()));
        Generator { index: self.index, output: self.output, labels, fixups }
    }

    /// Assembles `tokens`; `None` where the program would stop.
    fn run_checked(&mut self, tokens: &Vec<Token>) -> (r: Option<Result<([u8; 256], u8), AsmError>>)
        ensures
            outcome_matches(assemble_from(old(self).view(), tokens_view(tokens@)), final(self).view(), r),
    {
        let ghost s0 = self.view();
        let ghost toks = tokens_view(tokens@);
        let n = tokens.len();
        let mut i: usize = 0;
        assert(toks.subrange(0, n as int) =~= toks);
        while i < n
            invariant
                n == tokens@.len() == toks.len(),
                i <= n,
                toks == tokens_view(tokens@),
                s0 == old(self).view(),
                run(s0, toks) == run(self.view(), toks.subrange(i as int, n as int)),
            decreases n - i,
        {
            let ghost cur = self.view();
            let ghost rest = toks.subrange(i as int, n as int);
            assert(rest.drop_first() =~= toks.subrange(i + 1, n as int));
            assert(rest[0] == tokens@[i as int]@);
            match &tokens[i] {
                Token::Label(name) => {
                    let name = name.clone();
                    let ghost before = self.view();
                    self.labels.push((name, self.index));
                    assert(self.view().labels =~= before.labels.push((name@, before.index)));
                    assert(self.view().fixups =~= before.fixups);
                },
                Token::Instruction(op, args) => {
                    match self.emit_instruction(op, args) {
                        Emitted::Done => {},
                        Emitted::Refused => {
                            return Some(Err(AsmError::UnknownInstruction(op.clone())));
                        },
                        Emitted::Panic => {
                            return None;
                        },
                    }
                },
                Token::Byte(b) => {
                    if self.index == 255 {
                        return None;
                    }
                    self.push(*b);
                },
                Token::Directive(_) => {
                    return None;
                },
            }
            i = i + 1;
        }
        assert(toks.subrange(n as int, n as int) =~= Seq::<TokenView>::empty());
        if !self.resolve_fixups() {
            return None;
        }
        let image = self.output;
        let ghost before = self.view();
        self.output = [0u8; 256];
        assert(self.view().output =~= zeroed());
        assert(self.view().labels =~= before.labels);
        assert(self.view().fixups =~= before.fixups);
        Some(Ok((image, self.index)))
    }

    /// Assembles `tokens` into a 256-byte image and the number of bytes
    /// used. The generator keeps its address counter, labels and label
    /// references, and starts a fresh image. An unknown instruction, or one
    /// with arguments of the wrong kinds, is refused, leaving the generator
    /// as it was when it reached it.
    pub fn assemble(&mut self, tokens: Vec<Token>) -> (r: Result<([u8; 256], u8), AsmError>)
        requires
            !(assemble_from(old(self).view(), tokens_view(tokens@)) is Panic),
        ensures
            outcome_matches(assemble_from(old(self).view(), tokens_view(tokens@)), final(self).view(), Some(r)),
    {
        match self.run_checked(&tokens) {
            Some(r) => r,
            None => Ok(([0u8; 256], 0)),
        }
    }

    /// Whether assembling `tokens` would stop the program: a directive, a
    /// register where an immediate or label belongs, more than 255 bytes,
    /// or a reference to a label that is never defined.
    pub fn would_panic(&self, tokens: &Vec<Token>) -> (r: bool)
        ensures
            r == (assemble_from(self.view(), tokens_view(tokens@)) is Panic),
    {
        let mut probe = self.duplicate();
        match probe.run_checked(tokens) {
            None => true,
            Some(_) => false,
        }
    }

    /// `assemble`, or `None` (and the generator unchanged) where assembling
    /// would stop the program.
    pub fn try_assemble(&mut self, tokens: Vec<Token>) -> (r: Option<Result<([u8; 256], u8), AsmError>>)
        ensures
            r is None <==> assemble_from(old(self).view(), tokens_view(tokens@)) is Panic,
            r is None ==> final(self).view() == old(self).view(),
            outcome_matches(assemble_from(old(self).view(), tokens_view(tokens@)), final(self).view(), r),
    {
        if self.would_panic(&tokens) {
            return None;
        }
        Some(self.assemble(tokens))
    }
}

/// `r` is what `assemble_from` describes, with `g` the generator afterwards.
pub open spec fn outcome_matches(
    a: AssembleView,
    g: GenView,
    r: Option<Result<([u8; 256], u8), AsmError>>,
) -> bool {
    match r {
        None => a is Panic,
        Some(Ok((image, n))) => a == AssembleView::Assembled(g, image@, n),
        Some(Err(AsmError::UnknownInstruction(op))) => a == AssembleView::Refused(g, op@),
    }
}

} // verus!

verus! {

/// The state of a new generator.
pub open spec fn fresh() -> GenView {
    GenView { index: 0, output: zeroed(), labels: Seq::empty(), fixups: Seq::empty() }
}

/// Byte tokens for each of `bytes`.
pub open spec fn byte_tokens(bytes: Seq<u8>) -> Seq<TokenView> {
    bytes.map_values(|b: u8| TokenView::Byte(b))
}

/// `out` with `bytes` written from address `k` on.
pub open spec fn written(out: Seq<u8>, k: int, bytes: Seq<u8>) -> Seq<u8> {
    Seq::new(out.len(), |j: int| if k <= j < k + bytes.len() { bytes[j - k] } else { out[j] })
}

pub proof fn lemma_run_bytes(s: GenView, bytes: Seq<u8>, i: int, rest: Seq<TokenView>)
    requires
        0 <= i <= bytes.len(),
        s.output.len() == 256,
        s.index + bytes.len() - i <= 255,
    ensures
        run(s, byte_tokens(bytes).subrange(i, bytes.len() as int) + rest) == run(
            GenView {
                index: (s.index + bytes.len() - i) as u8,
                output: written(s.output, s.index as int, bytes.subrange(i, bytes.len() as int)),
                ..s
            },
            rest,
        ),
    decreases bytes.len() - i,
{
    let toks = byte_tokens(bytes).subrange(i, bytes.len() as int) + rest;
    if i == bytes.len() {
        assert(toks =~= rest);
        assert(written(s.output, s.index as int, bytes.subrange(i, bytes.len() as int)) =~= s.output);
        assert(GenView { index: (s.index + bytes.len() - i) as u8, output: s.output, ..s } == s);
    } else {
        assert(toks[0] == TokenView::Byte(bytes[i]));
        assert(toks.drop_first() =~= byte_tokens(bytes).subrange(i + 1, bytes.len() as int) + rest);
        let s1 = GenView { output: s.output.update(s.index as int, bytes[i]), index: (s.index + 1) as u8, ..s };
        assert(push_byte(s, bytes[i]) == Some(s1));
        lemma_run_bytes(s1, bytes, i + 1, rest);
        assert(written(s1.output, s1.index as int, bytes.subrange(i + 1, bytes.len() as int)) =~= written(
            s.output,
            s.index as int,
            bytes.subrange(i, bytes.len() as int),
        ));
    }
}

/// Bytes are copied as they are: a new generator assembles a run of byte
/// tokens (at most 255) into an image that starts with those bytes and is
/// zero after them, and reports their number as the size.
pub proof fn law_bytes_assemble_verbatim(bytes: Seq<u8>)
    requires
        bytes.len() <= 255,
    ensures
        assemble_from(fresh(), byte_tokens(bytes)) == AssembleView::Assembled(
            GenView { index: bytes.len() as u8, ..fresh() },
            bytes + Seq::new((256 - bytes.len()) as nat, |j: int| 0u8),
            bytes.len() as u8,
        ),
{
    lemma_run_bytes(fresh(), bytes, 0, Seq::empty());
    assert(byte_tokens(bytes).subrange(0, bytes.len() as int) + Seq::empty() =~= byte_tokens(bytes));
    assert(bytes.subrange(0, bytes.len() as int) =~= bytes);
    assert(written(zeroed(), 0, bytes) =~= bytes + Seq::new((256 - bytes.len()) as nat, |j: int| 0u8));
}

} // verus!
