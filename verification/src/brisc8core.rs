//! The BRISC8 processor core: 256 bytes of memory, four registers (register 3
//! is the program counter) and up to 256 peripherals on the I/O bus.
use vstd::prelude::*;
use crate::isa::{Instruction, decode, decode_byte, signed};

verus! {

/// A device on the I/O bus, implemented by users of the core.
pub trait Peripheral {
    /// Called once per cycle, before the instruction runs.
    fn do_cycle(&mut self);

    /// A write of `value` to bus address `addr`.
    fn do_write(&mut self, addr: u8, value: u8);

    /// A read from bus address `addr`.
    fn do_read(&mut self, addr: u8) -> u8;
}

/// The program counter is register 3.
pub const PC: usize = 3;

/// The state of the core as contracts see it.
pub struct CoreView {
    pub memory: Seq<u8>,
    pub registers: Seq<u8>,
    /// `attached[p]` when a peripheral sits at bus address `p`.
    pub attached: Seq<bool>,
}

pub struct Brisc8core {
    memory: [u8; 256],
    registers: [u8; 4],
    peripherals: Vec<Option<Box<dyn Peripheral>>>,
    /// The calls made on the peripherals so far, in order.
    bus: Ghost<Seq<BusEvent>>,
}

/// One call on a peripheral, with its bus address.
pub enum BusEvent {
    /// `do_cycle`.
    Cycle(u8),
    /// `do_read`, with the value it returned.
    Read(u8, u8),
    /// `do_write`, with the value written.
    Write(u8, u8),
}

/// A cycle for each bus address below `n` with a peripheral attached, in
/// increasing order of address.
pub open spec fn cycle_events(attached: Seq<bool>, n: int) -> Seq<BusEvent>
    decreases n,
{
    if n <= 0 {
        Seq::empty()
    } else if attached[n - 1] {
        cycle_events(attached, n - 1).push(BusEvent::Cycle((n - 1) as u8))
    } else {
        cycle_events(attached, n - 1)
    }
}

/// The register file after the fetch, which advances the program counter.
pub open spec fn fetched_registers(v: CoreView) -> Seq<u8> {
    v.registers.update(PC as int, (v.registers[PC as int] + 1) as u8)
}

/// The byte at the program counter.
pub open spec fn current_opcode(v: CoreView) -> u8 {
    v.memory[v.registers[PC as int] as int]
}

/// The bus address that an IOR or IOW of the current instruction talks to.
pub open spec fn io_port(v: CoreView) -> u8 {
    fetched_registers(v)[(current_opcode(v) & 3u8) as int]
}

/// The current instruction is an IOR from an address with a peripheral,
/// so its result is the value that the peripheral returns.
pub open spec fn reads_peripheral(v: CoreView) -> bool {
    decode(current_opcode(v)) is Ior && v.attached[io_port(v) as int]
}

/// The current instruction is an IOW to an address with a peripheral.
pub open spec fn writes_peripheral(v: CoreView) -> bool {
    decode(current_opcode(v)) is Iow && v.attached[io_port(v) as int]
}

/// The current instruction is an IOR or an IOW: it talks to the bus address
/// `io_port(v)`.
pub open spec fn uses_port(v: CoreView) -> bool {
    decode(current_opcode(v)) is Ior || decode(current_opcode(v)) is Iow
}

/// Running the current instruction would advance the program counter past 255.
pub open spec fn cycle_overflows(v: CoreView) -> bool {
    let pc = v.registers[PC as int];
    let regs = fetched_registers(v);
    pc == 255 || match decode(current_opcode(v)) {
        Instruction::Skl { a, b } => signed(regs[a as int]) < signed(regs[b as int]) && regs[PC as int] == 255,
        _ => false,
    }
}

/// The call that the current instruction makes on a peripheral, where
/// `io_value` is what an IOR's `do_read` returns: a read from an address with
/// a peripheral, a write of `rA` to one, or nothing.
pub open spec fn io_events(v: CoreView, io_value: u8) -> Seq<BusEvent> {
    if reads_peripheral(v) {
        seq![BusEvent::Read(io_port(v), io_value)]
    } else if writes_peripheral(v) {
        match decode(current_opcode(v)) {
            Instruction::Iow { a, b } => seq![BusEvent::Write(io_port(v), fetched_registers(v)[a as int])],
            _ => Seq::empty(),
        }
    } else {
        Seq::empty()
    }
}

/// The state after one instruction, where `io_value` is what a peripheral
/// answers to an IOR (it is not used otherwise).
pub open spec fn after_instruction(v: CoreView, io_value: u8) -> CoreView {
    let regs = fetched_registers(v);
    let mem = v.memory;
    match decode(current_opcode(v)) {
        Instruction::Lil { a, imm } => CoreView { registers: regs.update(a as int, imm), ..v },
        Instruction::Lih { a, imm } => CoreView {
            registers: regs.update(a as int, ((imm << 4u8) | (regs[a as int] & 0x0fu8)) as u8),
            ..v
        },
        Instruction::Add { a, b } => CoreView {
            registers: regs.update(a as int, ((regs[a as int] + regs[b as int]) % 256) as u8),
            ..v
        },
        Instruction::Nand { a, b } => CoreView {
            registers: regs.update(a as int, !(regs[a as int] & regs[b as int])),
            ..v
        },
        Instruction::Ior { a, b } => CoreView {
            registers: if v.attached[regs[b as int] as int] { regs.update(a as int, io_value) } else { regs },
            ..v
        },
        Instruction::Iow { a, b } => CoreView { registers: regs, ..v },
        Instruction::Loa { a, b } => CoreView {
            registers: regs.update(a as int, mem[regs[b as int] as int]),
            ..v
        },
        Instruction::Sto { a, b } => CoreView {
            registers: regs,
            memory: mem.update(regs[b as int] as int, regs[a as int]),
            ..v
        },
        Instruction::Skl { a, b } => CoreView {
            registers: if signed(regs[a as int]) < signed(regs[b as int]) {
                regs.update(PC as int, (regs[PC as int] + 1) as u8)
            } else {
                regs
            },
            ..v
        },
        Instruction::Swp { a, b } => CoreView {
            registers: regs.update(a as int, regs[b as int]).update(b as int, regs[a as int]),
            ..v
        },
    }
}

impl Brisc8core {
    /// Every bus address has a peripheral slot.
    pub closed spec fn well_formed(&self) -> bool {
        self.peripherals@.len() == 256
    }

    /// The calls made on the peripherals so far, in order.
    pub closed spec fn bus_log(&self) -> Seq<BusEvent> {
        self.bus@
    }

    /// The peripheral attached at bus address `addr`, if any.
    pub closed spec fn peripheral_at(&self, addr: u8) -> Option<Box<dyn Peripheral>> {
        self.peripherals@[addr as int]
    }

    /// Memory has 256 bytes, there are four registers and 256 bus addresses.
    pub proof fn lemma_view_lengths(&self)
        ensures
            self.view().memory.len() == 256,
            self.view().registers.len() == 4,
            self.view().attached.len() == 256,
    {
    }

    /// The memory, registers and peripheral slots of the core.
    pub closed spec fn view(&self) -> CoreView {
        CoreView {
            memory: self.memory@,
            registers: self.registers@,
            attached: Seq::new(256, |i: int| self.peripherals@[i] is Some),
        }
    }

    /// A core with zeroed memory and registers and no peripherals.
    pub fn new() -> (core: Brisc8core)
        ensures
            core.view().memory == Seq::new(256, |i: int| 0u8),
            core.view().registers == Seq::new(4, |i: int| 0u8),
            core.view().attached == Seq::new(256, |i: int| false),
            core.bus_log() == Seq::<BusEvent>::empty(),
            core.well_formed(),
    {
        let mut peripherals: Vec<Option<Box<dyn Peripheral>>> = Vec::new();
        let mut i: usize = 0;
        while i < 256
            invariant
                i <= 256,
                peripherals@.len() == i,
                forall|j: int| 0 <= j < i ==> peripherals@[j] is None,
            decreases 256 - i,
        {
            peripherals.push(None);
            i = i + 1;
        }
        let core = Brisc8core { memory: [0u8; 256], registers: [0u8; 4], peripherals, bus: Ghost(Seq::empty()) };
        assert(core.view().memory =~= Seq::new(256, |i: int| 0u8));
        assert(core.view().registers =~= Seq::new(4, |i: int| 0u8));
        assert(core.view().attached =~= Seq::new(256, |i: int| false));
        core
    }

    /// Attaches `peripheral` at bus address `addr`, replacing any peripheral
    /// there; the other slots keep their peripherals.
    pub fn set_peripheral(&mut self, addr: u8, peripheral: Box<dyn Peripheral>)
        requires
            old(self).well_formed(),
        ensures
            final(self).well_formed(),
            final(self).view().memory == old(self).view().memory,
            final(self).view().registers == old(self).view().registers,
            final(self).view().attached == old(self).view().attached.update(addr as int, true),
            forall|j: u8| j != addr ==> #[trigger] final(self).peripheral_at(j) == old(self).peripheral_at(j),
            final(self).peripheral_at(addr) == Some(peripheral),
            final(self).bus_log() == old(self).bus_log(),
    {
        let slot = filled_slot(peripheral);
        self.peripherals[addr as usize] = slot;
        assert(self.view().attached =~= old(self).view().attached.update(addr as int, true));
    }

    /// Writes `data` to memory at `addr`.
    pub fn set_memory(&mut self, addr: u8, data: u8)
        requires
            old(self).well_formed(),
        ensures
            final(self).well_formed(),
            final(self).view() == (CoreView {
                memory: old(self).view().memory.update(addr as int, data),
                ..old(self).view()
            }),
            final(self).bus_log() == old(self).bus_log(),
            forall|j: u8| #[trigger] final(self).peripheral_at(j) == old(self).peripheral_at(j),
    {
        self.memory[addr as usize] = data;
        assert(self.view().attached =~= old(self).view().attached);
    }

    /// The byte of memory at `addr`.
    pub fn memory(&self, addr: u8) -> (b: u8)
        ensures b == self.view().memory[addr as int],
    {
        self.memory[addr as usize]
    }

    /// The four registers; the last is the program counter.
    pub fn registers(&self) -> (r: [u8; 4])
        ensures r@ == self.view().registers,
    {
        self.registers
    }

    /// Sets register `reg` to `value`.
    pub fn set_register(&mut self, reg: u8, value: u8)
        requires
            old(self).well_formed(),
            reg < 4,
        ensures
            final(self).well_formed(),
            final(self).view() == (CoreView {
                registers: old(self).view().registers.update(reg as int, value),
                ..old(self).view()
            }),
            final(self).bus_log() == old(self).bus_log(),
            forall|j: u8| #[trigger] final(self).peripheral_at(j) == old(self).peripheral_at(j),
    {
        self.registers[reg as usize] = value;
        assert(self.view().attached =~= old(self).view().attached);
    }

    /// Whether the next cycle would advance the program counter past 255.
    pub fn next_cycle_overflows(&self) -> (r: bool)
        ensures r == cycle_overflows(self.view()),
    {
        let pc = self.registers[PC];
        if pc == 255 {
            return true;
        }
        let op = self.memory[pc as usize];
        match decode_byte(op) {
            Instruction::Skl { a, b } => {
                let ra = if a == 3 { pc + 1 } else { self.registers[a as usize] };
                let rb = if b == 3 { pc + 1 } else { self.registers[b as usize] };
                less_signed(ra, rb) && pc + 1 == 255
            },
            _ => false,
        }
    }

    /// One cycle: every peripheral runs its cycle, in address order, then
    /// the instruction at the program counter runs.
    pub fn do_cycle(&mut self)
        requires
            old(self).well_formed(),
            !cycle_overflows(old(self).view()),
        ensures
            final(self).well_formed(),
            exists|io_value: u8|
                final(self).view() == after_instruction(old(self).view(), io_value) && final(self).bus_log()
                    == old(self).bus_log() + cycle_events(old(self).view().attached, 256) + io_events(
                    old(self).view(),
                    io_value,
                ),
            !reads_peripheral(old(self).view()) ==> final(self).view() == after_instruction(old(self).view(), 0)
                && final(self).bus_log() == old(self).bus_log() + cycle_events(old(self).view().attached, 256)
                + io_events(old(self).view(), 0),
    {
        self.do_peripherals();
        self.do_instruction();
    }

    /// Every attached peripheral runs one cycle, in increasing order of bus
    /// address; memory, registers and peripheral slots stay as they are.
    fn do_peripherals(&mut self)
        requires
            old(self).well_formed(),
        ensures
            final(self).well_formed(),
            final(self).view() == old(self).view(),
            final(self).bus_log() == old(self).bus_log() + cycle_events(old(self).view().attached, 256),
    {
        let ghost attached = old(self).view().attached;
        let mut i: usize = 0;
        while i < 256
            invariant
                i <= 256,
                self.peripherals@.len() == 256,
                self.memory == old(self).memory,
                self.registers == old(self).registers,
                forall|j: int| 0 <= j < 256 ==> (self.peripherals@[j] is Some <==> old(self).peripherals@[j] is Some),
                attached == old(self).view().attached,
                self.bus@ == old(self).bus@ + cycle_events(attached, i as int),
            decreases 256 - i,
        {
            let ran = match &mut self.peripherals[i] {
                Some(p) => {
                    p.do_cycle();
                    true
                },
                None => false,
            };
            assert(ran == attached[i as int]);
            if ran {
                self.bus = Ghost(self.bus@.push(BusEvent::Cycle(i as u8)));
            }
            assert(self.bus@ =~= old(self).bus@ + cycle_events(attached, i + 1));
            i = i + 1;
        }
        assert(self.view().attached =~= old(self).view().attached);
    }

    fn do_instruction(&mut self)
        requires
            old(self).well_formed(),
            !cycle_overflows(old(self).view()),
        ensures
            final(self).well_formed(),
            exists|io_value: u8|
                final(self).view() == after_instruction(old(self).view(), io_value) && final(self).bus_log()
                    == old(self).bus_log() + io_events(old(self).view(), io_value),
            !reads_peripheral(old(self).view()) ==> final(self).view() == after_instruction(old(self).view(), 0)
                && final(self).bus_log() == old(self).bus_log() + io_events(old(self).view(), 0),
            forall|j: u8|
                !(uses_port(old(self).view()) && j == io_port(old(self).view())) ==> #[trigger] final(self).peripheral_at(j)
                    == old(self).peripheral_at(j),
    {
        let ghost v = self.view();
        let pc = self.registers[PC];
        let op = self.memory[pc as usize];
        let b = op & 3u8;
        let a = (op >> 2u8) & 3u8;
        assert(a < 4 && b < 4) by (bit_vector)
            requires a == (op >> 2u8) & 3u8, b == op & 3u8;
        let port = if b == 3 { pc + 1 } else { self.registers[b as usize] };
        let value_a = if a == 3 { pc + 1 } else { self.registers[a as usize] };
        let mut io_value: u8 = 0;
        match decode_byte(op) {
            Instruction::Ior { .. } => {
                let read = match &mut self.peripherals[port as usize] {
                    Some(p) => {
                        io_value = p.do_read(port);
                        true
                    },
                    None => false,
                };
                if read {
                    self.bus = Ghost(self.bus@.push(BusEvent::Read(port, io_value)));
                }
            },
            Instruction::Iow { .. } => {
                let wrote = match &mut self.peripherals[port as usize] {
                    Some(p) => {
                        p.do_write(port, value_a);
                        true
                    },
                    None => false,
                };
                if wrote {
                    self.bus = Ghost(self.bus@.push(BusEvent::Write(port, value_a)));
                }
            },
            _ => {},
        }
        assert(self.view() == old(self).view()) by {
            assert(self.view().attached =~= old(self).view().attached);
        }
        assert(self.bus@ =~= old(self).bus@ + io_events(v, io_value));
        self.execute(io_value);
    }

    /// Runs the instruction at the program counter, where `io_value` stands
    /// for what the peripheral answers if the instruction is an IOR.
    pub fn execute(&mut self, io_value: u8)
        requires
            old(self).well_formed(),
            !cycle_overflows(old(self).view()),
        ensures
            final(self).well_formed(),
            final(self).view() == after_instruction(old(self).view(), io_value),
            final(self).bus_log() == old(self).bus_log(),
            forall|j: u8| #[trigger] final(self).peripheral_at(j) == old(self).peripheral_at(j),
    {
        let ghost v = self.view();
        let pc = self.registers[PC];
        let op = self.memory[pc as usize];
        self.registers[PC] = pc + 1;
        assert(self.registers@ == fetched_registers(v));
        match decode_byte(op) {
            Instruction::Lil { a, imm } => {
                self.registers[a as usize] = imm;
            },
            Instruction::Lih { a, imm } => {
                let r = self.registers[a as usize];
                self.registers[a as usize] = (imm << 4u8) | (r & 0x0fu8);
            },
            Instruction::Add { a, b } => {
                let r = self.registers[a as usize].wrapping_add(self.registers[b as usize]);
                self.registers[a as usize] = r;
            },
            Instruction::Nand { a, b } => {
                let r = !(self.registers[a as usize] & self.registers[b as usize]);
                self.registers[a as usize] = r;
            },
            Instruction::Ior { a, b } => {
                let port = self.registers[b as usize];
                if self.peripherals[port as usize].is_some() {
                    self.registers[a as usize] = io_value;
                }
            },
            Instruction::Iow { a, b } => {},
            Instruction::Loa { a, b } => {
                let r = self.memory[self.registers[b as usize] as usize];
                self.registers[a as usize] = r;
            },
            Instruction::Sto { a, b } => {
                let r = self.registers[a as usize];
                self.memory[self.registers[b as usize] as usize] = r;
            },
            Instruction::Skl { a, b } => {
                if less_signed(self.registers[a as usize], self.registers[b as usize]) {
                    self.registers[PC] = self.registers[PC] + 1;
                }
            },
            Instruction::Swp { a, b } => {
                let ra = self.registers[a as usize];
                let rb = self.registers[b as usize];
                self.registers[a as usize] = rb;
                self.registers[b as usize] = ra;
            },
        }
        assert(self.view().attached =~= v.attached);
        assert(self.view().registers =~= after_instruction(v, io_value).registers);
        assert(self.view().memory =~= after_instruction(v, io_value).memory);
    }
}

/// A slot holding `x`.
fn filled_slot<T>(x: T) -> (r: Option<T>)
    ensures r == Some(x),
{
    Some(x)
}

/// `x < y` when both are read as signed bytes.
pub fn less_signed(x: u8, y: u8) -> (r: bool)
    ensures r == (signed(x) < signed(y)),
{
    if x < 128 && y < 128 {
        x < y
    } else if x >= 128 && y >= 128 {
        x < y
    } else {
        x >= 128
    }
}

} // verus!
