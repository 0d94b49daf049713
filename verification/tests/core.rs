use brisc8::brisc8core::{Brisc8core, Peripheral};
use brisc8::isa::{decode_byte, Instruction};
use std::cell::RefCell;
use std::rc::Rc;

fn core_with(program: &[u8]) -> Brisc8core {
    let mut core = Brisc8core::new();
    for (i, b) in program.iter().enumerate() {
        core.set_memory(i as u8, *b);
    }
    core
}

#[test]
fn decodes_both_modes() {
    assert_eq!(decode_byte(0x33), Instruction::Lil { a: 0, imm: 0xF });
    assert_eq!(decode_byte(0x53), Instruction::Lih { a: 0, imm: 0x7 });
    assert_eq!(decode_byte(0x81), Instruction::Add { a: 0, b: 1 });
    assert_eq!(decode_byte(0xFB), Instruction::Swp { a: 2, b: 3 });
    assert_eq!(decode_byte(0xE6), Instruction::Skl { a: 1, b: 2 });
}

#[test]
fn new_core_is_zeroed() {
    let core = Brisc8core::new();
    assert_eq!(core.registers(), [0, 0, 0, 0]);
    assert_eq!(core.memory(0), 0);
    assert_eq!(core.memory(255), 0);
}

#[test]
fn lil_loads_its_immediate_and_clears_the_top_bits() {
    // LIL %R0, #0xF ; LIL %R0, #6 ; LIL %R0, #0xB
    let mut core = core_with(&[0x33, 0x12, 0x23]);
    core.set_register(0, 0xAC);
    core.execute(0);
    assert_eq!(core.registers(), [0x0F, 0, 0, 1]);
    core.set_register(0, 0xAC);
    core.execute(0);
    assert_eq!(core.registers()[0], 0x06);
    core.execute(0);
    assert_eq!(core.registers()[0], 0x0B);
}

#[test]
fn lih_replaces_the_top_nibble() {
    let mut core = core_with(&[0x53]);
    core.set_register(0, 0x45);
    core.execute(0);
    assert_eq!(core.registers(), [0x75, 0, 0, 1]);
}

#[test]
fn add_wraps_and_nand_negates() {
    let mut core = core_with(&[0x81, 0x91]);
    core.set_register(0, 200);
    core.set_register(1, 60);
    core.execute(0);
    assert_eq!(core.registers()[0], 4);
    core.set_register(0, 0b1101_0010);
    core.set_register(1, 0b1011_0100);
    core.execute(0);
    assert_eq!(core.registers()[0], 0b0110_1111);
}

#[test]
fn load_store_skip_and_swap() {
    // LOA %R0, %R1 ; STO %R1, %R0 ; SKL %R0, %R2 ; (skipped) ; SWP %R1, %R2
    let mut core = core_with(&[0xC1, 0xD1, 0xE2, 0x00, 0xF6]);
    core.set_memory(0x40, 0x99);
    core.set_register(1, 0x40);
    core.execute(0);
    assert_eq!(core.registers()[0], 0x99);
    core.set_register(0, 0x55);
    core.execute(0);
    assert_eq!(core.memory(0x40), 0x55);
    core.set_register(0, 0xFF);
    core.set_register(2, 1);
    core.execute(0);
    assert_eq!(core.registers()[3], 4);
    core.execute(0);
    assert_eq!(core.registers(), [0xFF, 1, 0x40, 5]);
}

#[test]
fn skip_compares_as_signed_bytes() {
    let mut core = core_with(&[0xE2]);
    core.set_register(0, 1);
    core.set_register(2, 0xFF);
    core.execute(0);
    assert_eq!(core.registers()[3], 1);
}

#[test]
fn pc_overflow_is_detected() {
    let mut core = Brisc8core::new();
    core.set_register(3, 255);
    assert!(core.next_cycle_overflows());
    core.set_register(3, 254);
    assert!(!core.next_cycle_overflows());
    core.set_memory(254, 0xE2);
    core.set_register(0, 0xFF);
    core.set_register(2, 1);
    assert!(core.next_cycle_overflows());
}

struct Recorder {
    log: Rc<RefCell<Vec<String>>>,
    answer: u8,
}

impl Peripheral for Recorder {
    fn do_cycle(&mut self) {
        self.log.borrow_mut().push("cycle".to_string());
    }
    fn do_write(&mut self, addr: u8, value: u8) {
        self.log.borrow_mut().push(format!("write {addr} {value}"));
    }
    fn do_read(&mut self, addr: u8) -> u8 {
        self.log.borrow_mut().push(format!("read {addr}"));
        self.answer
    }
}

#[test]
fn io_goes_to_the_attached_peripheral() {
    let log = Rc::new(RefCell::new(Vec::new()));
    // IOR %R0, %R2 ; IOW %R2, %R1 ; IOR %R1, %R3 (nothing attached there)
    let mut core = core_with(&[0xA2, 0xB6, 0xA7]);
    core.set_peripheral(7, Box::new(Recorder { log: log.clone(), answer: 42 }));
    core.set_register(2, 7);
    core.set_register(1, 9);
    core.do_cycle();
    assert_eq!(core.registers()[0], 42);
    core.do_cycle();
    core.set_register(1, 5);
    core.do_cycle();
    assert_eq!(core.registers()[1], 5);
    assert_eq!(
        *log.borrow(),
        vec!["cycle", "read 7", "cycle", "write 7 9", "cycle"]
    );
}

#[test]
fn execute_uses_the_given_io_value() {
    let mut core = core_with(&[0xA2]);
    core.set_peripheral(0, Box::new(Recorder { log: Rc::new(RefCell::new(Vec::new())), answer: 1 }));
    core.execute(77);
    assert_eq!(core.registers()[0], 77);
}

#[test]
fn iow_writes_ra_to_the_peripheral_at_rb() {
    let log = Rc::new(RefCell::new(Vec::new()));
    // LIL %R0, #1 ; LIL %R1, #1 ; ADD %R0, %R1 ; IOW %R0 to peripheral[%R2]
    let mut core = core_with(&[0x01, 0x05, 0x81, 0xB2]);
    core.set_peripheral(0, Box::new(Recorder { log: log.clone(), answer: 0 }));
    for _ in 0..4 {
        core.do_cycle();
    }
    assert_eq!(*log.borrow(), vec!["cycle", "cycle", "cycle", "cycle", "write 0 2"]);
}
