use brisc8::bf_compiler::{compile, compiles, render};
use brisc8::brisc8core::{Brisc8core, Peripheral};
use brisc8::generator::Generator;
use brisc8::lexer::lex_source;
use std::cell::RefCell;
use std::rc::Rc;

#[test]
fn compiles_a_plus() {
    assert_eq!(
        compile("+"),
        vec![
            "LIR %R1, $ProgramEnd",
            "LOA %R0, %R1",
            "LIL %R2, #1",
            "ADD %R0, %R2",
            "STO %R1, %R0",
            "LIR %R2, #-1",
            "LOA %R0, %R1",
            "IOW %R2, %R0",
            "ProgramEnd:",
            ".0x00",
        ]
    );
}

#[test]
fn loops_get_numbered_frames() {
    let lines = compile("[[]]");
    assert_eq!(lines[1], "JMP %R2, $LoopNo_0End");
    assert_eq!(lines[2], "LoopNo_0Start:");
    assert_eq!(lines[5], "JMP %R2, $LoopNo_1End");
    assert_eq!(lines[6], "LoopNo_1Start:");
    assert_eq!(lines[9], "LoopNo_1End:");
    assert_eq!(lines[13], "LIR %R1, $LoopNo_1Start");
    assert_eq!(lines[22], "LoopNo_0End:");
    assert_eq!(lines.len(), 1 + 4 + 4 + 13 + 13 + 5);
}

#[test]
fn loop_numbers_go_past_ten() {
    let src = "[]".repeat(12);
    let lines = compile(&src);
    assert_eq!(lines[1 + 11 * 17], "JMP %R2, $LoopNo_11End");
}

#[test]
fn other_characters_are_ignored() {
    assert_eq!(compile("+ a\n-"), compile("+-"));
    assert_eq!(compile("hello"), compile(""));
}

#[test]
fn unmatched_close_is_refused() {
    assert!(!compiles("]"));
    assert!(!compiles("[]]["));
    assert!(compiles("[[]"));
    assert!(compiles("abc"));
}

#[test]
fn render_joins_with_newlines() {
    assert_eq!(render(&vec!["a".to_string(), "b".to_string()]), "a\nb");
    assert_eq!(render(&vec![]), "");
    assert_eq!(render(&vec!["x".to_string()]), "x");
}

struct Out {
    written: Rc<RefCell<Vec<u8>>>,
}

impl Peripheral for Out {
    fn do_cycle(&mut self) {}
    fn do_write(&mut self, _addr: u8, value: u8) {
        self.written.borrow_mut().push(value);
    }
    fn do_read(&mut self, _addr: u8) -> u8 {
        0
    }
}

fn run_bf(src: &str) -> (Vec<u8>, u8) {
    let (out, code) = run_bf_for(src, 100_000);
    (out, code.unwrap())
}

fn run_bf_for(src: &str, cycles: usize) -> (Vec<u8>, Option<u8>) {
    let tokens = lex_source(compile(src)).unwrap().unwrap();
    let (image, size) = Generator::new().assemble(tokens).unwrap();
    let mut core = Brisc8core::new();
    for i in 0..size {
        core.set_memory(i, image[i as usize]);
    }
    let console = Rc::new(RefCell::new(Vec::new()));
    let exit = Rc::new(RefCell::new(Vec::new()));
    core.set_peripheral(0x00, Box::new(Out { written: console.clone() }));
    core.set_peripheral(0xFF, Box::new(Out { written: exit.clone() }));
    for _ in 0..cycles {
        assert!(!core.next_cycle_overflows());
        core.do_cycle();
        if !exit.borrow().is_empty() {
            break;
        }
    }
    let code = exit.borrow().first().copied();
    let out = console.borrow().clone();
    (out, code)
}

#[test]
fn compiled_programs_run_on_the_core() {
    assert_eq!(run_bf("+++"), (vec![], 3));
    // `-` loads `#-1` with LIL, which keeps the low four bits: it adds 15.
    assert_eq!(run_bf("++.-."), (vec![2, 17], 17));
    assert_eq!(run_bf(">++>+."), (vec![1], 1));
    assert_eq!(run_bf(",+."), (vec![1], 1));
}

#[test]
fn compiled_programs_assemble_to_their_size() {
    // 7 bytes of set-up and exit, then 4 per `+`/`-`, 2 per `<`/`>`,
    // 3 per `.`/`,`, 5 per `[` and 13 per `]`.
    let cases: Vec<(&str, u8)> = vec![
        ("", 7),
        ("+", 11),
        ("+-<>.,", 7 + 4 + 4 + 2 + 2 + 3 + 3),
        ("+[-].", 7 + 4 + 5 + 4 + 13 + 3),
        ("[[]]", 7 + 5 + 5 + 13 + 13),
    ];
    for (src, expected) in cases {
        let tokens = lex_source(compile(src)).unwrap().unwrap();
        let (_, size) = Generator::new().assemble(tokens).unwrap();
        assert_eq!(size, expected, "{}", src);
    }
}

#[test]
fn cell_commands_assemble_to_their_bytes() {
    let cases: Vec<(&str, Vec<u8>)> = vec![
        ("+", vec![0xC1, 0x09, 0x82, 0xD1]),
        ("-", vec![0xC1, 0x3B, 0x82, 0xD1]),
        (">", vec![0x09, 0x86]),
        ("<", vec![0x3B, 0x86]),
        (".", vec![0xC1, 0x08, 0xB2]),
        (",", vec![0x08, 0xA2, 0xD1]),
    ];
    for (src, bytes) in cases {
        let tokens = lex_source(compile(src)).unwrap().unwrap();
        let (image, _) = Generator::new().assemble(tokens).unwrap();
        // The first two bytes set the cell pointer.
        assert_eq!(&image[2..2 + bytes.len()], &bytes[..], "{}", src);
    }
}

fn run_code(bytes: &[u8], steps: usize, pointer: u8, cell: u8) -> Brisc8core {
    let mut core = Brisc8core::new();
    for (i, b) in bytes.iter().enumerate() {
        core.set_memory(10 + i as u8, *b);
    }
    core.set_register(3, 10);
    core.set_register(1, pointer);
    core.set_memory(pointer, cell);
    for _ in 0..steps {
        core.do_cycle();
    }
    core
}

#[test]
fn cell_commands_do_what_they_mean() {
    let plus = run_code(&[0xC1, 0x09, 0x82, 0xD1], 4, 200, 41);
    assert_eq!(plus.memory(200), 42);
    assert_eq!(plus.registers()[1], 200);
    assert_eq!(plus.registers()[3], 14);

    let wrap = run_code(&[0xC1, 0x09, 0x82, 0xD1], 4, 200, 255);
    assert_eq!(wrap.memory(200), 0);

    let minus = run_code(&[0xC1, 0x3B, 0x82, 0xD1], 4, 200, 0);
    assert_eq!(minus.memory(200), 15);

    let right = run_code(&[0x09, 0x86], 2, 200, 7);
    assert_eq!(right.registers()[1], 201);
    assert_eq!(right.memory(200), 7);
    assert_eq!(right.registers()[3], 12);

    let left = run_code(&[0x3B, 0x86], 2, 0, 7);
    assert_eq!(left.registers()[1], 15);
}

struct Device {
    answer: u8,
    written: Rc<RefCell<Vec<u8>>>,
}

impl Peripheral for Device {
    fn do_cycle(&mut self) {}
    fn do_write(&mut self, _addr: u8, value: u8) {
        self.written.borrow_mut().push(value);
    }
    fn do_read(&mut self, _addr: u8) -> u8 {
        self.answer
    }
}

#[test]
fn io_commands_use_bus_address_zero() {
    let written = Rc::new(RefCell::new(Vec::new()));
    let mut core = Brisc8core::new();
    core.set_peripheral(0x00, Box::new(Device { answer: 77, written: written.clone() }));
    let code = [0x08, 0xA2, 0xD1, 0xC1, 0x08, 0xB2];
    for (i, b) in code.iter().enumerate() {
        core.set_memory(10 + i as u8, *b);
    }
    core.set_register(3, 10);
    core.set_register(1, 200);
    for _ in 0..3 {
        core.do_cycle();
    }
    assert_eq!(core.memory(200), 77);
    assert_eq!(core.registers()[1], 200);
    core.set_memory(200, 65);
    for _ in 0..3 {
        core.do_cycle();
    }
    assert_eq!(*written.borrow(), vec![65]);
    assert_eq!(core.registers()[3], 16);
}

#[test]
fn loop_code_assembles_to_the_jump_and_the_test() {
    let tokens = lex_source(compile("[-]")).unwrap().unwrap();
    let (image, size) = Generator::new().assemble(tokens).unwrap();
    // `[` at 2: a jump to the end label (11), then the restart bytes at
    // the start label (5).
    assert_eq!(&image[2..7], &[0x2B, 0x48, 0xFB, 0x3B, 0xC6]);
    // `]` at 11: the loop test, with the start address 5 loaded into %R1.
    assert_eq!(
        &image[11..24],
        &[0xC1, 0x3B, 0xD6, 0x15, 0x44, 0x09, 0xE2, 0xF7, 0x3B, 0xE8, 0xF7, 0x3B, 0xC6]
    );
    assert_eq!(size, 29);
}

#[test]
fn compiled_loops_never_end() {
    // The loop test leaves a loop only for a cell below 1 and above 15.
    for src in ["[]+", "+[-]", "-[+]", "+++[>++<-]>"] {
        assert_eq!(run_bf_for(src, 20_000).1, None, "{}", src);
    }
}

#[test]
fn loop_test_keeps_the_pointer_at_fifteen() {
    // The loop test alone, at 100, with its start label at 20: the cell
    // pointer goes to address 15 and comes back.
    let test = [0xC1, 0x3B, 0xD6, 0x14, 0x45, 0x09, 0xE2, 0xF7, 0x3B, 0xE8, 0xF7, 0x3B, 0xC6];
    for (cell, steps) in [(0u8, 12), (5, 10), (200, 12)] {
        let mut core = Brisc8core::new();
        for (i, b) in test.iter().enumerate() {
            core.set_memory(100 + i as u8, *b);
        }
        core.set_memory(20, 0x3B);
        core.set_memory(21, 0xC6);
        core.set_register(3, 100);
        core.set_register(1, 200);
        core.set_memory(200, cell);
        for _ in 0..steps {
            core.do_cycle();
        }
        assert_eq!(core.registers()[3], 22);
        assert_eq!(core.registers()[1], 200);
        assert_eq!(core.memory(15), 200);
    }
}
