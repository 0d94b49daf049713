use brisc8::brisc8core::Brisc8core;
use brisc8::generator::Generator;
use brisc8::isa::{decode_byte, Instruction};
use brisc8::lexer::{lex_source, Token};

fn assemble(src: &[&str]) -> ([u8; 256], u8) {
    let tokens = lex_source(src.iter().map(|s| s.to_string()).collect()).unwrap().unwrap();
    Generator::new().assemble(tokens).unwrap()
}

fn load(image: &[u8; 256], size: u8) -> Brisc8core {
    let mut core = Brisc8core::new();
    for i in 0..size {
        core.set_memory(i, image[i as usize]);
    }
    core
}

#[test]
fn register_encodings_decode_back() {
    let names = ["ADD", "NAND", "IOR", "IOW", "LOA", "STO", "SKL", "SWP"];
    for (k, name) in names.iter().enumerate() {
        for a in 0..4u8 {
            for b in 0..4u8 {
                let line = format!("{name} %R{a}, %R{b}");
                let (image, _) = assemble(&[line.as_str()]);
                let (x, y) = if *name == "IOW" || *name == "STO" { (b, a) } else { (a, b) };
                let expected = match k {
                    0 => Instruction::Add { a: x, b: y },
                    1 => Instruction::Nand { a: x, b: y },
                    2 => Instruction::Ior { a: x, b: y },
                    3 => Instruction::Iow { a: x, b: y },
                    4 => Instruction::Loa { a: x, b: y },
                    5 => Instruction::Sto { a: x, b: y },
                    6 => Instruction::Skl { a: x, b: y },
                    _ => Instruction::Swp { a: x, b: y },
                };
                assert_eq!(decode_byte(image[0]), expected);
            }
        }
    }
}

#[test]
fn immediate_encodings_decode_back() {
    for v in 0..=255u8 {
        let line = format!("LIR %R2, #{v}");
        let (image, _) = assemble(&[line.as_str()]);
        assert_eq!(decode_byte(image[0]), Instruction::Lil { a: 2, imm: v & 0x0f });
        assert_eq!(decode_byte(image[1]), Instruction::Lih { a: 2, imm: v >> 4 });
    }
}

#[test]
fn lir_loads_every_byte() {
    for v in 0..=255u8 {
        let line = format!("LIR %R1, #{v}");
        let (image, size) = assemble(&[line.as_str()]);
        let mut core = load(&image, size);
        core.set_register(0, 0x5A);
        core.set_register(2, 0xA5);
        core.do_cycle();
        core.do_cycle();
        assert_eq!(core.registers(), [0x5A, v, 0xA5, 2]);
    }
}

#[test]
fn jump_lands_on_its_label_and_keeps_the_return_address() {
    let (image, size) = assemble(&["CALL %R2, $target", ".0x00", ".0x00", "target:", "LIL %R0, #7"]);
    let mut core = load(&image, size);
    for _ in 0..3 {
        core.do_cycle();
    }
    assert_eq!(core.registers()[3], 5);
    assert_eq!(core.registers()[2], 3);
    core.do_cycle();
    assert_eq!(core.registers()[0], 7);
}

#[test]
fn bytes_are_copied_verbatim() {
    let bytes: Vec<Token> = (0..200u8).map(Token::Byte).collect();
    let (image, size) = Generator::new().assemble(bytes).unwrap();
    assert_eq!(size, 200);
    for i in 0..256usize {
        assert_eq!(image[i], if i < 200 { i as u8 } else { 0 });
    }
}

#[test]
fn only_a_store_writes_memory() {
    let (image, size) = assemble(&["ADD %R0, %R1", "STO %R1, %R0", "LOA %R2, %R1"]);
    let mut core = load(&image, size);
    core.set_register(0, 9);
    core.set_register(1, 0x80);
    core.do_cycle();
    for a in 0..=255u8 {
        assert_eq!(core.memory(a), if (a as usize) < 3 { image[a as usize] } else { 0 });
    }
    core.do_cycle();
    assert_eq!(core.memory(0x80), 0x89);
    core.do_cycle();
    assert_eq!(core.registers()[2], 0x89);
}

#[test]
fn call_then_ret_comes_back() {
    let (image, size) = assemble(&["CALL %R2, $sub", "LIL %R0, #3", ".0x00", "sub:", "RET %R2"]);
    let mut core = load(&image, size);
    for _ in 0..4 {
        core.do_cycle();
    }
    assert_eq!(core.registers()[3], 3);
    assert_eq!(core.registers()[2], 6);
    core.do_cycle();
    assert_eq!(core.registers()[0], 3);
}
