use brisc8::generator::{AsmError, Generator};
use brisc8::lexer::{lex_source, Token};

fn tokens(src: &[&str]) -> Vec<Token> {
    lex_source(src.iter().map(|s| s.to_string()).collect()).unwrap().unwrap()
}

fn assemble(src: &[&str]) -> (Vec<u8>, u8) {
    let mut g = Generator::new();
    let (image, size) = g.assemble(tokens(src)).unwrap();
    (image[..size as usize].to_vec(), size)
}

#[test]
fn encodes_immediate_and_register_modes() {
    let (bytes, size) = assemble(&[
        "LIL %R1, #5",
        "LIH %R1, #0x50",
        "ADD %R0, %R1",
        "NAND %R2, %R3",
        "IOR %R0, %R2",
        "IOW %R2, %R0",
        "LOA %R0, %R1",
        "STO %R1, %R0",
        "SKL %R0, %R2",
        "SWP %R1, %R3",
    ]);
    assert_eq!(size, 10);
    assert_eq!(bytes, vec![0x15, 0x55, 0x81, 0x9B, 0xA2, 0xB2, 0xC1, 0xD1, 0xE2, 0xF7]);
}

#[test]
fn lir_splits_a_byte_into_two_nibbles() {
    let (bytes, _) = assemble(&["LIR %R1, #0xAB"]);
    assert_eq!(bytes, vec![0x27, 0x66]);
}

#[test]
fn mnemonics_are_case_insensitive() {
    let (bytes, _) = assemble(&["add %R0, %R1", "Ret %R2"]);
    assert_eq!(bytes, vec![0x81, 0xFB]);
}

#[test]
fn forward_label_is_patched() {
    let (bytes, size) = assemble(&["JMP %R2, $end", "end:"]);
    assert_eq!(size, 3);
    assert_eq!(bytes, vec![0x0B, 0x48, 0xFB]);
}

#[test]
fn backward_label_and_bytes() {
    let (bytes, size) = assemble(&[".0x00", ".0x00", "here:", "CALL %R2, $here", ".\"A\""]);
    assert_eq!(size, 6);
    assert_eq!(bytes, vec![0, 0, 0x0A, 0x48, 0xFB, b'A']);
}

#[test]
fn latest_label_definition_wins() {
    let (bytes, _) = assemble(&["x:", "LIR %R0, $x", "x:"]);
    assert_eq!(bytes, vec![0x02, 0x40]);
}

#[test]
fn unknown_instruction_is_refused() {
    let mut g = Generator::new();
    let r = g.assemble(tokens(&["here:", ".0x01", "FOO %R0", ".0x02"]));
    assert_eq!(r, Err(AsmError::UnknownInstruction("FOO".to_string())));
    let r = g.assemble(tokens(&["ADD %R0, #1"]));
    assert_eq!(r, Err(AsmError::UnknownInstruction("ADD".to_string())));
    let r = g.assemble(tokens(&["RET %R0, %R1"]));
    assert_eq!(r, Err(AsmError::UnknownInstruction("RET".to_string())));
}

#[test]
fn generator_keeps_its_address_between_runs() {
    let mut g = Generator::new();
    let (first, n1) = g.assemble(tokens(&[".0x11", "a:"])).unwrap();
    assert_eq!((first[0], n1), (0x11, 1));
    let (second, n2) = g.assemble(tokens(&["LIL %R0, $a"])).unwrap();
    assert_eq!(n2, 2);
    assert_eq!(second[0], 0);
    assert_eq!(second[1], 0x01);
}

#[test]
fn inputs_that_stop_the_assembler_are_detected() {
    let mut g = Generator::new();
    assert_eq!(g.try_assemble(vec![Token::Directive("x".to_string())]), None);
    assert_eq!(g.try_assemble(tokens(&["LIL %R0, %R1"])), None);
    assert_eq!(g.try_assemble(tokens(&["JMP %R0, %R1"])), None);
    assert_eq!(g.try_assemble(tokens(&["LIR %R0, $nowhere"])), None);
    assert_eq!(g.try_assemble(vec![Token::Byte(1); 256]), None);
    assert!(g.would_panic(&vec![Token::Byte(1); 256]));
    assert!(!g.would_panic(&vec![Token::Byte(1); 255]));
    let (image, n) = g.try_assemble(vec![Token::Byte(7); 255]).unwrap().unwrap();
    assert_eq!(n, 255);
    assert_eq!(image[254], 7);
    assert_eq!(image[255], 0);
}

#[test]
fn asm_errors_carry_their_message() {
    let mut g = Generator::new();
    let err = g.assemble(tokens(&["MUL %R0, %R1"])).unwrap_err();
    assert_eq!(err.message(), "unknown instruction or bad args: MUL");
}
