use brisc8::text::{IntErrorKind, LexError, LexPanic};
use brisc8::tokenizer::{tokenize_source, InstructionArg, Token, Tokenizer};

fn lines(src: &[&str]) -> Vec<String> {
    src.iter().map(|s| s.to_string()).collect()
}

#[test]
fn tokenizer_keeps_sixteen_bit_immediates() {
    let toks = tokenize_source(lines(&["LIR %R1, #0x1FF", "LIL %R0, #-1", "LIL %R0, #70000"]))
        .unwrap()
        .unwrap();
    assert_eq!(
        toks,
        vec![
            Token::Instruction("LIR".to_string(), vec![InstructionArg::Register(1), InstructionArg::Immediate(0x1FF)]),
            Token::Instruction("LIL".to_string(), vec![InstructionArg::Register(0), InstructionArg::Immediate(65535)]),
            Token::Instruction("LIL".to_string(), vec![InstructionArg::Register(0), InstructionArg::Immediate(4464)]),
        ]
    );
    assert_eq!(
        tokenize_source(lines(&["LIL %R0, #0x10000"])),
        Ok(Err(LexError::InvalidNumber(IntErrorKind::PosOverflow)))
    );
}

#[test]
fn tokenizer_has_no_directives() {
    assert_eq!(tokenize_source(lines(&["#define"])), Ok(Ok(vec![])));
    assert_eq!(
        tokenize_source(lines(&["#define x"])),
        Ok(Err(LexError::ExpectedArgument("x".to_string())))
    );
}

#[test]
fn tokenizer_hex_literals_need_an_even_number_of_digits() {
    assert_eq!(tokenize_source(lines(&[".abcd"])), Ok(Ok(vec![Token::Byte(0xAB), Token::Byte(0xCD)])));
    assert_eq!(tokenize_source(lines(&[".0x0a"])), Ok(Ok(vec![Token::Byte(0x0A)])));
    assert_eq!(tokenize_source(lines(&[".0xABC"])), Err(LexPanic::UnterminatedHex));
    assert_eq!(tokenize_source(lines(&[".0xAG"])), Err(LexPanic::InvalidHex));
    assert_eq!(tokenize_source(lines(&[".+f"])), Err(LexPanic::InvalidHex));
}

#[test]
fn tokenizer_strings_and_labels() {
    let mut t = Tokenizer::new(lines(&["loop: -- top", ".\"ok\"", "JMP %R2, $loop"]));
    assert_eq!(t.next(), Some(Ok(Token::Label("loop".to_string()))));
    assert_eq!(t.next(), Some(Ok(Token::Byte(b'o'))));
    assert_eq!(t.next(), Some(Ok(Token::Byte(b'k'))));
    assert_eq!(
        t.next(),
        Some(Ok(Token::Instruction(
            "JMP".to_string(),
            vec![InstructionArg::Register(2), InstructionArg::Label("loop".to_string())]
        )))
    );
    assert_eq!(t.next(), None);
}

#[test]
fn tokenizer_reports_panicking_lines() {
    let t = Tokenizer::new(lines(&["", ".\"\\"]));
    assert_eq!(t.next_panic(), Some(LexPanic::UnterminatedString));
    let mut t = Tokenizer::new(lines(&["LIL %Q, #1", ".\"\\"]));
    assert_eq!(t.next_panic(), None);
    assert_eq!(t.next(), Some(Err(LexError::ExpectedRegister("%Q".to_string()))));
    assert_eq!(t.next_panic(), None);
    assert_eq!(t.next(), None);
}
