use brisc8::lexer::{lex_source, InstructionArg, Lexer, Token};
use brisc8::text::{IntErrorKind, LexError, LexPanic};

fn lines(src: &[&str]) -> Vec<String> {
    src.iter().map(|s| s.to_string()).collect()
}

fn instr(op: &str, args: Vec<InstructionArg>) -> Token {
    Token::Instruction(op.to_string(), args)
}

#[test]
fn lexes_each_kind_of_line() {
    let toks = lex_source(lines(&[
        "start:",
        "  LIL %R0, #5 -- load five",
        "ADD %R0,%R1",
        ".\"hi\\n\"",
        ".0xABcd",
        "#define",
        "",
        "   -- only a comment",
        "LIR %R1, $start",
    ]))
    .unwrap()
    .unwrap();
    assert_eq!(
        toks,
        vec![
            Token::Label("start".to_string()),
            instr("LIL", vec![InstructionArg::Register(0), InstructionArg::Immediate(5)]),
            instr("ADD", vec![InstructionArg::Register(0), InstructionArg::Register(1)]),
            Token::Byte(b'h'),
            Token::Byte(b'i'),
            Token::Byte(b'\n'),
            Token::Byte(0xAB),
            Token::Byte(0xCD),
            Token::Directive("define".to_string()),
            instr("LIR", vec![InstructionArg::Register(1), InstructionArg::Label("start".to_string())]),
        ]
    );
}

#[test]
fn immediates_are_truncated_to_a_byte() {
    let toks = lex_source(lines(&["LIL %R0, #300", "LIL %R0, #-1", "LIL %R2, #0x0f", "LIL %R2, #+7"]))
        .unwrap()
        .unwrap();
    assert_eq!(toks[0], instr("LIL", vec![InstructionArg::Register(0), InstructionArg::Immediate(44)]));
    assert_eq!(toks[1], instr("LIL", vec![InstructionArg::Register(0), InstructionArg::Immediate(255)]));
    assert_eq!(toks[2], instr("LIL", vec![InstructionArg::Register(2), InstructionArg::Immediate(15)]));
    assert_eq!(toks[3], instr("LIL", vec![InstructionArg::Register(2), InstructionArg::Immediate(7)]));
}

#[test]
fn number_errors_carry_their_kind() {
    let err = |line: &str| lex_source(lines(&[line])).unwrap().unwrap_err();
    assert_eq!(err("LIL %R0, #0x1FF"), LexError::InvalidNumber(IntErrorKind::PosOverflow));
    assert_eq!(err("LIL %R0, #40000"), LexError::InvalidNumber(IntErrorKind::PosOverflow));
    assert_eq!(err("LIL %R0, #-40000"), LexError::InvalidNumber(IntErrorKind::NegOverflow));
    assert_eq!(err("LIL %R0, #abc"), LexError::InvalidNumber(IntErrorKind::InvalidDigit));
    assert_eq!(err("LIL %R0, #"), LexError::InvalidNumber(IntErrorKind::Empty));
    assert_eq!(err("LIL %R0, #-"), LexError::InvalidNumber(IntErrorKind::InvalidDigit));
    assert_eq!(err("LIL %R, #1"), LexError::InvalidNumber(IntErrorKind::Empty));
    assert_eq!(err("LIL %R256, #1"), LexError::InvalidNumber(IntErrorKind::PosOverflow));
}

#[test]
fn argument_errors_hold_the_argument_as_written() {
    let err = |line: &str| lex_source(lines(&[line])).unwrap().unwrap_err();
    assert_eq!(err("LIL %X0, #1"), LexError::ExpectedRegister("%X0".to_string()));
    assert_eq!(err("LIL %R0, 5"), LexError::ExpectedArgument(" 5".to_string()));
    assert_eq!(err("label:  "), LexError::ExpectedArgument(" ".to_string()));
}

#[test]
fn an_instruction_without_a_space_pauses_the_stream() {
    let mut lexer = Lexer::new(lines(&["RET", "start:"]));
    assert_eq!(lexer.next(), None);
    assert_eq!(lexer.next(), Some(Ok(Token::Label("start".to_string()))));
    assert_eq!(lexer.next(), None);
    assert_eq!(lex_source(lines(&["RET", "start:"])), Ok(Ok(vec![])));
}

#[test]
fn an_error_ends_the_stream() {
    let mut lexer = Lexer::new(lines(&["LIL %Q1, #1", "start:"]));
    assert_eq!(lexer.next(), Some(Err(LexError::ExpectedRegister("%Q1".to_string()))));
    assert_eq!(lexer.next(), None);
    assert_eq!(lexer.next(), None);
}

#[test]
fn literal_bytes_come_out_one_by_one() {
    let mut lexer = Lexer::new(lines(&[".\"é\"", "x:"]));
    assert_eq!(lexer.next(), Some(Ok(Token::Byte(0xC3))));
    assert_eq!(lexer.next(), Some(Ok(Token::Byte(0xA9))));
    assert_eq!(lexer.next(), Some(Ok(Token::Label("x".to_string()))));
}

#[test]
fn hex_literals_read_pairs_and_ignore_a_lone_digit() {
    assert_eq!(lex_source(lines(&[".ABC"])), Ok(Ok(vec![Token::Byte(0xAB)])));
    assert_eq!(lex_source(lines(&[".+f+f"])), Ok(Ok(vec![Token::Byte(15), Token::Byte(15)])));
    assert_eq!(lex_source(lines(&["."])), Ok(Ok(vec![])));
}

#[test]
fn string_escapes_and_termination() {
    assert_eq!(
        lex_source(lines(&[".\"a\\t\\\"\\0\" ignored"])),
        Ok(Ok(vec![Token::Byte(b'a'), Token::Byte(b'\t'), Token::Byte(b'"'), Token::Byte(0)]))
    );
    assert_eq!(lex_source(lines(&[".\"ab"])), Ok(Ok(vec![Token::Byte(b'a'), Token::Byte(b'b')])));
}

#[test]
fn inputs_that_stop_the_program_are_reported() {
    assert_eq!(lex_source(lines(&[".\"a\\q\""])), Err(LexPanic::UnhandledEscape));
    assert_eq!(lex_source(lines(&[".\"a\\"])), Err(LexPanic::UnterminatedString));
    assert_eq!(lex_source(lines(&[".0xZZ"])), Err(LexPanic::InvalidHex));
    assert_eq!(lex_source(lines(&[".é1"])), Err(LexPanic::InvalidHex));
    let lexer = Lexer::new(lines(&["", ".\"\\x\""]));
    assert_eq!(lexer.next_panic(), Some(LexPanic::UnhandledEscape));
    let lexer = Lexer::new(lines(&["a:", ".\"\\x\""]));
    assert_eq!(lexer.next_panic(), None);
}

#[test]
fn unicode_whitespace_is_trimmed() {
    assert_eq!(lex_source(lines(&["\u{3000}\tloop:"])), Ok(Ok(vec![Token::Label("loop".to_string())])));
}

#[test]
fn a_trailing_comment_changes_nothing() {
    for code in ["ADD %R0, %R1", "loop:", ".\"a b\"", "", "   ", "x -- y"] {
        let with = format!("{code}-- note");
        assert_eq!(lex_source(lines(&[code])), lex_source(lines(&[with.as_str()])));
    }
}

#[test]
fn trailing_whitespace_is_kept_without_a_comment() {
    assert_eq!(lex_source(lines(&["loop: -- c"])), Ok(Ok(vec![Token::Label("loop".to_string())])));
    assert_eq!(lex_source(lines(&["loop: "])), Ok(Err(LexError::ExpectedArgument(String::new()))));
}

#[test]
fn lex_errors_carry_their_message() {
    let err = |line: &str| lex_source(lines(&[line])).unwrap().unwrap_err().message();
    assert_eq!(err("LIL %X0, #1"), "Expected instruction register argument, got '%X0'");
    assert_eq!(err("LIL R0, #1"), "Expected instruction argument, got 'R0'");
    assert_eq!(err("LIL %R0, #"), "cannot parse integer from empty string");
    assert_eq!(err("LIL %R0, #abc"), "invalid digit found in string");
    assert_eq!(err("LIL %R0, #40000"), "number too large to fit in target type");
    assert_eq!(err("LIL %R0, #-40000"), "number too small to fit in target type");
}
