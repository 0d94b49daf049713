//! A second assembly tokenizer: like the lexer, but with 16-bit
//! immediates, no directives, and a stricter hex literal form.
use vstd::prelude::*;
use crate::text::{
    LexError, LexErrorView, LexPanic, chars_of, code_part, code_part_exec, comment_can_follow,
    digit, digit_value, find_char, find_char_exec, has_hex_prefix, hex_prefix,
    law_comment_is_ignored, lemma_find_char_range, parse_int, parse_int_exec, parse_string, string_literal_panic,
    starts_with, string_from_chars, string_literal, subvec, trim, trim_chars, drop_trailing_whitespace,
    hex_number, is_hex_digit, is_whitespace, lemma_hex_parses, pow16, skip_whitespace, trim_start,
    decimal_number, is_decimal_digit, lemma_decimal_parses, lemma_trim_unchanged, pow10,
};

verus! {

/// One item of assembly source.
#[derive(Debug, Clone, PartialEq, Eq)]
pub enum Token {
    /// `name:`
    Label(String),
    /// A mnemonic and its comma-separated arguments.
    Instruction(String, Vec<InstructionArg>),
    /// A string; the tokenizer itself never produces one.
    String(String),
    /// One byte of a `.` literal.
    Byte(u8),
}

/// An instruction argument.
#[derive(Debug, Clone, PartialEq, Eq)]
pub enum InstructionArg {
    /// `%Rn`
    Register(u8),
    /// `#n` (decimal, possibly negative) or `#0xNNNN`
    Immediate(u16),
    /// `$name`
    Label(String),
}

pub enum ArgView {
    Register(u8),
    Immediate(u16),
    Label(Seq<char>),
}

pub enum TokenView {
    Label(Seq<char>),
    Instruction(Seq<char>, Seq<ArgView>),
    String(Seq<char>),
    Byte(u8),
}

impl View for InstructionArg {
    type V = ArgView;

    open spec fn view(&self) -> ArgView {
        match self {
            InstructionArg::Register(r) => ArgView::Register(*r),
            InstructionArg::Immediate(i) => ArgView::Immediate(*i),
            InstructionArg::Label(s) => ArgView::Label(s@),
        }
    }
}

/// The arguments of an instruction as a sequence of views.
pub open spec fn args_view(args: Seq<InstructionArg>) -> Seq<ArgView> {
    args.map_values(|a: InstructionArg| a@)
}

impl View for Token {
    type V = TokenView;

    open spec fn view(&self) -> TokenView {
        match self {
            Token::Label(s) => TokenView::Label(s@),
            Token::Instruction(op, args) => TokenView::Instruction(op@, args_view(args@)),
            Token::String(s) => TokenView::String(s@),
            Token::Byte(b) => TokenView::Byte(*b),
        }
    }
}

/// The tokens of a sequence as views.
pub open spec fn tokens_view(tokens: Seq<Token>) -> Seq<TokenView> {
    tokens.map_values(|t: Token| t@)
}

// ---------------------------------------------------------------- arguments

/// The low 16 bits of an integer (`as u16`).
pub open spec fn low_half(v: int) -> u16 {
    (v % 65536) as u16
}

/// What one comma-separated argument means; `init` is the argument as written.
pub open spec fn parse_arg(init: Seq<char>) -> Result<ArgView, LexErrorView> {
    let arg = trim(init);
    if arg.len() > 0 && arg[0] == '#' {
        let rest = arg.skip(1);
        if has_hex_prefix(rest) {
            match parse_int(rest.skip(2), 16, false, 0, 65535) {
                Ok(v) => Ok(ArgView::Immediate(v as u16)),
                Err(e) => Err(LexErrorView::InvalidNumber(e)),
            }
        } else {
            match parse_int(rest, 10, true, -0x8000_0000, 0x7fff_ffff) {
                Ok(v) => Ok(ArgView::Immediate(low_half(v))),
                Err(e) => Err(LexErrorView::InvalidNumber(e)),
            }
        }
    } else if arg.len() > 0 && arg[0] == '%' {
        let rest = arg.skip(1);
        if !(rest.len() > 0 && rest[0] == 'R') {
            Err(LexErrorView::ExpectedRegister(init))
        } else {
            match parse_int(rest.skip(1), 10, false, 0, 255) {
                Ok(v) => Ok(ArgView::Register(v as u8)),
                Err(e) => Err(LexErrorView::InvalidNumber(e)),
            }
        }
    } else if arg.len() > 0 && arg[0] == '$' {
        Ok(ArgView::Label(arg.skip(1)))
    } else {
        Err(LexErrorView::ExpectedArgument(init))
    }
}

/// The comma-separated arguments of `s`, parsed left to right up to the first error.
pub open spec fn parse_args(s: Seq<char>) -> Result<Seq<ArgView>, LexErrorView>
    decreases s.len(),
{
    match find_char(s, ',', 0) {
        None => match parse_arg(s) {
            Ok(a) => Ok(seq![a]),
            Err(e) => Err(e),
        },
        Some(k) => {
            proof {
                lemma_find_char_range(s, ',', 0);
            }
            match parse_arg(s.take(k)) {
                Err(e) => Err(e),
                Ok(a) => match parse_args(s.skip(k + 1)) {
                    Ok(r) => Ok(seq![a] + r),
                    Err(e) => Err(e),
                },
            }
        },
    }
}

fn parse_arg_exec(init: &Vec<char>) -> (r: Result<InstructionArg, LexError>)
    ensures
        match r {
            Ok(a) => parse_arg(init@) == Ok::<ArgView, LexErrorView>(a@),
            Err(e) => parse_arg(init@) == Err::<ArgView, LexErrorView>(e@),
        },
{
    let arg = trim_chars(init);
    if starts_with(&arg, '#') {
        let rest = subvec(&arg, 1, arg.len());
        assert(rest@ == arg@.skip(1));
        if hex_prefix(&rest) {
            let digits = subvec(&rest, 2, rest.len());
            assert(digits@ == rest@.skip(2));
            match parse_int_exec(&digits, 16, false, 0, 65535) {
                Ok(v) => Ok(InstructionArg::Immediate(v as u16)),
                Err(e) => Err(LexError::InvalidNumber(e)),
            }
        } else {
            match parse_int_exec(&rest, 10, true, -0x8000_0000, 0x7fff_ffff) {
                Ok(v) => {
                    let b = if v < 0 {
                        ((v + 0x1_0000_0000) % 65536) as u16
                    } else {
                        (v % 65536) as u16
                    };
                    assert(b == low_half(v as int));
                    Ok(InstructionArg::Immediate(b))
                },
                Err(e) => Err(LexError::InvalidNumber(e)),
            }
        }
    } else if starts_with(&arg, '%') {
        let rest = subvec(&arg, 1, arg.len());
        assert(rest@ == arg@.skip(1));
        if !starts_with(&rest, 'R') {
            return Err(LexError::ExpectedRegister(string_from_chars(init.as_slice())));
        }
        let digits = subvec(&rest, 1, rest.len());
        assert(digits@ == rest@.skip(1));
        match parse_int_exec(&digits, 10, false, 0, 255) {
            Ok(v) => Ok(InstructionArg::Register(v as u8)),
            Err(e) => Err(LexError::InvalidNumber(e)),
        }
    } else if starts_with(&arg, '$') {
        let name = subvec(&arg, 1, arg.len());
        assert(name@ == arg@.skip(1));
        Ok(InstructionArg::Label(string_from_chars(name.as_slice())))
    } else {
        Err(LexError::ExpectedArgument(string_from_chars(init.as_slice())))
    }
}

/// The parsed arguments in front of what the rest of a line gives.
pub open spec fn prepend_args(done: Seq<ArgView>, rest: Result<Seq<ArgView>, LexErrorView>) -> Result<
    Seq<ArgView>,
    LexErrorView,
> {
    match rest {
        Ok(r) => Ok(done + r),
        Err(e) => Err(e),
    }
}

fn parse_args_exec(s: &Vec<char>) -> (r: Result<Vec<InstructionArg>, LexError>)
    ensures
        match r {
            Ok(a) => parse_args(s@) == Ok::<Seq<ArgView>, LexErrorView>(args_view(a@)),
            Err(e) => parse_args(s@) == Err::<Seq<ArgView>, LexErrorView>(e@),
        },
{
    let mut out: Vec<InstructionArg> = Vec::new();
    let mut rest = subvec(s, 0, s.len());
    assert(rest@ =~= s@);
    loop
        invariant
            parse_args(s@) == prepend_args(args_view(out@), parse_args(rest@)),
        decreases rest@.len(),
    {
        match find_char_exec(&rest, ',') {
            None => {
                match parse_arg_exec(&rest) {
                    Ok(a) => {
                        let ghost before = args_view(out@);
                        out.push(a);
                        assert(args_view(out@) =~= before + seq![a@]);
                        return Ok(out);
                    },
                    Err(e) => {
                        return Err(e);
                    },
                }
            },
            Some(k) => {
                let n = rest.len();
                assert(k < n);
                let piece = subvec(&rest, 0, k);
                assert(piece@ == rest@.take(k as int));
                match parse_arg_exec(&piece) {
                    Ok(a) => {
                        let ghost before = args_view(out@);
                        out.push(a);
                        assert(args_view(out@) =~= before + seq![a@]);
                        let next = subvec(&rest, k + 1, n);
                        assert(next@ == rest@.skip(k + 1));
                        proof {
                            match parse_args(next@) {
                                Ok(r) => {
                                    assert(before + (seq![a@] + r) =~= (before + seq![a@]) + r);
                                },
                                Err(_) => {},
                            }
                        }
                        rest = next;
                    },
                    Err(e) => {
                        return Err(e);
                    },
                }
            },
        }
    }
}

// ---------------------------------------------------------------- lines

/// The value of a hex digit character.
pub open spec fn hex_value(c: char) -> int {
    match digit_value(c, 16) {
        Some(d) => d,
        None => 0,
    }
}

/// The bytes of a hex literal: every character must be a hex digit and
/// their number even, else the program stops; each pair of digits is a byte.
pub open spec fn hex_literal(s: Seq<char>) -> Result<Seq<u8>, LexPanic> {
    if exists|j: int| 0 <= j < s.len() && digit_value(#[trigger] s[j], 16) is None {
        Err(LexPanic::InvalidHex)
    } else if s.len() % 2 == 1 {
        Err(LexPanic::UnterminatedHex)
    } else {
        Ok(Seq::new(s.len() / 2, |k: int| (16 * hex_value(s[2 * k]) + hex_value(s[2 * k + 1])) as u8))
    }
}

/// Reads a hex literal: its bytes, or the kind of input on which the
/// lexer stops the program.
fn scan_hex_literal(s: &Vec<char>) -> (r: Result<Vec<u8>, LexPanic>)
    ensures
        match r {
            Ok(b) => hex_literal(s@) == Ok::<Seq<u8>, LexPanic>(b@),
            Err(p) => hex_literal(s@) == Err::<Seq<u8>, LexPanic>(p),
        },
{
    let mut val: u8 = 0;
    let mut value: Vec<u8> = Vec::new();
    let mut next = false;
    let mut i: usize = 0;
    while i < s.len()
        invariant
            i <= s@.len(),
            forall|j: int| 0 <= j < i ==> digit_value(#[trigger] s@[j], 16) is Some,
            next == (i % 2 == 1),
            value@.len() == i / 2,
            forall|k: int| 0 <= k < i / 2 ==> #[trigger] value@[k] == (16 * hex_value(s@[2 * k]) + hex_value(s@[2 * k + 1])) as u8,
            next ==> val == 16 * hex_value(s@[i - 1]),
            !next ==> val == 0,
        decreases s@.len() - i,
    {
        let d = match digit(s[i], 16) {
            None => {
                return Err(LexPanic::InvalidHex);
            },
            Some(d) => d,
        };
        assert(hex_value(s@[i as int]) == d);
        val = val + d as u8;
        if !next {
            next = true;
            let t = val;
            val = t << 4u8;
            assert(t < 16 ==> t << 4u8 == 16 * t) by (bit_vector);
        } else {
            next = false;
            value.push(val);
            val = 0;
        }
        i = i + 1;
    }
    if next {
        return Err(LexPanic::UnterminatedHex);
    }
    assert(value@ =~= Seq::new(s@.len() / 2, |k: int| (16 * hex_value(s@[2 * k]) + hex_value(s@[2 * k + 1])) as u8));
    Ok(value)
}

/// The kind of input on which reading the hex literal `s` stops the
/// program, if any.
fn hex_literal_panic(s: &Vec<char>) -> (r: Option<LexPanic>)
    ensures
        match hex_literal(s@) {
            Ok(_) => r is None,
            Err(p) => r == Some(p),
        },
{
    match scan_hex_literal(s) {
        Ok(_) => None,
        Err(p) => Some(p),
    }
}

/// The bytes of a well-formed hex literal (`hex_literal_panic` gives `None`).
fn parse_hex_literal(s: &Vec<char>) -> (b: Vec<u8>)
    requires
        hex_literal(s@) is Ok,
    ensures
        hex_literal(s@) == Ok::<Seq<u8>, LexPanic>(b@),
{
    match scan_hex_literal(s) {
        Ok(b) => b,
        Err(_) => Vec::new(),
    }
}

/// What one source line amounts to.
pub enum LineView {
    /// Nothing: the line is empty once comments and whitespace are gone.
    Skip,
    /// A `.` literal with these bytes.
    Literal(Seq<u8>),
    /// One token.
    Emit(TokenView),
    /// An instruction without a space: the token stream pauses here.
    Stop,
    /// A refused argument.
    Fail(LexErrorView),
    /// A literal on which the tokenizer stops the program.
    Panic(LexPanic),
}

pub enum Line {
    Skip,
    Literal(Vec<u8>),
    Emit(Token),
    Stop,
    Fail(LexError),
    Panic(LexPanic),
}

impl View for Line {
    type V = LineView;

    open spec fn view(&self) -> LineView {
        match self {
            Line::Skip => LineView::Skip,
            Line::Literal(b) => LineView::Literal(b@),
            Line::Emit(t) => LineView::Emit(t@),
            Line::Stop => LineView::Stop,
            Line::Fail(e) => LineView::Fail(e@),
            Line::Panic(p) => LineView::Panic(*p),
        }
    }
}

/// The meaning of one source line. In order: `.` starts a literal (a quoted
/// string, or hex bytes with an optional `0x`), a final `:` marks a label; an empty line is skipped; otherwise the text before the first
/// space is the mnemonic and the rest its comma-separated arguments.
pub open spec fn lex_line(line: Seq<char>) -> LineView {
    let l = code_part(line);
    if l.len() > 0 && l[0] == '.' {
        let rest = l.skip(1);
        if rest.len() > 0 && rest[0] == '"' {
            match string_literal(rest) {
                Ok(b) => LineView::Literal(b),
                Err(p) => LineView::Panic(p),
            }
        } else {
            let digits = if has_hex_prefix(rest) {
                rest.skip(2)
            } else {
                rest
            };
            match hex_literal(digits) {
                Ok(b) => LineView::Literal(b),
                Err(p) => LineView::Panic(p),
            }
        }
    } else if l.len() > 0 && l[l.len() - 1] == ':' {
        LineView::Emit(TokenView::Label(l.take(l.len() - 1)))
    } else if l.len() == 0 {
        LineView::Skip
    } else {
        match find_char(l, ' ', 0) {
            None => LineView::Stop,
            Some(k) => match parse_args(l.skip(k + 1)) {
                Ok(args) => LineView::Emit(TokenView::Instruction(l.take(k), args)),
                Err(e) => LineView::Fail(e),
            },
        }
    }
}

/// What one source line means (`lex_line`).
pub fn lex_line_exec(line: &Vec<char>) -> (r: Line)
    ensures
        r@ == lex_line(line@),
{
    let l = code_part_exec(line);
    let n = l.len();
    if starts_with(&l, '.') {
        let rest = subvec(&l, 1, n);
        assert(rest@ == l@.skip(1));
        if starts_with(&rest, '"') {
            match string_literal_panic(&rest) {
                Some(p) => Line::Panic(p),
                None => Line::Literal(parse_string(&rest)),
            }
        } else {
            let digits = if hex_prefix(&rest) {
                let d = subvec(&rest, 2, rest.len());
                assert(d@ == rest@.skip(2));
                d
            } else {
                rest
            };
            match hex_literal_panic(&digits) {
                Some(p) => Line::Panic(p),
                None => Line::Literal(parse_hex_literal(&digits)),
            }
        }
    } else if n > 0 && l[n - 1] == ':' {
        let name = subvec(&l, 0, n - 1);
        Line::Emit(Token::Label(string_from_chars(name.as_slice())))
    } else if n == 0 {
        Line::Skip
    } else {
        match find_char_exec(&l, ' ') {
            None => Line::Stop,
            Some(k) => {
                let rest = subvec(&l, k + 1, n);
                assert(rest@ == l@.skip(k + 1));
                match parse_args_exec(&rest) {
                    Ok(args) => {
                        let op = subvec(&l, 0, k);
                        Line::Emit(Token::Instruction(string_from_chars(op.as_slice()), args))
                    },
                    Err(e) => Line::Fail(e),
                }
            },
        }
    }
}

// ---------------------------------------------------------------- the tokenizer

/// A tokenizer over the lines of a source file. Like an iterator, `next` hands
/// out one token at a time; the bytes of a literal come out one by one.
pub struct Tokenizer {
    lines: Vec<String>,
    pos: usize,
    literal: Vec<u8>,
    literal_pos: usize,
    error: bool,
}

/// The state of a tokenizer: the lines, the index of the next line to read,
/// the literal bytes still to hand out, and whether it has failed.
pub struct TokenizerView {
    pub lines: Seq<Seq<char>>,
    pub pos: int,
    pub pending: Seq<u8>,
    pub error: bool,
}

/// What `next` does from a state: the state after the call and what it
/// returns, or the kind of input on which the tokenizer stops the program.
pub enum NextView {
    Yield(TokenizerView, Option<Result<TokenView, LexErrorView>>),
    Panic(LexPanic),
}

/// The view of what `next` returns.
pub open spec fn item_view(r: Option<Result<Token, LexError>>) -> Option<Result<TokenView, LexErrorView>> {
    match r {
        None => None,
        Some(Ok(t)) => Some(Ok(t@)),
        Some(Err(e)) => Some(Err(e@)),
    }
}

/// `next` from state `v`. After an error it returns nothing; pending literal
/// bytes come first; then lines are read until one yields something: empty
/// lines are skipped, a literal line loads its bytes, an instruction without
/// a space yields nothing (a later call goes on with the next line), and a
/// refused argument yields the error and ends the stream.
pub open spec fn next_from(v: TokenizerView) -> NextView
    decreases v.lines.len() - v.pos,
{
    if v.error {
        NextView::Yield(v, None)
    } else if v.pending.len() > 0 {
        NextView::Yield(
            TokenizerView { pending: v.pending.drop_first(), ..v },
            Some(Ok(TokenView::Byte(v.pending[0]))),
        )
    } else if v.pos < 0 || v.pos >= v.lines.len() {
        NextView::Yield(v, None)
    } else {
        let w = TokenizerView { pos: v.pos + 1, ..v };
        match lex_line(v.lines[v.pos]) {
            LineView::Skip => next_from(w),
            LineView::Literal(b) => next_from(TokenizerView { pending: b, ..w }),
            LineView::Emit(t) => NextView::Yield(w, Some(Ok(t))),
            LineView::Stop => NextView::Yield(w, None),
            LineView::Fail(e) => NextView::Yield(TokenizerView { error: true, ..w }, Some(Err(e))),
            LineView::Panic(p) => NextView::Panic(p),
        }
    }
}

/// The state of a fresh tokenizer over `lines`.
pub open spec fn start(lines: Seq<Seq<char>>) -> TokenizerView {
    TokenizerView { lines, pos: 0, pending: Seq::empty(), error: false }
}

impl Tokenizer {
    pub closed spec fn view(&self) -> TokenizerView {
        TokenizerView {
            lines: self.lines@.map_values(|l: String| l@),
            pos: self.pos as int,
            pending: if self.literal_pos <= self.literal@.len() {
                self.literal@.skip(self.literal_pos as int)
            } else {
                Seq::empty()
            },
            error: self.error,
        }
    }

    /// A tokenizer over `lines`, the lines of a source file without their line ends.
    pub fn new(lines: Vec<String>) -> (tokenizer: Tokenizer)
        ensures
            tokenizer.view() == start(lines@.map_values(|l: String| l@)),
    {
        let tokenizer = Tokenizer { lines, pos: 0, literal: Vec::new(), literal_pos: 0, error: false };
        assert(tokenizer.view().pending =~= Seq::<u8>::empty());
        tokenizer
    }

    fn step(&mut self) -> (r: Result<Option<Result<Token, LexError>>, LexPanic>)
        ensures
            match r {
                Ok(item) => next_from(old(self).view()) == NextView::Yield(final(self).view(), item_view(item)),
                Err(p) => next_from(old(self).view()) == NextView::Panic(p),
            },
    {
        if self.error {
            return Ok(None);
        }
        if self.literal_pos < self.literal.len() {
            let b = self.literal[self.literal_pos];
            let ghost before = self.view();
            self.literal_pos = self.literal_pos + 1;
            assert(self.view().pending =~= before.pending.drop_first());
            assert(self.view().lines == before.lines);
            return Ok(Some(Ok(Token::Byte(b))));
        }
        let ghost first = self.view();
        assert(first.pending.len() == 0);
        self.literal = Vec::new();
        self.literal_pos = 0;
        assert(self.view().pending =~= first.pending);
        assert(self.view() == first);
        while self.pos < self.lines.len()
            invariant
                !self.error,
                first == old(self).view(),
                self.view().lines == first.lines,
                self.view().lines.len() == self.lines@.len(),
                self.view().pending.len() == 0,
                self.literal@.len() == 0,
                self.literal_pos == 0,
                next_from(first) == next_from(self.view()),
            decreases self.lines@.len() - self.pos,
        {
            let ghost cur = self.view();
            let line = chars_of(self.lines[self.pos].as_str());
            assert(line@ == cur.lines[cur.pos]);
            self.pos = self.pos + 1;
            let ghost w = TokenizerView { pos: cur.pos + 1, ..cur };
            assert(self.view() == w);
            match lex_line_exec(&line) {
                Line::Skip => {
                    assert(next_from(cur) == next_from(w));
                },
                Line::Literal(b) => {
                    if b.len() > 0 {
                        let x = b[0];
                        self.literal = b;
                        self.literal_pos = 1;
                        assert(self.view().pending =~= self.literal@.drop_first());
                        assert(self.view() == TokenizerView { pending: b@.drop_first(), ..w });
                        assert(b@[0] == x);
                        assert(next_from(TokenizerView { pending: b@, ..w }) == NextView::Yield(
                            self.view(),
                            Some(Ok(TokenView::Byte(x))),
                        ));
                        return Ok(Some(Ok(Token::Byte(x))));
                    }
                    assert(b@ =~= Seq::<u8>::empty());
                    assert(w.pending =~= b@);
                    assert(TokenizerView { pending: b@, ..w } == w);
                    assert(next_from(cur) == next_from(w));
                },
                Line::Emit(t) => {
                    return Ok(Some(Ok(t)));
                },
                Line::Stop => {
                    return Ok(None);
                },
                Line::Fail(e) => {
                    self.error = true;
                    return Ok(Some(Err(e)));
                },
                Line::Panic(p) => {
                    return Err(p);
                },
            }
        }
        Ok(None)
    }

    /// The kind of input on which the next call of `next` would stop the
    /// program, if it would.
    pub fn next_panic(&self) -> (r: Option<LexPanic>)
        ensures
            r == panic_of(next_from(self.view())),
    {
        if self.error || self.literal_pos < self.literal.len() {
            return None;
        }
        let ghost v = self.view();
        assert(v.pending =~= Seq::<u8>::empty());
        let mut i = self.pos;
        while i < self.lines.len()
            invariant
                v == self.view(),
                !v.error,
                v.pending.len() == 0,
                v.lines.len() == self.lines@.len(),
                self.pos <= i,
                panic_of(next_from(v)) == panic_of(next_from(TokenizerView { pos: i as int, ..v })),
            decreases self.lines@.len() - i,
        {
            let ghost cur = TokenizerView { pos: i as int, ..v };
            let line = chars_of(self.lines[i].as_str());
            assert(line@ == cur.lines[cur.pos]);
            let ghost w = TokenizerView { pos: cur.pos + 1, ..cur };
            match lex_line_exec(&line) {
                Line::Skip => {
                    assert(next_from(cur) == next_from(w));
                },
                Line::Literal(b) => {
                    if b.len() > 0 {
                        assert(next_from(TokenizerView { pending: b@, ..w }) is Yield);
                        return None;
                    }
                    assert(w.pending =~= b@);
                    assert(TokenizerView { pending: b@, ..w } == w);
                    assert(next_from(cur) == next_from(w));
                },
                Line::Panic(p) => {
                    return Some(p);
                },
                _ => {
                    return None;
                },
            }
            i = i + 1;
        }
        None
    }

    /// The next token, or nothing when the stream pauses or ends; the result
    /// and the new state are those of `next_from`.
    pub fn next(&mut self) -> (r: Option<Result<Token, LexError>>)
        requires
            !(next_from(old(self).view()) is Panic),
        ensures
            next_from(old(self).view()) == NextView::Yield(final(self).view(), item_view(r)),
    {
        match self.step() {
            Ok(item) => item,
            Err(_) => None,
        }
    }
}

/// The kind of input on which a call stops the program, if it does.
pub open spec fn panic_of(n: NextView) -> Option<LexPanic> {
    match n {
        NextView::Panic(p) => Some(p),
        NextView::Yield(..) => None,
    }
}

/// The number of lines not yet read.
pub open spec fn lines_left(v: TokenizerView) -> nat {
    if 0 <= v.pos <= v.lines.len() {
        (v.lines.len() - v.pos) as nat
    } else {
        0
    }
}

/// Every call of `next` that yields something makes progress: it reads a
/// line or hands out a pending byte.
pub proof fn lemma_next_progress(v: TokenizerView)
    ensures
        next_from(v) matches NextView::Yield(w, Some(_)) ==> w.lines == v.lines && (lines_left(w)
            < lines_left(v) || (lines_left(w) == lines_left(v) && w.pending.len() < v.pending.len())),
    decreases v.lines.len() - v.pos,
{
    if !v.error && v.pending.len() == 0 && 0 <= v.pos < v.lines.len() {
        let w = TokenizerView { pos: v.pos + 1, ..v };
        match lex_line(v.lines[v.pos]) {
            LineView::Skip => {
                lemma_next_progress(w);
            },
            LineView::Literal(b) => {
                lemma_next_progress(TokenizerView { pending: b, ..w });
            },
            _ => {},
        }
    }
}

/// What collecting the whole token stream gives: the tokens up to the
/// first pause or end, or the first error, or the kind of input on which
/// the tokenizer stops the program.
pub enum CollectView {
    Done(Result<Seq<TokenView>, LexErrorView>),
    Panic(LexPanic),
}

/// Collecting from state `v`, after the tokens `acc`.
pub open spec fn collect_from(v: TokenizerView, acc: Seq<TokenView>) -> CollectView
    decreases lines_left(v), v.pending.len(),
{
    match next_from(v) {
        NextView::Panic(p) => CollectView::Panic(p),
        NextView::Yield(_, None) => CollectView::Done(Ok(acc)),
        NextView::Yield(_, Some(Err(e))) => CollectView::Done(Err(e)),
        NextView::Yield(w, Some(Ok(t))) => {
            proof {
                lemma_next_progress(v);
            }
            collect_from(w, acc.push(t))
        },
    }
}

/// The view of what `tokenize_source` returns.
pub open spec fn collect_view(r: Result<Result<Vec<Token>, LexError>, LexPanic>) -> CollectView {
    match r {
        Ok(Ok(t)) => CollectView::Done(Ok(tokens_view(t@))),
        Ok(Err(e)) => CollectView::Done(Err(e@)),
        Err(p) => CollectView::Panic(p),
    }
}

/// Tokenizes a whole source, as collecting the tokenizer into a `Result<Vec<_>, _>`
/// does: the tokens up to the first pause or end, or the first error; `Err`
/// names the kind of input on which the tokenizer would stop the program.
pub fn tokenize_source(lines: Vec<String>) -> (r: Result<Result<Vec<Token>, LexError>, LexPanic>)
    ensures
        collect_view(r) == collect_from(start(lines@.map_values(|l: String| l@)), Seq::empty()),
{
    let ghost v0 = start(lines@.map_values(|l: String| l@));
    let mut tokenizer = Tokenizer::new(lines);
    let mut out: Vec<Token> = Vec::new();
    assert(tokens_view(out@) =~= Seq::<TokenView>::empty());
    loop
        invariant
            v0 == start(lines@.map_values(|l: String| l@)),
            collect_from(v0, Seq::empty()) == collect_from(tokenizer.view(), tokens_view(out@)),
        decreases lines_left(tokenizer.view()), tokenizer.view().pending.len(),
    {
        let ghost before = tokenizer.view();
        proof {
            lemma_next_progress(before);
        }
        match tokenizer.step() {
            Err(p) => {
                return Err(p);
            },
            Ok(None) => {
                return Ok(Ok(out));
            },
            Ok(Some(Err(e))) => {
                return Ok(Err(e));
            },
            Ok(Some(Ok(t))) => {
                let ghost prev = tokens_view(out@);
                out.push(t);
                assert(tokens_view(out@) =~= prev.push(t@));
            },
        }
    }
}

} // verus!

verus! {

/// Once the tokenizer has reported an error, it yields nothing more.
pub proof fn law_error_is_final(v: TokenizerView)
    ensures
        next_from(v) matches NextView::Yield(w, Some(Err(_))) ==> w.error && next_from(w)
            == NextView::Yield(w, None),
    decreases v.lines.len() - v.pos,
{
    if !v.error && v.pending.len() == 0 && 0 <= v.pos < v.lines.len() {
        let w = TokenizerView { pos: v.pos + 1, ..v };
        match lex_line(v.lines[v.pos]) {
            LineView::Skip => {
                law_error_is_final(w);
            },
            LineView::Literal(b) => {
                law_error_is_final(TokenizerView { pending: b, ..w });
            },
            _ => {},
        }
    }
}

proof fn lemma_collect_pending(v: TokenizerView, acc: Seq<TokenView>)
    requires
        !v.error,
        v.pos == v.lines.len(),
    ensures
        collect_from(v, acc) == CollectView::Done(
            Ok(acc + v.pending.map_values(|x: u8| TokenView::Byte(x))),
        ),
    decreases v.pending.len(),
{
    if v.pending.len() == 0 {
        assert(acc + v.pending.map_values(|x: u8| TokenView::Byte(x)) =~= acc);
    } else {
        let w = TokenizerView { pending: v.pending.drop_first(), ..v };
        let t = TokenView::Byte(v.pending[0]);
        lemma_collect_pending(w, acc.push(t));
        assert(acc.push(t) + w.pending.map_values(|x: u8| TokenView::Byte(x)) =~= acc
            + v.pending.map_values(|x: u8| TokenView::Byte(x)));
    }
}

/// A source of one literal line tokenizes to the literal's bytes, one `Byte`
/// token each, in order.
pub proof fn law_literal_line_bytes(line: Seq<char>, b: Seq<u8>)
    requires
        lex_line(line) == LineView::Literal(b),
    ensures
        collect_from(start(seq![line]), Seq::empty()) == CollectView::Done(
            Ok(b.map_values(|x: u8| TokenView::Byte(x))),
        ),
{
    let v0 = start(seq![line]);
    let v1 = TokenizerView { pos: 1, pending: b, ..v0 };
    assert(next_from(v0) == next_from(v1));
    lemma_collect_pending(v1, Seq::empty());
    assert(Seq::<TokenView>::empty() + b.map_values(|x: u8| TokenView::Byte(x)) =~= b.map_values(
        |x: u8| TokenView::Byte(x),
    ));
    assert(collect_from(v0, Seq::empty()) == collect_from(v1, Seq::empty()));
}

} // verus!

verus! {

/// A `--` comment at the end of a line does not change what the line
/// means, wherever `comment_can_follow(code)`.
pub proof fn law_comment_does_not_change_line(code: Seq<char>, comment: Seq<char>)
    requires
        comment_can_follow(code),
    ensures
        lex_line(code + seq!['-', '-'] + comment) == lex_line(code),
{
    law_comment_is_ignored(code, comment);
}

} // verus!

verus! {

/// The tokenizer reads `#0x` followed by one to four hexadecimal digits as
/// the immediate those digits write, over the whole range `0..=0xFFFF`.
pub proof fn law_hex_immediates_cover_sixteen_bits(h: Seq<char>)
    requires
        1 <= h.len() <= 4,
        forall|j: int| 0 <= j < h.len() ==> is_hex_digit(#[trigger] h[j]),
    ensures
        0 <= hex_number(h) <= 0xFFFF,
        parse_arg(seq!['#', '0', 'x'] + h) == Ok::<ArgView, LexErrorView>(ArgView::Immediate(hex_number(h) as u16)),
{
    let init = seq!['#', '0', 'x'] + h;
    assert(pow16(h.len()) <= 65536) by {
        reveal_with_fuel(pow16, 5);
    }
    lemma_hex_parses(h, 65535);
    assert(is_hex_digit(h[0]));
    assert(is_hex_digit(h[h.len() - 1]));
    assert(init.last() == h.last());
    assert(!is_whitespace(init[0]));
    assert(!is_whitespace(init.last()));
    assert(skip_whitespace(init, 0) == 0);
    assert(trim_start(init) =~= init);
    assert(drop_trailing_whitespace(init, init.len() as int) == init.len());
    assert(trim(init) =~= init);
    let rest = init.skip(1);
    assert(rest[0] == '0' && rest[1] == 'x');
    assert(rest.skip(2) =~= h);
}

/// The tokenizer reads `#` followed by one to nine decimal digits as the
/// number they write modulo 65536, and `#-` followed by them as its
/// negation modulo 65536.
pub proof fn law_decimal_immediates(d: Seq<char>)
    requires
        1 <= d.len() <= 9,
        forall|j: int| 0 <= j < d.len() ==> is_decimal_digit(#[trigger] d[j]),
    ensures
        parse_arg(seq!['#'] + d) == Ok::<ArgView, LexErrorView>(
            ArgView::Immediate((decimal_number(d) % 65536) as u16),
        ),
        parse_arg(seq!['#', '-'] + d) == Ok::<ArgView, LexErrorView>(
            ArgView::Immediate(((65536 - decimal_number(d) % 65536) % 65536) as u16),
        ),
{
    assert(pow10(d.len()) <= 1_000_000_000) by {
        reveal_with_fuel(pow10, 10);
    }
    lemma_decimal_parses(d, -0x8000_0000, 0x7fff_ffff);
    assert(is_decimal_digit(d[0]));
    assert(is_decimal_digit(d[d.len() - 1]));
    let pos = seq!['#'] + d;
    let neg = seq!['#', '-'] + d;
    assert(pos.last() == d.last());
    assert(neg.last() == d.last());
    lemma_trim_unchanged(pos);
    lemma_trim_unchanged(neg);
    assert(pos.skip(1) =~= d);
    assert(neg.skip(1) =~= seq!['-'] + d);
    let n = decimal_number(d);
    assert((-n) % 65536 == (65536 - n % 65536) % 65536) by (nonlinear_arith)
        requires
            0 <= n,
    ;
}

} // verus!
