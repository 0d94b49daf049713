//! The assembly lexer used by the assembler: turns source lines into labels,
//! instructions with their arguments, directives and literal bytes.
use vstd::prelude::*;
use crate::text::{
    LexError, LexErrorView, LexPanic, chars_of, code_part, code_part_exec, comment_can_follow,
    find_char, find_char_exec, has_hex_prefix, hex_prefix, law_comment_is_ignored,
    lemma_find_char_range, parse_int, parse_int_exec, parse_string, string_literal_panic, starts_with,
    string_from_chars, string_literal, subvec, trim, trim_chars, decimal_number, hex_number, is_decimal_digit,
    is_hex_digit, lemma_decimal_parses, lemma_hex_parses, lemma_trim_unchanged, pow10, pow16,
};

verus! {

/// One item of assembly source.
#[derive(Debug, Clone, PartialEq, Eq)]
pub enum Token {
    /// `name:`
    Label(String),
    /// A mnemonic and its comma-separated arguments.
    Instruction(String, Vec<InstructionArg>),
    /// One byte of a `.` literal.
    Byte(u8),
    /// `#text`
    Directive(String),
}

/// An instruction argument.
#[derive(Debug, Clone, PartialEq, Eq)]
pub enum InstructionArg {
    /// `%Rn`
    Register(u8),
    /// `#n` (decimal, possibly negative) or `#0xNN`
    Immediate(u8),
    /// `$name`
    Label(String),
}

pub enum ArgView {
    Register(u8),
    Immediate(u8),
    Label(Seq<char>),
}

pub enum TokenView {
    Label(Seq<char>),
    Instruction(Seq<char>, Seq<ArgView>),
    Byte(u8),
    Directive(Seq<char>),
}

impl View for InstructionArg {
    type V = ArgView;

    open spec fn view(&self) -> ArgView {
        match self {
            InstructionArg::Register(r) => ArgView::Register(*r),
            InstructionArg::Immediate(i) => ArgView::Immediate(*i),
            InstructionArg::Label(s) => ArgView::Label(s@),
        }
    }
}

/// The arguments of an instruction as a sequence of views.
pub open spec fn args_view(args: Seq<InstructionArg>) -> Seq<ArgView> {
    args.map_values(|a: InstructionArg| a@)
}

impl View for Token {
    type V = TokenView;

    open spec fn view(&self) -> TokenView {
        match self {
            Token::Label(s) => TokenView::Label(s@),
            Token::Instruction(op, args) => TokenView::Instruction(op@, args_view(args@)),
            Token::Byte(b) => TokenView::Byte(*b),
            Token::Directive(s) => TokenView::Directive(s@),
        }
    }
}

/// The tokens of a sequence as views.
pub open spec fn tokens_view(tokens: Seq<Token>) -> Seq<TokenView> {
    tokens.map_values(|t: Token| t@)
}

// ---------------------------------------------------------------- arguments

/// The low byte of an integer (`as u8`).
pub open spec fn low_byte(v: int) -> u8 {
    (v % 256) as u8
}

/// What one comma-separated argument means; `init` is the argument as written.
pub open spec fn parse_arg(init: Seq<char>) -> Result<ArgView, LexErrorView> {
    let arg = trim(init);
    if arg.len() > 0 && arg[0] == '#' {
        let rest = arg.skip(1);
        if has_hex_prefix(rest) {
            match parse_int(rest.skip(2), 16, false, 0, 255) {
                Ok(v) => Ok(ArgView::Immediate(v as u8)),
                Err(e) => Err(LexErrorView::InvalidNumber(e)),
            }
        } else {
            match parse_int(rest, 10, true, -32768, 32767) {
                Ok(v) => Ok(ArgView::Immediate(low_byte(v))),
                Err(e) => Err(LexErrorView::InvalidNumber(e)),
            }
        }
    } else if arg.len() > 0 && arg[0] == '%' {
        let rest = arg.skip(1);
        if !(rest.len() > 0 && rest[0] == 'R') {
            Err(LexErrorView::ExpectedRegister(init))
        } else {
            match parse_int(rest.skip(1), 10, false, 0, 255) {
                Ok(v) => Ok(ArgView::Register(v as u8)),
                Err(e) => Err(LexErrorView::InvalidNumber(e)),
            }
        }
    } else if arg.len() > 0 && arg[0] == '$' {
        Ok(ArgView::Label(arg.skip(1)))
    } else {
        Err(LexErrorView::ExpectedArgument(init))
    }
}

/// The comma-separated arguments of `s`, parsed left to right up to the first error.
pub open spec fn parse_args(s: Seq<char>) -> Result<Seq<ArgView>, LexErrorView>
    decreases s.len(),
{
    match find_char(s, ',', 0) {
        None => match parse_arg(s) {
            Ok(a) => Ok(seq![a]),
            Err(e) => Err(e),
        },
        Some(k) => {
            proof {
                lemma_find_char_range(s, ',', 0);
            }
            match parse_arg(s.take(k)) {
                Err(e) => Err(e),
                Ok(a) => match parse_args(s.skip(k + 1)) {
                    Ok(r) => Ok(seq![a] + r),
                    Err(e) => Err(e),
                },
            }
        },
    }
}

fn parse_arg_exec(init: &Vec<char>) -> (r: Result<InstructionArg, LexError>)
    ensures
        match r {
            Ok(a) => parse_arg(init@) == Ok::<ArgView, LexErrorView>(a@),
            Err(e) => parse_arg(init@) == Err::<ArgView, LexErrorView>(e@),
        },
{
    let arg = trim_chars(init);
    if starts_with(&arg, '#') {
        let rest = subvec(&arg, 1, arg.len());
        assert(rest@ == arg@.skip(1));
        if hex_prefix(&rest) {
            let digits = subvec(&rest, 2, rest.len());
            assert(digits@ == rest@.skip(2));
            match parse_int_exec(&digits, 16, false, 0, 255) {
                Ok(v) => Ok(InstructionArg::Immediate(v as u8)),
                Err(e) => Err(LexError::InvalidNumber(e)),
            }
        } else {
            match parse_int_exec(&rest, 10, true, -32768, 32767) {
                Ok(v) => {
                    let b = if v < 0 {
                        ((v + 65536) % 256) as u8
                    } else {
                        (v % 256) as u8
                    };
                    assert(b == low_byte(v as int));
                    Ok(InstructionArg::Immediate(b))
                },
                Err(e) => Err(LexError::InvalidNumber(e)),
            }
        }
    } else if starts_with(&arg, '%') {
        let rest = subvec(&arg, 1, arg.len());
        assert(rest@ == arg@.skip(1));
        if !starts_with(&rest, 'R') {
            return Err(LexError::ExpectedRegister(string_from_chars(init.as_slice())));
        }
        let digits = subvec(&rest, 1, rest.len());
        assert(digits@ == rest@.skip(1));
        match parse_int_exec(&digits, 10, false, 0, 255) {
            Ok(v) => Ok(InstructionArg::Register(v as u8)),
            Err(e) => Err(LexError::InvalidNumber(e)),
        }
    } else if starts_with(&arg, '$') {
        let name = subvec(&arg, 1, arg.len());
        assert(name@ == arg@.skip(1));
        Ok(InstructionArg::Label(string_from_chars(name.as_slice())))
    } else {
        Err(LexError::ExpectedArgument(string_from_chars(init.as_slice())))
    }
}

/// The parsed arguments in front of what the rest of a line gives.
pub open spec fn prepend_args(done: Seq<ArgView>, rest: Result<Seq<ArgView>, LexErrorView>) -> Result<
    Seq<ArgView>,
    LexErrorView,
> {
    match rest {
        Ok(r) => Ok(done + r),
        Err(e) => Err(e),
    }
}

fn parse_args_exec(s: &Vec<char>) -> (r: Result<Vec<InstructionArg>, LexError>)
    ensures
        match r {
            Ok(a) => parse_args(s@) == Ok::<Seq<ArgView>, LexErrorView>(args_view(a@)),
            Err(e) => parse_args(s@) == Err::<Seq<ArgView>, LexErrorView>(e@),
        },
{
    let mut out: Vec<InstructionArg> = Vec::new();
    let mut rest = subvec(s, 0, s.len());
    assert(rest@ =~= s@);
    loop
        invariant
            parse_args(s@) == prepend_args(args_view(out@), parse_args(rest@)),
        decreases rest@.len(),
    {
        match find_char_exec(&rest, ',') {
            None => {
                match parse_arg_exec(&rest) {
                    Ok(a) => {
                        let ghost before = args_view(out@);
                        out.push(a);
                        assert(args_view(out@) =~= before + seq![a@]);
                        return Ok(out);
                    },
                    Err(e) => {
                        return Err(e);
                    },
                }
            },
            Some(k) => {
                let n = rest.len();
                assert(k < n);
                let piece = subvec(&rest, 0, k);
                assert(piece@ == rest@.take(k as int));
                match parse_arg_exec(&piece) {
                    Ok(a) => {
                        let ghost before = args_view(out@);
                        out.push(a);
                        assert(args_view(out@) =~= before + seq![a@]);
                        let next = subvec(&rest, k + 1, n);
                        assert(next@ == rest@.skip(k + 1));
                        proof {
                            match parse_args(next@) {
                                Ok(r) => {
                                    assert(before + (seq![a@] + r) =~= (before + seq![a@]) + r);
                                },
                                Err(_) => {},
                            }
                        }
                        rest = next;
                    },
                    Err(e) => {
                        return Err(e);
                    },
                }
            },
        }
    }
}

// ---------------------------------------------------------------- lines

/// Every character of `s` is ASCII.
pub open spec fn all_ascii(s: Seq<char>) -> bool {
    forall|j: int| 0 <= j < s.len() ==> (#[trigger] s[j] as u32) < 128
}

/// The bytes of a hex literal: the text is read two bytes at a time, each
/// pair parsed as a hexadecimal `u8`; a last lone digit is ignored.
/// Text that is not ASCII, or a pair that does not parse, stops the program.
pub open spec fn hex_literal(s: Seq<char>) -> Result<Seq<u8>, LexPanic> {
    if !all_ascii(s) {
        Err(LexPanic::InvalidHex)
    } else {
        hex_pairs(s, 0, Seq::empty())
    }
}

pub open spec fn hex_pairs(s: Seq<char>, i: int, acc: Seq<u8>) -> Result<Seq<u8>, LexPanic>
    decreases s.len() - i,
{
    if i < 0 || i + 2 > s.len() {
        Ok(acc)
    } else {
        match parse_int(s.subrange(i, i + 2), 16, false, 0, 255) {
            Ok(v) => hex_pairs(s, i + 2, acc.push(v as u8)),
            Err(_) => Err(LexPanic::InvalidHex),
        }
    }
}

/// Reads a hex literal: its bytes, or the kind of input on which the
/// lexer stops the program.
fn scan_hex_literal(s: &Vec<char>) -> (r: Result<Vec<u8>, LexPanic>)
    ensures
        match r {
            Ok(b) => hex_literal(s@) == Ok::<Seq<u8>, LexPanic>(b@),
            Err(p) => hex_literal(s@) == Err::<Seq<u8>, LexPanic>(p),
        },
{
    let mut i: usize = 0;
    while i < s.len()
        invariant
            i <= s@.len(),
            forall|j: int| 0 <= j < i ==> (#[trigger] s@[j] as u32) < 128,
        decreases s@.len() - i,
    {
        if (s[i] as u32) >= 128 {
            return Err(LexPanic::InvalidHex);
        }
        i = i + 1;
    }
    let mut value: Vec<u8> = Vec::new();
    let mut i: usize = 0;
    let n = s.len();
    while i < n && n - i >= 2
        invariant
            n == s@.len(),
            i <= n,
            all_ascii(s@),
            hex_literal(s@) == hex_pairs(s@, i as int, value@),
        decreases n - i,
    {
        let pair = subvec(s, i, i + 2);
        match parse_int_exec(&pair, 16, false, 0, 255) {
            Ok(v) => value.push(v as u8),
            Err(_) => {
                return Err(LexPanic::InvalidHex);
            },
        }
        i = i + 2;
    }
    Ok(value)
}

/// The kind of input on which reading the hex literal `s` stops the
/// program, if any.
fn hex_literal_panic(s: &Vec<char>) -> (r: Option<LexPanic>)
    ensures
        match hex_literal(s@) {
            Ok(_) => r is None,
            Err(p) => r == Some(p),
        },
{
    match scan_hex_literal(s) {
        Ok(_) => None,
        Err(p) => Some(p),
    }
}

/// The bytes of a well-formed hex literal (`hex_literal_panic` gives `None`).
fn parse_hex_literal(s: &Vec<char>) -> (b: Vec<u8>)
    requires
        hex_literal(s@) is Ok,
    ensures
        hex_literal(s@) == Ok::<Seq<u8>, LexPanic>(b@),
{
    match scan_hex_literal(s) {
        Ok(b) => b,
        Err(_) => Vec::new(),
    }
}

/// What one source line amounts to.
pub enum LineView {
    /// Nothing: the line is empty once comments and whitespace are gone.
    Skip,
    /// A `.` literal with these bytes.
    Literal(Seq<u8>),
    /// One token.
    Emit(TokenView),
    /// An instruction without a space: the token stream pauses here.
    Stop,
    /// A refused argument.
    Fail(LexErrorView),
    /// A literal on which the lexer stops the program.
    Panic(LexPanic),
}

pub enum Line {
    Skip,
    Literal(Vec<u8>),
    Emit(Token),
    Stop,
    Fail(LexError),
    Panic(LexPanic),
}

impl View for Line {
    type V = LineView;

    open spec fn view(&self) -> LineView {
        match self {
            Line::Skip => LineView::Skip,
            Line::Literal(b) => LineView::Literal(b@),
            Line::Emit(t) => LineView::Emit(t@),
            Line::Stop => LineView::Stop,
            Line::Fail(e) => LineView::Fail(e@),
            Line::Panic(p) => LineView::Panic(*p),
        }
    }
}

/// The meaning of one source line. In order: `.` starts a literal (a quoted
/// string, or hex bytes with an optional `0x`), `#` a directive, a final `:`
/// a label; an empty line is skipped; otherwise the text before the first
/// space is the mnemonic and the rest its comma-separated arguments.
pub open spec fn lex_line(line: Seq<char>) -> LineView {
    let l = code_part(line);
    if l.len() > 0 && l[0] == '.' {
        let rest = l.skip(1);
        if rest.len() > 0 && rest[0] == '"' {
            match string_literal(rest) {
                Ok(b) => LineView::Literal(b),
                Err(p) => LineView::Panic(p),
            }
        } else {
            let digits = if has_hex_prefix(rest) {
                rest.skip(2)
            } else {
                rest
            };
            match hex_literal(digits) {
                Ok(b) => LineView::Literal(b),
                Err(p) => LineView::Panic(p),
            }
        }
    } else if l.len() > 0 && l[0] == '#' {
        LineView::Emit(TokenView::Directive(l.skip(1)))
    } else if l.len() > 0 && l[l.len() - 1] == ':' {
        LineView::Emit(TokenView::Label(l.take(l.len() - 1)))
    } else if l.len() == 0 {
        LineView::Skip
    } else {
        match find_char(l, ' ', 0) {
            None => LineView::Stop,
            Some(k) => match parse_args(l.skip(k + 1)) {
                Ok(args) => LineView::Emit(TokenView::Instruction(l.take(k), args)),
                Err(e) => LineView::Fail(e),
            },
        }
    }
}

/// What one source line means (`lex_line`).
pub fn lex_line_exec(line: &Vec<char>) -> (r: Line)
    ensures
        r@ == lex_line(line@),
{
    let l = code_part_exec(line);
    let n = l.len();
    if starts_with(&l, '.') {
        let rest = subvec(&l, 1, n);
        assert(rest@ == l@.skip(1));
        if starts_with(&rest, '"') {
            match string_literal_panic(&rest) {
                Some(p) => Line::Panic(p),
                None => Line::Literal(parse_string(&rest)),
            }
        } else {
            let digits = if hex_prefix(&rest) {
                let d = subvec(&rest, 2, rest.len());
                assert(d@ == rest@.skip(2));
                d
            } else {
                rest
            };
            match hex_literal_panic(&digits) {
                Some(p) => Line::Panic(p),
                None => Line::Literal(parse_hex_literal(&digits)),
            }
        }
    } else if starts_with(&l, '#') {
        let d = subvec(&l, 1, n);
        assert(d@ == l@.skip(1));
        Line::Emit(Token::Directive(string_from_chars(d.as_slice())))
    } else if n > 0 && l[n - 1] == ':' {
        let name = subvec(&l, 0, n - 1);
        Line::Emit(Token::Label(string_from_chars(name.as_slice())))
    } else if n == 0 {
        Line::Skip
    } else {
        match find_char_exec(&l, ' ') {
            None => Line::Stop,
            Some(k) => {
                let rest = subvec(&l, k + 1, n);
                assert(rest@ == l@.skip(k + 1));
                match parse_args_exec(&rest) {
                    Ok(args) => {
                        let op = subvec(&l, 0, k);
                        Line::Emit(Token::Instruction(string_from_chars(op.as_slice()), args))
                    },
                    Err(e) => Line::Fail(e),
                }
            },
        }
    }
}

// ---------------------------------------------------------------- the lexer

/// A lexer over the lines of a source file. Like an iterator, `next` hands
/// out one token at a time; the bytes of a literal come out one by one.
pub struct Lexer {
    lines: Vec<String>,
    pos: usize,
    literal: Vec<u8>,
    literal_pos: usize,
    error: bool,
}

/// The state of a lexer: the lines, the index of the next line to read,
/// the literal bytes still to hand out, and whether it has failed.
pub struct LexerView {
    pub lines: Seq<Seq<char>>,
    pub pos: int,
    pub pending: Seq<u8>,
    pub error: bool,
}

/// What `next` does from a state: the state after the call and what it
/// returns, or the kind of input on which the lexer stops the program.
pub enum NextView {
    Yield(LexerView, Option<Result<TokenView, LexErrorView>>),
    Panic(LexPanic),
}

/// The view of what `next` returns.
pub open spec fn item_view(r: Option<Result<Token, LexError>>) -> Option<Result<TokenView, LexErrorView>> {
    match r {
        None => None,
        Some(Ok(t)) => Some(Ok(t@)),
        Some(Err(e)) => Some(Err(e@)),
    }
}

/// `next` from state `v`. After an error it returns nothing; pending literal
/// bytes come first; then lines are read until one yields something: empty
/// lines are skipped, a literal line loads its bytes, an instruction without
/// a space yields nothing (a later call goes on with the next line), and a
/// refused argument yields the error and ends the stream.
pub open spec fn next_from(v: LexerView) -> NextView
    decreases v.lines.len() - v.pos,
{
    if v.error {
        NextView::Yield(v, None)
    } else if v.pending.len() > 0 {
        NextView::Yield(
            LexerView { pending: v.pending.drop_first(), ..v },
            Some(Ok(TokenView::Byte(v.pending[0]))),
        )
    } else if v.pos < 0 || v.pos >= v.lines.len() {
        NextView::Yield(v, None)
    } else {
        let w = LexerView { pos: v.pos + 1, ..v };
        match lex_line(v.lines[v.pos]) {
            LineView::Skip => next_from(w),
            LineView::Literal(b) => next_from(LexerView { pending: b, ..w }),
            LineView::Emit(t) => NextView::Yield(w, Some(Ok(t))),
            LineView::Stop => NextView::Yield(w, None),
            LineView::Fail(e) => NextView::Yield(LexerView { error: true, ..w }, Some(Err(e))),
            LineView::Panic(p) => NextView::Panic(p),
        }
    }
}

/// The state of a fresh lexer over `lines`.
pub open spec fn start(lines: Seq<Seq<char>>) -> LexerView {
    LexerView { lines, pos: 0, pending: Seq::empty(), error: false }
}

impl Lexer {
    pub closed spec fn view(&self) -> LexerView {
        LexerView {
            lines: self.lines@.map_values(|l: String| l@),
            pos: self.pos as int,
            pending: if self.literal_pos <= self.literal@.len() {
                self.literal@.skip(self.literal_pos as int)
            } else {
                Seq::empty()
            },
            error: self.error,
        }
    }

    /// A lexer over `lines`, the lines of a source file without their line ends.
    pub fn new(lines: Vec<String>) -> (lexer: Lexer)
        ensures
            lexer.view() == start(lines@.map_values(|l: String| l@)),
    {
        let lexer = Lexer { lines, pos: 0, literal: Vec::new(), literal_pos: 0, error: false };
        assert(lexer.view().pending =~= Seq::<u8>::empty());
        lexer
    }

    fn step(&mut self) -> (r: Result<Option<Result<Token, LexError>>, LexPanic>)
        ensures
            match r {
                Ok(item) => next_from(old(self).view()) == NextView::Yield(final(self).view(), item_view(item)),
                Err(p) => next_from(old(self).view()) == NextView::Panic(p),
            },
    {
        if self.error {
            return Ok(None);
        }
        if self.literal_pos < self.literal.len() {
            let b = self.literal[self.literal_pos];
            let ghost before = self.view();
            self.literal_pos = self.literal_pos + 1;
            assert(self.view().pending =~= before.pending.drop_first());
            assert(self.view().lines == before.lines);
            return Ok(Some(Ok(Token::Byte(b))));
        }
        let ghost first = self.view();
        assert(first.pending.len() == 0);
        self.literal = Vec::new();
        self.literal_pos = 0;
        assert(self.view().pending =~= first.pending);
        assert(self.view() == first);
        while self.pos < self.lines.len()
            invariant
                !self.error,
                first == old(self).view(),
                self.view().lines == first.lines,
                self.view().lines.len() == self.lines@.len(),
                self.view().pending.len() == 0,
                self.literal@.len() == 0,
                self.literal_pos == 0,
                next_from(first) == next_from(self.view()),
            decreases self.lines@.len() - self.pos,
        {
            let ghost cur = self.view();
            let line = chars_of(self.lines[self.pos].as_str());
            assert(line@ == cur.lines[cur.pos]);
            self.pos = self.pos + 1;
            let ghost w = LexerView { pos: cur.pos + 1, ..cur };
            assert(self.view() == w);
            match lex_line_exec(&line) {
                Line::Skip => {
                    assert(next_from(cur) == next_from(w));
                },
                Line::Literal(b) => {
                    if b.len() > 0 {
                        let x = b[0];
                        self.literal = b;
                        self.literal_pos = 1;
                        assert(self.view().pending =~= self.literal@.drop_first());
                        assert(self.view() == LexerView { pending: b@.drop_first(), ..w });
                        assert(b@[0] == x);
                        assert(next_from(LexerView { pending: b@, ..w }) == NextView::Yield(
                            self.view(),
                            Some(Ok(TokenView::Byte(x))),
                        ));
                        return Ok(Some(Ok(Token::Byte(x))));
                    }
                    assert(b@ =~= Seq::<u8>::empty());
                    assert(w.pending =~= b@);
                    assert(LexerView { pending: b@, ..w } == w);
                    assert(next_from(cur) == next_from(w));
                },
                Line::Emit(t) => {
                    return Ok(Some(Ok(t)));
                },
                Line::Stop => {
                    return Ok(None);
                },
                Line::Fail(e) => {
                    self.error = true;
                    return Ok(Some(Err(e)));
                },
                Line::Panic(p) => {
                    return Err(p);
                },
            }
        }
        Ok(None)
    }

    /// The kind of input on which the next call of `next` would stop the
    /// program, if it would.
    pub fn next_panic(&self) -> (r: Option<LexPanic>)
        ensures
            r == panic_of(next_from(self.view())),
    {
        if self.error || self.literal_pos < self.literal.len() {
            return None;
        }
        let ghost v = self.view();
        assert(v.pending =~= Seq::<u8>::empty());
        let mut i = self.pos;
        while i < self.lines.len()
            invariant
                v == self.view(),
                !v.error,
                v.pending.len() == 0,
                v.lines.len() == self.lines@.len(),
                self.pos <= i,
                panic_of(next_from(v)) == panic_of(next_from(LexerView { pos: i as int, ..v })),
            decreases self.lines@.len() - i,
        {
            let ghost cur = LexerView { pos: i as int, ..v };
            let line = chars_of(self.lines[i].as_str());
            assert(line@ == cur.lines[cur.pos]);
            let ghost w = LexerView { pos: cur.pos + 1, ..cur };
            match lex_line_exec(&line) {
                Line::Skip => {
                    assert(next_from(cur) == next_from(w));
                },
                Line::Literal(b) => {
                    if b.len() > 0 {
                        assert(next_from(LexerView { pending: b@, ..w }) is Yield);
                        return None;
                    }
                    assert(w.pending =~= b@);
                    assert(LexerView { pending: b@, ..w } == w);
                    assert(next_from(cur) == next_from(w));
                },
                Line::Panic(p) => {
                    return Some(p);
                },
                _ => {
                    return None;
                },
            }
            i = i + 1;
        }
        None
    }

    /// The next token, or nothing when the stream pauses or ends; the result
    /// and the new state are those of `next_from`.
    pub fn next(&mut self) -> (r: Option<Result<Token, LexError>>)
        requires
            !(next_from(old(self).view()) is Panic),
        ensures
            next_from(old(self).view()) == NextView::Yield(final(self).view(), item_view(r)),
    {
        match self.step() {
            Ok(item) => item,
            Err(_) => None,
        }
    }
}

/// The kind of input on which a call stops the program, if it does.
pub open spec fn panic_of(n: NextView) -> Option<LexPanic> {
    match n {
        NextView::Panic(p) => Some(p),
        NextView::Yield(..) => None,
    }
}

/// The number of lines not yet read.
pub open spec fn lines_left(v: LexerView) -> nat {
    if 0 <= v.pos <= v.lines.len() {
        (v.lines.len() - v.pos) as nat
    } else {
        0
    }
}

/// Every call of `next` that yields something makes progress: it reads a
/// line or hands out a pending byte.
pub proof fn lemma_next_progress(v: LexerView)
    ensures
        next_from(v) matches NextView::Yield(w, Some(_)) ==> w.lines == v.lines && (lines_left(w)
            < lines_left(v) || (lines_left(w) == lines_left(v) && w.pending.len() < v.pending.len())),
    decreases v.lines.len() - v.pos,
{
    if !v.error && v.pending.len() == 0 && 0 <= v.pos < v.lines.len() {
        let w = LexerView { pos: v.pos + 1, ..v };
        match lex_line(v.lines[v.pos]) {
            LineView::Skip => {
                lemma_next_progress(w);
            },
            LineView::Literal(b) => {
                lemma_next_progress(LexerView { pending: b, ..w });
            },
            _ => {},
        }
    }
}

/// What collecting the whole token stream gives: the tokens up to the
/// first pause or end, or the first error, or the kind of input on which
/// the lexer stops the program.
pub enum CollectView {
    Done(Result<Seq<TokenView>, LexErrorView>),
    Panic(LexPanic),
}

/// Collecting from state `v`, after the tokens `acc`.
pub open spec fn collect_from(v: LexerView, acc: Seq<TokenView>) -> CollectView
    decreases lines_left(v), v.pending.len(),
{
    match next_from(v) {
        NextView::Panic(p) => CollectView::Panic(p),
        NextView::Yield(_, None) => CollectView::Done(Ok(acc)),
        NextView::Yield(_, Some(Err(e))) => CollectView::Done(Err(e)),
        NextView::Yield(w, Some(Ok(t))) => {
            proof {
                lemma_next_progress(v);
            }
            collect_from(w, acc.push(t))
        },
    }
}

/// The view of what `lex_source` returns.
pub open spec fn collect_view(r: Result<Result<Vec<Token>, LexError>, LexPanic>) -> CollectView {
    match r {
        Ok(Ok(t)) => CollectView::Done(Ok(tokens_view(t@))),
        Ok(Err(e)) => CollectView::Done(Err(e@)),
        Err(p) => CollectView::Panic(p),
    }
}

/// Lexes a whole source, as collecting the lexer into a `Result<Vec<_>, _>`
/// does: the tokens up to the first pause or end, or the first error; `Err`
/// names the kind of input on which the lexer would stop the program.
pub fn lex_source(lines: Vec<String>) -> (r: Result<Result<Vec<Token>, LexError>, LexPanic>)
    ensures
        collect_view(r) == collect_from(start(lines@.map_values(|l: String| l@)), Seq::empty()),
{
    let ghost v0 = start(lines@.map_values(|l: String| l@));
    let mut lexer = Lexer::new(lines);
    let mut out: Vec<Token> = Vec::new();
    assert(tokens_view(out@) =~= Seq::<TokenView>::empty());
    loop
        invariant
            v0 == start(lines@.map_values(|l: String| l@)),
            collect_from(v0, Seq::empty()) == collect_from(lexer.view(), tokens_view(out@)),
        decreases lines_left(lexer.view()), lexer.view().pending.len(),
    {
        let ghost before = lexer.view();
        proof {
            lemma_next_progress(before);
        }
        match lexer.step() {
            Err(p) => {
                return Err(p);
            },
            Ok(None) => {
                return Ok(Ok(out));
            },
            Ok(Some(Err(e))) => {
                return Ok(Err(e));
            },
            Ok(Some(Ok(t))) => {
                let ghost prev = tokens_view(out@);
                out.push(t);
                assert(tokens_view(out@) =~= prev.push(t@));
            },
        }
    }
}

} // verus!

verus! {

/// Once the lexer has reported an error, it yields nothing more.
pub proof fn law_error_is_final(v: LexerView)
    ensures
        next_from(v) matches NextView::Yield(w, Some(Err(_))) ==> w.error && next_from(w)
            == NextView::Yield(w, None),
    decreases v.lines.len() - v.pos,
{
    if !v.error && v.pending.len() == 0 && 0 <= v.pos < v.lines.len() {
        let w = LexerView { pos: v.pos + 1, ..v };
        match lex_line(v.lines[v.pos]) {
            LineView::Skip => {
                law_error_is_final(w);
            },
            LineView::Literal(b) => {
                law_error_is_final(LexerView { pending: b, ..w });
            },
            _ => {},
        }
    }
}

proof fn lemma_collect_pending(v: LexerView, acc: Seq<TokenView>)
    requires
        !v.error,
        v.pos == v.lines.len(),
    ensures
        collect_from(v, acc) == CollectView::Done(
            Ok(acc + v.pending.map_values(|x: u8| TokenView::Byte(x))),
        ),
    decreases v.pending.len(),
{
    if v.pending.len() == 0 {
        assert(acc + v.pending.map_values(|x: u8| TokenView::Byte(x)) =~= acc);
    } else {
        let w = LexerView { pending: v.pending.drop_first(), ..v };
        let t = TokenView::Byte(v.pending[0]);
        lemma_collect_pending(w, acc.push(t));
        assert(acc.push(t) + w.pending.map_values(|x: u8| TokenView::Byte(x)) =~= acc
            + v.pending.map_values(|x: u8| TokenView::Byte(x)));
    }
}

/// A source of one literal line lexes to the literal's bytes, one `Byte`
/// token each, in order.
pub proof fn law_literal_line_bytes(line: Seq<char>, b: Seq<u8>)
    requires
        lex_line(line) == LineView::Literal(b),
    ensures
        collect_from(start(seq![line]), Seq::empty()) == CollectView::Done(
            Ok(b.map_values(|x: u8| TokenView::Byte(x))),
        ),
{
    let v0 = start(seq![line]);
    let v1 = LexerView { pos: 1, pending: b, ..v0 };
    assert(next_from(v0) == next_from(v1));
    lemma_collect_pending(v1, Seq::empty());
    assert(Seq::<TokenView>::empty() + b.map_values(|x: u8| TokenView::Byte(x)) =~= b.map_values(
        |x: u8| TokenView::Byte(x),
    ));
    assert(collect_from(v0, Seq::empty()) == collect_from(v1, Seq::empty()));
}

} // verus!

verus! {

/// A `--` comment at the end of a line does not change what the line
/// means, wherever `comment_can_follow(code)`.
pub proof fn law_comment_does_not_change_line(code: Seq<char>, comment: Seq<char>)
    requires
        comment_can_follow(code),
    ensures
        lex_line(code + seq!['-', '-'] + comment) == lex_line(code),
{
    law_comment_is_ignored(code, comment);
}

} // verus!

verus! {

/// The lexer reads `#0x` followed by one or two hexadecimal digits as the
/// byte they write.
pub proof fn law_hex_immediates(h: Seq<char>)
    requires
        1 <= h.len() <= 2,
        forall|j: int| 0 <= j < h.len() ==> is_hex_digit(#[trigger] h[j]),
    ensures
        0 <= hex_number(h) <= 0xFF,
        parse_arg(seq!['#', '0', 'x'] + h) == Ok::<ArgView, LexErrorView>(ArgView::Immediate(hex_number(h) as u8)),
{
    let init = seq!['#', '0', 'x'] + h;
    assert(pow16(h.len()) <= 256) by {
        reveal_with_fuel(pow16, 3);
    }
    lemma_hex_parses(h, 255);
    assert(is_hex_digit(h[h.len() - 1]));
    assert(init.last() == h.last());
    lemma_trim_unchanged(init);
    assert(init.skip(1).skip(2) =~= h);
}

/// The lexer reads `#` followed by one to four decimal digits as the number
/// they write modulo 256, and `#-` followed by them as its negation modulo
/// 256: the byte that, added to the number, gives a multiple of 256.
pub proof fn law_decimal_immediates(d: Seq<char>)
    requires
        1 <= d.len() <= 4,
        forall|j: int| 0 <= j < d.len() ==> is_decimal_digit(#[trigger] d[j]),
    ensures
        parse_arg(seq!['#'] + d) == Ok::<ArgView, LexErrorView>(
            ArgView::Immediate((decimal_number(d) % 256) as u8),
        ),
        parse_arg(seq!['#', '-'] + d) == Ok::<ArgView, LexErrorView>(
            ArgView::Immediate(((256 - decimal_number(d) % 256) % 256) as u8),
        ),
{
    assert(pow10(d.len()) <= 10000) by {
        reveal_with_fuel(pow10, 5);
    }
    lemma_decimal_parses(d, -32768, 32767);
    assert(is_decimal_digit(d[0]));
    assert(is_decimal_digit(d[d.len() - 1]));
    let pos = seq!['#'] + d;
    let neg = seq!['#', '-'] + d;
    assert(pos.last() == d.last());
    assert(neg.last() == d.last());
    lemma_trim_unchanged(pos);
    lemma_trim_unchanged(neg);
    assert(pos.skip(1) =~= d);
    assert(neg.skip(1) =~= seq!['-'] + d);
    let n = decimal_number(d);
    assert((-n) % 256 == (256 - n % 256) % 256) by (nonlinear_arith)
        requires
            0 <= n,
    ;
}

} // verus!
