//! How the tools fit together: the lexer's token stream over well-formed
//! lines, and what the assembler makes of a compiled Brainfuck program.
use vstd::prelude::*;
use crate::bf_compiler::{BfState, compile_char, compile_from, compiled, decimal, digit_char, loop_frame};
use crate::bf_semantics::{command_bytes, simple_command};
use crate::generator::{
    AssembleView, EmitView, FixupView, GenView, Mnemonic, RunView, assemble_from, byte_tokens, emit, fresh,
    imm_encoding, is_register_op, label_value, mnemonic, patched, push_byte, reg_encoding, reg_opcode, resolve,
    run, swaps_operands, written,
};
use crate::lexer::{
    ArgView, CollectView, LexerView, LineView, TokenView, all_ascii, collect_from, hex_literal, hex_pairs,
    lex_line, low_byte, next_from, parse_arg, parse_args, start,
};
use crate::text::{
    IntErrorKind, LexErrorView, LexPanic, accumulate, ascii_upper_char, code_part, digit_value,
    drop_trailing_whitespace, find_char, find_dashes, has_hex_prefix, is_whitespace, parse_int, skip_whitespace,
    trim, trim_end, trim_start, upper_name,
};

verus! {

/// The tokens one line stands for: a token, or the bytes of a literal.
pub open spec fn line_tokens(line: Seq<char>) -> Seq<TokenView> {
    match lex_line(line) {
        LineView::Emit(t) => seq![t],
        LineView::Literal(b) => byte_tokens(b),
        _ => Seq::empty(),
    }
}

/// The tokens of `lines[i..]`, line after line.
pub open spec fn tokens_from(lines: Seq<Seq<char>>, i: int) -> Seq<TokenView>
    decreases lines.len() - i,
{
    if i < 0 || i >= lines.len() {
        Seq::empty()
    } else {
        line_tokens(lines[i]) + tokens_from(lines, i + 1)
    }
}

/// Each of `lines[i..]` is a token or a literal.
pub open spec fn well_formed_from(lines: Seq<Seq<char>>, i: int) -> bool {
    forall|j: int| i <= j < lines.len() ==> (lex_line(#[trigger] lines[j]) is Emit || lex_line(lines[j]) is Literal)
}

proof fn lemma_collect_well_formed(v: LexerView, acc: Seq<TokenView>)
    requires
        !v.error,
        0 <= v.pos <= v.lines.len(),
        well_formed_from(v.lines, v.pos),
    ensures
        collect_from(v, acc) == CollectView::Done(Ok(acc + byte_tokens(v.pending) + tokens_from(v.lines, v.pos))),
    decreases v.lines.len() - v.pos, v.pending.len(),
{
    if v.pending.len() > 0 {
        let w = LexerView { pending: v.pending.drop_first(), ..v };
        assert(next_from(v) == crate::lexer::NextView::Yield(w, Some(Ok::<TokenView, crate::text::LexErrorView>(TokenView::Byte(v.pending[0])))));
        lemma_collect_well_formed(w, acc.push(TokenView::Byte(v.pending[0])));
        assert(byte_tokens(v.pending) =~= seq![TokenView::Byte(v.pending[0])] + byte_tokens(w.pending));
        assert(acc.push(TokenView::Byte(v.pending[0])) + byte_tokens(w.pending) =~= acc + byte_tokens(v.pending));
    } else if v.pos == v.lines.len() {
        assert(byte_tokens(v.pending) =~= Seq::<TokenView>::empty());
        assert(tokens_from(v.lines, v.pos) =~= Seq::<TokenView>::empty());
        assert(acc + byte_tokens(v.pending) + tokens_from(v.lines, v.pos) =~= acc);
    } else {
        assert(byte_tokens(v.pending) =~= Seq::<TokenView>::empty());
        let w = LexerView { pos: v.pos + 1, ..v };
        let line = v.lines[v.pos];
        assert(lex_line(line) is Emit || lex_line(line) is Literal);
        match lex_line(line) {
            LineView::Emit(t) => {
                lemma_collect_well_formed(w, acc.push(t));
                assert(byte_tokens(w.pending) =~= Seq::<TokenView>::empty());
                assert(acc.push(t) + byte_tokens(w.pending) + tokens_from(v.lines, v.pos + 1)
                    =~= acc + byte_tokens(v.pending) + tokens_from(v.lines, v.pos));
            },
            LineView::Literal(b) => {
                let u = LexerView { pending: b, ..w };
                assert(next_from(v) == next_from(u));
                lemma_collect_well_formed(u, acc);
                assert(collect_from(v, acc) == collect_from(u, acc));
                assert(acc + byte_tokens(b) + tokens_from(v.lines, v.pos + 1)
                    =~= acc + byte_tokens(v.pending) + tokens_from(v.lines, v.pos));
            },
            _ => {},
        }
    }
}

/// Lexing lines each of which is a token or a literal gives, without error,
/// the tokens of every line in order.
pub proof fn law_well_formed_lines_lex(lines: Seq<Seq<char>>)
    requires
        well_formed_from(lines, 0),
    ensures
        collect_from(start(lines), Seq::empty()) == CollectView::Done(Ok(tokens_from(lines, 0))),
{
    lemma_collect_well_formed(start(lines), Seq::empty());
    assert(byte_tokens(Seq::<u8>::empty()) =~= Seq::<TokenView>::empty());
    assert(Seq::<TokenView>::empty() + Seq::<TokenView>::empty() + tokens_from(lines, 0) =~= tokens_from(lines, 0));
}

/// An instruction with two register operands.
pub open spec fn reg_reg(op: Seq<char>, a: u8, b: u8) -> TokenView {
    TokenView::Instruction(op, seq![ArgView::Register(a), ArgView::Register(b)])
}

/// An instruction with a register and an immediate operand.
pub open spec fn reg_imm(op: Seq<char>, a: u8, i: u8) -> TokenView {
    TokenView::Instruction(op, seq![ArgView::Register(a), ArgView::Immediate(i)])
}

proof fn lemma_trim_plain(s: Seq<char>)
    requires
        s.len() > 0,
        !is_whitespace(s[0]),
        !is_whitespace(s.last()),
    ensures
        trim(s) == s,
{
    assert(skip_whitespace(s, 0) == 0);
    let t = trim_start(s);
    assert(t =~= s);
    assert(drop_trailing_whitespace(t, t.len() as int) == t.len());
    assert(trim_end(t) =~= t);
}

proof fn lemma_trim_space(s: Seq<char>)
    requires
        s.len() > 1,
        s[0] == ' ',
        !is_whitespace(s[1]),
        !is_whitespace(s.last()),
    ensures
        trim(s) == s.skip(1),
{
    assert(skip_whitespace(s, 1) == 1);
    assert(skip_whitespace(s, 0) == 1);
    let t = trim_start(s);
    assert(t =~= s.skip(1));
    assert(t.last() == s.last());
    assert(drop_trailing_whitespace(t, t.len() as int) == t.len());
    assert(trim_end(t) =~= t);
}

proof fn lemma_arg_register(a: Seq<char>, c: char, r: u8)
    requires
        r < 10,
        c as u32 == 48 + r,
        trim(a) == seq!['%', 'R', c],
    ensures
        parse_arg(a) == Ok::<ArgView, LexErrorView>(ArgView::Register(r)),
{
    let t = trim(a);
    assert(t.skip(1).skip(1) =~= seq![c]);
    reveal_with_fuel(accumulate, 2);
    assert(digit_value(c, 10) == Some(r as int));
    assert(parse_int(seq![c], 10, false, 0, 255) == Ok::<int, IntErrorKind>(r as int));
}

proof fn lemma_arg_immediate(a: Seq<char>, digits: Seq<char>, v: int)
    requires
        trim(a) == seq!['#'] + digits,
        (digits == seq!['0'] && v == 0) || (digits == seq!['1'] && v == 1) || (digits == seq!['-', '1'] && v == -1),
    ensures
        parse_arg(a) == Ok::<ArgView, LexErrorView>(ArgView::Immediate(low_byte(v))),
{
    let t = trim(a);
    assert(t.skip(1) =~= digits);
    reveal_with_fuel(accumulate, 3);
    assert(!has_hex_prefix(digits));
    assert(parse_int(digits, 10, true, -32768, 32767) == Ok::<int, IntErrorKind>(v));
}

proof fn lemma_arg_label(a: Seq<char>, name: Seq<char>)
    requires
        trim(a) == seq!['$'] + name,
    ensures
        parse_arg(a) == Ok::<ArgView, LexErrorView>(ArgView::Label(name)),
{
    assert(trim(a).skip(1) =~= name);
}

proof fn lemma_find_first(s: Seq<char>, c: char, i: int, k: int)
    requires
        0 <= i <= k,
        (k < s.len() && s[k] == c) || k == s.len(),
        forall|j: int| i <= j < k ==> #[trigger] s[j] != c,
    ensures
        find_char(s, c, i) == (if k < s.len() { Some(k) } else { None::<int> }),
    decreases k - i,
{
    if i < k {
        lemma_find_first(s, c, i + 1, k);
    }
}

proof fn lemma_no_double_dash(s: Seq<char>, i: int)
    requires
        0 <= i,
        forall|j: int| 0 <= j && j + 1 < s.len() ==> !(#[trigger] s[j] == '-' && s[j + 1] == '-'),
    ensures
        find_dashes(s, i) is None,
    decreases s.len() - i,
{
    if i + 1 < s.len() {
        lemma_no_double_dash(s, i + 1);
    }
}

/// Two comma-separated arguments.
#[verifier::spinoff_prover]
#[verifier::rlimit(30)]
proof fn lemma_two_args(x: Seq<char>, y: Seq<char>, px: ArgView, py: ArgView)
    requires
        forall|j: int| 0 <= j < x.len() ==> #[trigger] x[j] != ',',
        forall|j: int| 0 <= j < y.len() ==> #[trigger] y[j] != ',',
        parse_arg(x) == Ok::<ArgView, LexErrorView>(px),
        parse_arg(y) == Ok::<ArgView, LexErrorView>(py),
    ensures
        parse_args(x + seq![','] + y) == Ok::<Seq<ArgView>, LexErrorView>(seq![px, py]),
{
    let s = x + seq![','] + y;
    assert forall|j: int| 0 <= j < x.len() implies #[trigger] s[j] != ',' by {
        assert(s[j] == x[j]);
    }
    lemma_find_first(s, ',', 0, x.len() as int);
    assert(s.take(x.len() as int) =~= x);
    assert(s.skip(x.len() as int + 1) =~= y);
    lemma_find_first(y, ',', 0, y.len() as int);
    assert(parse_args(y) == Ok::<Seq<ArgView>, LexErrorView>(seq![py]));
    assert(seq![px] + seq![py] =~= seq![px, py]);
}

/// One argument.
proof fn lemma_one_arg(x: Seq<char>, px: ArgView)
    requires
        forall|j: int| 0 <= j < x.len() ==> #[trigger] x[j] != ',',
        parse_arg(x) == Ok::<ArgView, LexErrorView>(px),
    ensures
        parse_args(x) == Ok::<Seq<ArgView>, LexErrorView>(seq![px]),
{
    lemma_find_first(x, ',', 0, x.len() as int);
}

/// An instruction line: a three-letter mnemonic, a space and its arguments.
#[verifier::spinoff_prover]
#[verifier::rlimit(30)]
proof fn lemma_lex_instruction(op: Seq<char>, args: Seq<char>, parsed: Seq<ArgView>)
    requires
        op.len() == 3,
        forall|j: int| 0 <= j < 3 ==> 'A' <= #[trigger] op[j] <= 'Z',
        args.len() > 0,
        !is_whitespace(args.last()),
        args.last() != ':',
        forall|j: int| 0 <= j && j + 1 < args.len() ==> !(#[trigger] args[j] == '-' && args[j + 1] == '-'),
        parse_args(args) == Ok::<Seq<ArgView>, LexErrorView>(parsed),
    ensures
        lex_line(op + seq![' '] + args) == LineView::Emit(TokenView::Instruction(op, parsed)),
{
    let line = op + seq![' '] + args;
    assert forall|j: int| 0 <= j && j + 1 < line.len() implies !(#[trigger] line[j] == '-' && line[j + 1] == '-') by {
        if j >= 4 {
            assert(line[j] == args[j - 4] && line[j + 1] == args[j - 3]);
        } else if j == 3 {
            assert(line[j] == ' ');
        } else {
            assert(line[j] == op[j]);
        }
    }
    assert('A' <= op[0] <= 'Z');
    assert(skip_whitespace(line, 0) == 0);
    assert(trim_start(line) =~= line);
    lemma_no_double_dash(line, 0);
    assert(code_part(line) == line);
    assert(line.last() == args.last());
    assert forall|j: int| 0 <= j < 3 implies #[trigger] line[j] != ' ' by {
        assert(line[j] == op[j]);
        assert('A' <= op[j] <= 'Z');
    }
    lemma_find_first(line, ' ', 0, 3);
    assert(line.take(3) =~= op);
    assert(line.skip(4) =~= args);
}

/// A mnemonic: three capital letters.
pub open spec fn capitals(op: Seq<char>) -> bool {
    op.len() == 3 && forall|j: int| 0 <= j < 3 ==> 'A' <= #[trigger] op[j] <= 'Z'
}

#[verifier::spinoff_prover]
#[verifier::rlimit(30)]
proof fn lemma_lex_reg_reg(op: Seq<char>, c1: char, r1: u8, c2: char, r2: u8)
    requires
        capitals(op),
        r1 < 10,
        c1 as u32 == 48 + r1,
        r2 < 10,
        c2 as u32 == 48 + r2,
    ensures
        lex_line(op + seq![' ', '%', 'R', c1, ',', ' ', '%', 'R', c2]) == LineView::Emit(reg_reg(op, r1, r2)),
{
    let x = seq!['%', 'R', c1];
    let y = seq![' ', '%', 'R', c2];
    lemma_trim_plain(x);
    lemma_trim_space(y);
    assert(y.skip(1) =~= seq!['%', 'R', c2]);
    lemma_arg_register(x, c1, r1);
    lemma_arg_register(y, c2, r2);
    lemma_two_args(x, y, ArgView::Register(r1), ArgView::Register(r2));
    let args = x + seq![','] + y;
    assert(args =~= seq!['%', 'R', c1, ',', ' ', '%', 'R', c2]);
    lemma_lex_instruction(op, args, seq![ArgView::Register(r1), ArgView::Register(r2)]);
    assert(op + seq![' '] + args =~= op + seq![' ', '%', 'R', c1, ',', ' ', '%', 'R', c2]);
}

#[verifier::spinoff_prover]
#[verifier::rlimit(30)]
proof fn lemma_lex_reg_imm(op: Seq<char>, c1: char, r1: u8, digits: Seq<char>, v: int)
    requires
        capitals(op),
        r1 < 10,
        c1 as u32 == 48 + r1,
        (digits == seq!['0'] && v == 0) || (digits == seq!['1'] && v == 1) || (digits == seq!['-', '1'] && v == -1),
    ensures
        lex_line(op + seq![' ', '%', 'R', c1, ',', ' ', '#'] + digits)
            == LineView::Emit(reg_imm(op, r1, low_byte(v))),
{
    let x = seq!['%', 'R', c1];
    let y = seq![' ', '#'] + digits;
    lemma_trim_plain(x);
    lemma_trim_space(y);
    assert(y.skip(1) =~= seq!['#'] + digits);
    lemma_arg_register(x, c1, r1);
    lemma_arg_immediate(y, digits, v);
    lemma_two_args(x, y, ArgView::Register(r1), ArgView::Immediate(low_byte(v)));
    let args = x + seq![','] + y;
    assert(args =~= seq!['%', 'R', c1, ',', ' ', '#'] + digits);
    lemma_lex_instruction(op, args, seq![ArgView::Register(r1), ArgView::Immediate(low_byte(v))]);
    assert(op + seq![' '] + args =~= op + seq![' ', '%', 'R', c1, ',', ' ', '#'] + digits);
}

/// A name the compiler gives a label: letters, digits and underscores.
pub open spec fn label_name(name: Seq<char>) -> bool {
    &&& name.len() > 0
    &&& forall|j: int| 0 <= j < name.len() ==> ({
        let c = #[trigger] name[j];
        ('0' <= c <= '9') || ('a' <= c <= 'z') || ('A' <= c <= 'Z') || c == '_'
    })
}

#[verifier::spinoff_prover]
#[verifier::rlimit(30)]
proof fn lemma_lex_reg_label(op: Seq<char>, c1: char, r1: u8, name: Seq<char>)
    requires
        capitals(op),
        r1 < 10,
        c1 as u32 == 48 + r1,
        label_name(name),
    ensures
        lex_line(op + seq![' ', '%', 'R', c1, ',', ' ', '$'] + name) == LineView::Emit(
            TokenView::Instruction(op, seq![ArgView::Register(r1), ArgView::Label(name)]),
        ),
{
    let x = seq!['%', 'R', c1];
    let y = seq![' ', '$'] + name;
    lemma_trim_plain(x);
    assert(y.last() == name.last());
    lemma_trim_space(y);
    assert(y.skip(1) =~= seq!['$'] + name);
    lemma_arg_register(x, c1, r1);
    lemma_arg_label(y, name);
    assert forall|j: int| 0 <= j < y.len() implies #[trigger] y[j] != ',' by {
        if j >= 2 {
            assert(y[j] == name[j - 2]);
        }
    }
    lemma_two_args(x, y, ArgView::Register(r1), ArgView::Label(name));
    let args = x + seq![','] + y;
    assert(args =~= seq!['%', 'R', c1, ',', ' ', '$'] + name);
    assert forall|j: int| 0 <= j && j + 1 < args.len() implies !(#[trigger] args[j] == '-' && args[j + 1] == '-') by {
        if j >= 6 {
            assert(args[j] == name[j - 6]);
        }
    }
    assert(args.last() == name.last());
    lemma_lex_instruction(op, args, seq![ArgView::Register(r1), ArgView::Label(name)]);
    assert(op + seq![' '] + args =~= op + seq![' ', '%', 'R', c1, ',', ' ', '$'] + name);
}

#[verifier::spinoff_prover]
#[verifier::rlimit(30)]
proof fn lemma_lex_label(name: Seq<char>)
    requires
        label_name(name),
    ensures
        lex_line(name + seq![':']) == LineView::Emit(TokenView::Label(name)),
{
    let line = name + seq![':'];
    assert forall|j: int| 0 <= j && j + 1 < line.len() implies !(#[trigger] line[j] == '-' && line[j + 1] == '-') by {
        assert(line[j] == name[j]);
    }
    assert(line[0] == name[0]);
    assert(skip_whitespace(line, 0) == 0);
    assert(trim_start(line) =~= line);
    lemma_no_double_dash(line, 0);
    assert(code_part(line) == line);
    assert(line.take(line.len() - 1) =~= name);
}

#[verifier::spinoff_prover]
#[verifier::rlimit(30)]
proof fn lemma_lex_one_reg(op: Seq<char>, c1: char, r1: u8)
    requires
        capitals(op),
        r1 < 10,
        c1 as u32 == 48 + r1,
    ensures
        lex_line(op + seq![' ', '%', 'R', c1]) == LineView::Emit(
            TokenView::Instruction(op, seq![ArgView::Register(r1)]),
        ),
{
    let x = seq!['%', 'R', c1];
    lemma_trim_plain(x);
    lemma_arg_register(x, c1, r1);
    lemma_one_arg(x, ArgView::Register(r1));
    lemma_lex_instruction(op, x, seq![ArgView::Register(r1)]);
    assert(op + seq![' '] + x =~= op + seq![' ', '%', 'R', c1]);
}

proof fn lemma_line_loa_r0_r1()
    ensures
        lex_line("LOA %R0, %R1"@) == LineView::Emit(reg_reg("LOA"@, 0, 1)),
{
    reveal_strlit("LOA %R0, %R1");
    reveal_strlit("LOA");
    assert(capitals("LOA"@));
    assert("LOA %R0, %R1"@ =~= "LOA"@ + seq![' ', '%', 'R', '0', ',', ' ', '%', 'R', '1']);
    lemma_lex_reg_reg("LOA"@, '0', 0, '1', 1);
}

proof fn lemma_line_loa_r1_r2()
    ensures
        lex_line("LOA %R1, %R2"@) == LineView::Emit(reg_reg("LOA"@, 1, 2)),
{
    reveal_strlit("LOA %R1, %R2");
    reveal_strlit("LOA");
    assert(capitals("LOA"@));
    assert("LOA %R1, %R2"@ =~= "LOA"@ + seq![' ', '%', 'R', '1', ',', ' ', '%', 'R', '2']);
    lemma_lex_reg_reg("LOA"@, '1', 1, '2', 2);
}

proof fn lemma_line_add_r0_r2()
    ensures
        lex_line("ADD %R0, %R2"@) == LineView::Emit(reg_reg("ADD"@, 0, 2)),
{
    reveal_strlit("ADD %R0, %R2");
    reveal_strlit("ADD");
    assert(capitals("ADD"@));
    assert("ADD %R0, %R2"@ =~= "ADD"@ + seq![' ', '%', 'R', '0', ',', ' ', '%', 'R', '2']);
    lemma_lex_reg_reg("ADD"@, '0', 0, '2', 2);
}

proof fn lemma_line_add_r1_r2()
    ensures
        lex_line("ADD %R1, %R2"@) == LineView::Emit(reg_reg("ADD"@, 1, 2)),
{
    reveal_strlit("ADD %R1, %R2");
    reveal_strlit("ADD");
    assert(capitals("ADD"@));
    assert("ADD %R1, %R2"@ =~= "ADD"@ + seq![' ', '%', 'R', '1', ',', ' ', '%', 'R', '2']);
    lemma_lex_reg_reg("ADD"@, '1', 1, '2', 2);
}

proof fn lemma_line_sto_r1_r0()
    ensures
        lex_line("STO %R1, %R0"@) == LineView::Emit(reg_reg("STO"@, 1, 0)),
{
    reveal_strlit("STO %R1, %R0");
    reveal_strlit("STO");
    assert(capitals("STO"@));
    assert("STO %R1, %R0"@ =~= "STO"@ + seq![' ', '%', 'R', '1', ',', ' ', '%', 'R', '0']);
    lemma_lex_reg_reg("STO"@, '1', 1, '0', 0);
}

proof fn lemma_line_sto_r2_r1()
    ensures
        lex_line("STO %R2, %R1"@) == LineView::Emit(reg_reg("STO"@, 2, 1)),
{
    reveal_strlit("STO %R2, %R1");
    reveal_strlit("STO");
    assert(capitals("STO"@));
    assert("STO %R2, %R1"@ =~= "STO"@ + seq![' ', '%', 'R', '2', ',', ' ', '%', 'R', '1']);
    lemma_lex_reg_reg("STO"@, '2', 2, '1', 1);
}

proof fn lemma_line_iow_r2_r0()
    ensures
        lex_line("IOW %R2, %R0"@) == LineView::Emit(reg_reg("IOW"@, 2, 0)),
{
    reveal_strlit("IOW %R2, %R0");
    reveal_strlit("IOW");
    assert(capitals("IOW"@));
    assert("IOW %R2, %R0"@ =~= "IOW"@ + seq![' ', '%', 'R', '2', ',', ' ', '%', 'R', '0']);
    lemma_lex_reg_reg("IOW"@, '2', 2, '0', 0);
}

proof fn lemma_line_ior_r0_r2()
    ensures
        lex_line("IOR %R0, %R2"@) == LineView::Emit(reg_reg("IOR"@, 0, 2)),
{
    reveal_strlit("IOR %R0, %R2");
    reveal_strlit("IOR");
    assert(capitals("IOR"@));
    assert("IOR %R0, %R2"@ =~= "IOR"@ + seq![' ', '%', 'R', '0', ',', ' ', '%', 'R', '2']);
    lemma_lex_reg_reg("IOR"@, '0', 0, '2', 2);
}

proof fn lemma_line_skl_r0_r2()
    ensures
        lex_line("SKL %R0, %R2"@) == LineView::Emit(reg_reg("SKL"@, 0, 2)),
{
    reveal_strlit("SKL %R0, %R2");
    reveal_strlit("SKL");
    assert(capitals("SKL"@));
    assert("SKL %R0, %R2"@ =~= "SKL"@ + seq![' ', '%', 'R', '0', ',', ' ', '%', 'R', '2']);
    lemma_lex_reg_reg("SKL"@, '0', 0, '2', 2);
}

proof fn lemma_line_skl_r2_r0()
    ensures
        lex_line("SKL %R2, %R0"@) == LineView::Emit(reg_reg("SKL"@, 2, 0)),
{
    reveal_strlit("SKL %R2, %R0");
    reveal_strlit("SKL");
    assert(capitals("SKL"@));
    assert("SKL %R2, %R0"@ =~= "SKL"@ + seq![' ', '%', 'R', '2', ',', ' ', '%', 'R', '0']);
    lemma_lex_reg_reg("SKL"@, '2', 2, '0', 0);
}

proof fn lemma_line_lil_one()
    ensures
        lex_line("LIL %R2, #1"@) == LineView::Emit(reg_imm("LIL"@, 2, 1)),
{
    reveal_strlit("LIL %R2, #1");
    reveal_strlit("LIL");
    assert(capitals("LIL"@));
    assert("LIL %R2, #1"@ =~= "LIL"@ + seq![' ', '%', 'R', '2', ',', ' ', '#'] + seq!['1']);
    lemma_lex_reg_imm("LIL"@, '2', 2, seq!['1'], 1);
    assert(low_byte(1) == 1);
}

proof fn lemma_line_lil_zero()
    ensures
        lex_line("LIL %R2, #0"@) == LineView::Emit(reg_imm("LIL"@, 2, 0)),
{
    reveal_strlit("LIL %R2, #0");
    reveal_strlit("LIL");
    assert(capitals("LIL"@));
    assert("LIL %R2, #0"@ =~= "LIL"@ + seq![' ', '%', 'R', '2', ',', ' ', '#'] + seq!['0']);
    lemma_lex_reg_imm("LIL"@, '2', 2, seq!['0'], 0);
    assert(low_byte(0) == 0);
}

proof fn lemma_line_lil_minus_one()
    ensures
        lex_line("LIL %R2, #-1"@) == LineView::Emit(reg_imm("LIL"@, 2, 255)),
{
    reveal_strlit("LIL %R2, #-1");
    reveal_strlit("LIL");
    assert(capitals("LIL"@));
    assert("LIL %R2, #-1"@ =~= "LIL"@ + seq![' ', '%', 'R', '2', ',', ' ', '#'] + seq!['-', '1']);
    lemma_lex_reg_imm("LIL"@, '2', 2, seq!['-', '1'], -1);
    assert(low_byte(-1) == 255);
}

proof fn lemma_line_lir_minus_one()
    ensures
        lex_line("LIR %R2, #-1"@) == LineView::Emit(reg_imm("LIR"@, 2, 255)),
{
    reveal_strlit("LIR %R2, #-1");
    reveal_strlit("LIR");
    assert(capitals("LIR"@));
    assert("LIR %R2, #-1"@ =~= "LIR"@ + seq![' ', '%', 'R', '2', ',', ' ', '#'] + seq!['-', '1']);
    lemma_lex_reg_imm("LIR"@, '2', 2, seq!['-', '1'], -1);
    assert(low_byte(-1) == 255);
}

proof fn lemma_line_jmp_r1()
    ensures
        lex_line("JMP %R1"@) == LineView::Emit(TokenView::Instruction("JMP"@, seq![ArgView::Register(1)])),
{
    reveal_strlit("JMP %R1");
    reveal_strlit("JMP");
    assert(capitals("JMP"@));
    assert("JMP %R1"@ =~= "JMP"@ + seq![' ', '%', 'R', '1']);
    lemma_lex_one_reg("JMP"@, '1', 1);
}

proof fn lemma_line_program_start()
    ensures
        lex_line("LIR %R1, $ProgramEnd"@) == LineView::Emit(
            TokenView::Instruction("LIR"@, seq![ArgView::Register(1), ArgView::Label("ProgramEnd"@)]),
        ),
{
    reveal_strlit("LIR %R1, $ProgramEnd");
    reveal_strlit("LIR");
    reveal_strlit("ProgramEnd");
    assert(capitals("LIR"@));
    assert(label_name("ProgramEnd"@));
    assert("LIR %R1, $ProgramEnd"@ =~= "LIR"@ + seq![' ', '%', 'R', '1', ',', ' ', '$'] + "ProgramEnd"@);
    lemma_lex_reg_label("LIR"@, '1', 1, "ProgramEnd"@);
}

proof fn lemma_line_program_end()
    ensures
        lex_line("ProgramEnd:"@) == LineView::Emit(TokenView::Label("ProgramEnd"@)),
{
    reveal_strlit("ProgramEnd:");
    reveal_strlit("ProgramEnd");
    assert(label_name("ProgramEnd"@));
    assert("ProgramEnd:"@ =~= "ProgramEnd"@ + seq![':']);
    lemma_lex_label("ProgramEnd"@);
}

proof fn lemma_line_zero_byte()
    ensures
        lex_line(".0x00"@) == LineView::Literal(seq![0u8]),
{
    reveal_strlit(".0x00");
    let line = ".0x00"@;
    assert(line =~= seq!['.', '0', 'x', '0', '0']);
    assert(skip_whitespace(line, 0) == 0);
    assert(trim_start(line) =~= line);
    lemma_no_double_dash(line, 0);
    assert(code_part(line) == line);
    let d = line.skip(1).skip(2);
    assert(d =~= seq!['0', '0']);
    assert(all_ascii(d));
    reveal_with_fuel(hex_pairs, 3);
    reveal_with_fuel(accumulate, 3);
    assert(d.subrange(0, 2) =~= d);
    assert(parse_int(d, 16, false, 0, 255) == Ok::<int, IntErrorKind>(0));
    assert(hex_literal(d) == Ok::<Seq<u8>, LexPanic>(seq![0u8]));
}

proof fn lemma_decimal_chars(n: nat)
    ensures
        decimal(n).len() > 0,
        forall|i: int| 0 <= i < decimal(n).len() ==> '0' <= #[trigger] decimal(n)[i] <= '9',
    decreases n,
{
    let d = digit_char((n % 10) as int);
    assert('0' <= d <= '9');
    if n >= 10 {
        lemma_decimal_chars(n / 10);
        let p = decimal(n / 10);
        assert(decimal(n) == p.push(d));
        assert forall|i: int| 0 <= i < decimal(n).len() implies '0' <= #[trigger] decimal(n)[i] <= '9' by {
            if i < p.len() {
                assert(decimal(n)[i] == p[i]);
            }
        }
    } else {
        assert(decimal(n) == seq![d]);
    }
}

/// The names the compiler gives a loop's labels.
proof fn lemma_loop_label_name(k: nat, tail: Seq<char>)
    requires
        tail == "Start"@ || tail == "End"@,
    ensures
        label_name(loop_frame(k) + tail),
        (loop_frame(k) + tail)[0] == 'L',
{
    reveal_strlit("LoopNo_");
    reveal_strlit("Start");
    reveal_strlit("End");
    lemma_decimal_chars(k);
    let f = loop_frame(k);
    let name = f + tail;
    assert forall|j: int| 0 <= j < name.len() implies ({
        let c = #[trigger] name[j];
        ('0' <= c <= '9') || ('a' <= c <= 'z') || ('A' <= c <= 'Z') || c == '_'
    }) by {
        if j >= f.len() {
            assert(name[j] == tail[j - f.len()]);
        } else if j >= 7 {
            assert(name[j] == decimal(k)[j - 7]);
        } else {
            assert(name[j] == "LoopNo_"@[j]);
        }
    }
}

proof fn lemma_line_loop_jump(k: nat)
    ensures
        lex_line("JMP %R2, $"@ + loop_frame(k) + "End"@) == LineView::Emit(
            TokenView::Instruction("JMP"@, seq![ArgView::Register(2), ArgView::Label(loop_frame(k) + "End"@)]),
        ),
{
    reveal_strlit("JMP %R2, $");
    reveal_strlit("JMP");
    assert(capitals("JMP"@));
    lemma_loop_label_name(k, "End"@);
    let name = loop_frame(k) + "End"@;
    assert("JMP %R2, $"@ + loop_frame(k) + "End"@ =~= "JMP"@ + seq![' ', '%', 'R', '2', ',', ' ', '$'] + name);
    lemma_lex_reg_label("JMP"@, '2', 2, name);
}

proof fn lemma_line_loop_restart(f: Seq<char>, k: nat)
    requires
        f == loop_frame(k),
    ensures
        lex_line("LIR %R1, $"@ + f + "Start"@) == LineView::Emit(
            TokenView::Instruction("LIR"@, seq![ArgView::Register(1), ArgView::Label(f + "Start"@)]),
        ),
{
    reveal_strlit("LIR %R1, $");
    reveal_strlit("LIR");
    assert(capitals("LIR"@));
    lemma_loop_label_name(k, "Start"@);
    let name = f + "Start"@;
    assert("LIR %R1, $"@ + f + "Start"@ =~= "LIR"@ + seq![' ', '%', 'R', '1', ',', ' ', '$'] + name);
    lemma_lex_reg_label("LIR"@, '1', 1, name);
}

proof fn lemma_line_loop_label(f: Seq<char>, k: nat, tail: Seq<char>)
    requires
        f == loop_frame(k),
        tail == "Start"@ || tail == "End"@,
    ensures
        lex_line(f + tail + seq![':']) == LineView::Emit(TokenView::Label(f + tail)),
{
    lemma_loop_label_name(k, tail);
    lemma_lex_label(f + tail);
}

proof fn lemma_upper_capitals(op: Seq<char>)
    requires
        capitals(op),
    ensures
        upper_name(op) == op,
{
    assert forall|i: int| 0 <= i < op.len() implies '\0' <= #[trigger] op[i] <= '\u{7f}' by {
        assert('A' <= op[i] <= 'Z');
    }
    assert(vstd::utf8::is_ascii_chars(op));
    let up = op.map_values(|c: char| ascii_upper_char(c));
    assert forall|i: int| 0 <= i < op.len() implies #[trigger] up[i] == op[i] by {
        assert('A' <= op[i] <= 'Z');
    }
    assert(up =~= op);
}

proof fn lemma_mnemonic_loa()
    ensures
        mnemonic(upper_name("LOA"@)) == Some(Mnemonic::Loa),
{
    reveal_strlit("LIL");
    reveal_strlit("LIH");
    reveal_strlit("ADD");
    reveal_strlit("NAND");
    reveal_strlit("IOR");
    reveal_strlit("IOW");
    reveal_strlit("LOA");
    assert(capitals("LOA"@));
    lemma_upper_capitals("LOA"@);
    assert("LOA"@[1] != "LIL"@[1]);
    assert("LOA"@[1] != "LIH"@[1]);
    assert("LOA"@[0] != "ADD"@[0]);
    assert("LOA"@.len() != "NAND"@.len());
    assert("LOA"@[0] != "IOR"@[0]);
    assert("LOA"@[0] != "IOW"@[0]);
}

proof fn lemma_mnemonic_add()
    ensures
        mnemonic(upper_name("ADD"@)) == Some(Mnemonic::Add),
{
    reveal_strlit("LIL");
    reveal_strlit("LIH");
    reveal_strlit("ADD");
    assert(capitals("ADD"@));
    lemma_upper_capitals("ADD"@);
    assert("ADD"@[0] != "LIL"@[0]);
    assert("ADD"@[0] != "LIH"@[0]);
}

proof fn lemma_mnemonic_sto()
    ensures
        mnemonic(upper_name("STO"@)) == Some(Mnemonic::Sto),
{
    reveal_strlit("LIL");
    reveal_strlit("LIH");
    reveal_strlit("ADD");
    reveal_strlit("NAND");
    reveal_strlit("IOR");
    reveal_strlit("IOW");
    reveal_strlit("LOA");
    reveal_strlit("STO");
    assert(capitals("STO"@));
    lemma_upper_capitals("STO"@);
    assert("STO"@[0] != "LIL"@[0]);
    assert("STO"@[0] != "LIH"@[0]);
    assert("STO"@[0] != "ADD"@[0]);
    assert("STO"@.len() != "NAND"@.len());
    assert("STO"@[0] != "IOR"@[0]);
    assert("STO"@[0] != "IOW"@[0]);
    assert("STO"@[0] != "LOA"@[0]);
}

proof fn lemma_mnemonic_iow()
    ensures
        mnemonic(upper_name("IOW"@)) == Some(Mnemonic::Iow),
{
    reveal_strlit("LIL");
    reveal_strlit("LIH");
    reveal_strlit("ADD");
    reveal_strlit("NAND");
    reveal_strlit("IOR");
    reveal_strlit("IOW");
    assert(capitals("IOW"@));
    lemma_upper_capitals("IOW"@);
    assert("IOW"@[0] != "LIL"@[0]);
    assert("IOW"@[0] != "LIH"@[0]);
    assert("IOW"@[0] != "ADD"@[0]);
    assert("IOW"@.len() != "NAND"@.len());
    assert("IOW"@[2] != "IOR"@[2]);
}

proof fn lemma_mnemonic_ior()
    ensures
        mnemonic(upper_name("IOR"@)) == Some(Mnemonic::Ior),
{
    reveal_strlit("LIL");
    reveal_strlit("LIH");
    reveal_strlit("ADD");
    reveal_strlit("NAND");
    reveal_strlit("IOR");
    assert(capitals("IOR"@));
    lemma_upper_capitals("IOR"@);
    assert("IOR"@[0] != "LIL"@[0]);
    assert("IOR"@[0] != "LIH"@[0]);
    assert("IOR"@[0] != "ADD"@[0]);
    assert("IOR"@.len() != "NAND"@.len());
}

proof fn lemma_mnemonic_skl()
    ensures
        mnemonic(upper_name("SKL"@)) == Some(Mnemonic::Skl),
{
    reveal_strlit("LIL");
    reveal_strlit("LIH");
    reveal_strlit("ADD");
    reveal_strlit("NAND");
    reveal_strlit("IOR");
    reveal_strlit("IOW");
    reveal_strlit("LOA");
    reveal_strlit("STO");
    reveal_strlit("SKL");
    assert(capitals("SKL"@));
    lemma_upper_capitals("SKL"@);
    assert("SKL"@[0] != "LIL"@[0]);
    assert("SKL"@[0] != "LIH"@[0]);
    assert("SKL"@[0] != "ADD"@[0]);
    assert("SKL"@.len() != "NAND"@.len());
    assert("SKL"@[0] != "IOR"@[0]);
    assert("SKL"@[0] != "IOW"@[0]);
    assert("SKL"@[0] != "LOA"@[0]);
    assert("SKL"@[1] != "STO"@[1]);
}

proof fn lemma_mnemonic_lil()
    ensures
        mnemonic(upper_name("LIL"@)) == Some(Mnemonic::Lil),
{
    reveal_strlit("LIL");
    assert(capitals("LIL"@));
    lemma_upper_capitals("LIL"@);

}

proof fn lemma_mnemonic_lir()
    ensures
        mnemonic(upper_name("LIR"@)) == Some(Mnemonic::Lir),
{
    reveal_strlit("LIL");
    reveal_strlit("LIH");
    reveal_strlit("ADD");
    reveal_strlit("NAND");
    reveal_strlit("IOR");
    reveal_strlit("IOW");
    reveal_strlit("LOA");
    reveal_strlit("STO");
    reveal_strlit("SKL");
    reveal_strlit("SWP");
    reveal_strlit("LIR");
    assert(capitals("LIR"@));
    lemma_upper_capitals("LIR"@);
    assert("LIR"@[2] != "LIL"@[2]);
    assert("LIR"@[2] != "LIH"@[2]);
    assert("LIR"@[0] != "ADD"@[0]);
    assert("LIR"@.len() != "NAND"@.len());
    assert("LIR"@[0] != "IOR"@[0]);
    assert("LIR"@[0] != "IOW"@[0]);
    assert("LIR"@[1] != "LOA"@[1]);
    assert("LIR"@[0] != "STO"@[0]);
    assert("LIR"@[0] != "SKL"@[0]);
    assert("LIR"@[0] != "SWP"@[0]);
}

proof fn lemma_mnemonic_jmp()
    ensures
        mnemonic(upper_name("JMP"@)) == Some(Mnemonic::Jmp),
{
    reveal_strlit("LIL");
    reveal_strlit("LIH");
    reveal_strlit("ADD");
    reveal_strlit("NAND");
    reveal_strlit("IOR");
    reveal_strlit("IOW");
    reveal_strlit("LOA");
    reveal_strlit("STO");
    reveal_strlit("SKL");
    reveal_strlit("SWP");
    reveal_strlit("LIR");
    reveal_strlit("JMP");
    assert(capitals("JMP"@));
    lemma_upper_capitals("JMP"@);
    assert("JMP"@[0] != "LIL"@[0]);
    assert("JMP"@[0] != "LIH"@[0]);
    assert("JMP"@[0] != "ADD"@[0]);
    assert("JMP"@.len() != "NAND"@.len());
    assert("JMP"@[0] != "IOR"@[0]);
    assert("JMP"@[0] != "IOW"@[0]);
    assert("JMP"@[0] != "LOA"@[0]);
    assert("JMP"@[0] != "STO"@[0]);
    assert("JMP"@[0] != "SKL"@[0]);
    assert("JMP"@[0] != "SWP"@[0]);
    assert("JMP"@[0] != "LIR"@[0]);
}

/// The generator moved on by `n` bytes and kept its labels and references.
pub open spec fn advanced(s: GenView, s1: GenView, n: int) -> bool {
    &&& s1.index == s.index + n
    &&& s1.output.len() == s.output.len()
    &&& s1.labels == s.labels
    &&& s1.fixups == s.fixups
}

/// The two references an `LIR` or `JMP` to label `l` leaves, at `at` and `at + 1`.
pub open spec fn references(fixups: Seq<FixupView>, at: u8, l: Seq<char>) -> Seq<FixupView> {
    fixups.push(FixupView { offset: at as int, label: l, high: false }).push(
        FixupView { offset: at + 1, label: l, high: true },
    )
}

proof fn lemma_run_append(s: GenView, a: Seq<TokenView>, b: Seq<TokenView>)
    ensures
        run(s, a + b) == (match run(s, a) {
            RunView::Done(s1) => run(s1, b),
            r => r,
        }),
    decreases a.len(),
{
    if a.len() == 0 {
        assert(a + b =~= b);
    } else {
        assert((a + b)[0] == a[0]);
        assert((a + b).drop_first() =~= a.drop_first() + b);
        match a[0] {
            TokenView::Label(name) => {
                lemma_run_append(GenView { labels: s.labels.push((name, s.index)), ..s }, a.drop_first(), b);
            },
            TokenView::Instruction(op, args) => match emit(s, op, args) {
                EmitView::Done(s1) => {
                    lemma_run_append(s1, a.drop_first(), b);
                },
                _ => {},
            },
            TokenView::Byte(x) => match push_byte(s, x) {
                Some(s1) => {
                    lemma_run_append(s1, a.drop_first(), b);
                },
                None => {},
            },
            TokenView::Directive(_) => {},
        }
    }
}

proof fn lemma_run_single(s: GenView, t: TokenView)
    ensures
        run(s, seq![t]) == (match t {
            TokenView::Label(name) => RunView::Done(GenView { labels: s.labels.push((name, s.index)), ..s }),
            TokenView::Instruction(op, args) => match emit(s, op, args) {
                EmitView::Done(s1) => RunView::Done(s1),
                EmitView::Refused => RunView::Failed(s, op),
                EmitView::Panic => RunView::Panic,
            },
            TokenView::Byte(b) => match push_byte(s, b) {
                Some(s1) => RunView::Done(s1),
                None => RunView::Panic,
            },
            TokenView::Directive(_) => RunView::Panic,
        }),
{
    let toks = seq![t];
    assert(toks[0] == t);
    assert(toks.drop_first() =~= Seq::<TokenView>::empty());
    reveal_with_fuel(run, 2);
}

proof fn lemma_run_reg(s: GenView, op: Seq<char>, m: Mnemonic, a: u8, b: u8)
    requires
        mnemonic(upper_name(op)) == Some(m),
        is_register_op(m),
        s.index < 255,
        s.output.len() == 256,
    ensures
        run(s, seq![reg_reg(op, a, b)]) matches RunView::Done(s1) && advanced(s, s1, 1) && s1.output
            == s.output.update(
            s.index as int,
            if swaps_operands(m) {
                reg_encoding(reg_opcode(m), b, a)
            } else {
                reg_encoding(reg_opcode(m), a, b)
            },
        ),
{
    let args = seq![ArgView::Register(a), ArgView::Register(b)];
    assert(args.len() == 2 && args[0] is Register && args[1] is Register);
    assert(args[0]->Register_0 == a && args[1]->Register_0 == b);
    lemma_run_single(s, reg_reg(op, a, b));
}

proof fn lemma_run_lil(s: GenView, a: u8, i: u8)
    requires
        s.index < 255,
        s.output.len() == 256,
    ensures
        run(s, seq![reg_imm("LIL"@, a, i)]) matches RunView::Done(s1) && advanced(s, s1, 1) && s1.output
            == s.output.update(s.index as int, imm_encoding(0, a, i, false)),
{
    lemma_mnemonic_lil();
    let args = seq![ArgView::Register(a), ArgView::Immediate(i)];
    assert(args.len() == 2 && args[0] is Register && args[0]->Register_0 == a);
    assert(args[1] == ArgView::Immediate(i));
    lemma_run_single(s, reg_imm("LIL"@, a, i));
}

proof fn lemma_run_jmp_reg(s: GenView, a: u8)
    requires
        s.index < 255,
        s.output.len() == 256,
    ensures
        run(s, seq![TokenView::Instruction("JMP"@, seq![ArgView::Register(a)])]) matches RunView::Done(s1)
            && advanced(s, s1, 1),
{
    lemma_mnemonic_jmp();
    let args = seq![ArgView::Register(a)];
    assert(args.len() == 1 && args[0] is Register && args[0]->Register_0 == a);
    lemma_run_single(s, TokenView::Instruction("JMP"@, args));
}

proof fn lemma_run_lir_imm(s: GenView, a: u8, i: u8)
    requires
        s.index < 254,
        s.output.len() == 256,
    ensures
        run(s, seq![reg_imm("LIR"@, a, i)]) matches RunView::Done(s1) && advanced(s, s1, 2),
{
    lemma_mnemonic_lir();
    let args = seq![ArgView::Register(a), ArgView::Immediate(i)];
    assert(args.len() == 2 && args[0] is Register && args[0]->Register_0 == a);
    assert(args[1] == ArgView::Immediate(i));
    lemma_run_single(s, reg_imm("LIR"@, a, i));
}

/// `LIR %Ra, $l` and `JMP %Ra, $l`: two bytes (three for the jump) and two
/// references to `l`.
proof fn lemma_run_to_label(s: GenView, op: Seq<char>, a: u8, l: Seq<char>)
    requires
        op == "LIR"@ || op == "JMP"@,
        s.index + (if op == "LIR"@ { 2int } else { 3int }) <= 255,
        s.output.len() == 256,
    ensures
        run(s, seq![TokenView::Instruction(op, seq![ArgView::Register(a), ArgView::Label(l)])]) matches RunView::Done(s1)
            && s1.index == s.index + (if op == "LIR"@ { 2int } else { 3int })
            && s1.output.len() == s.output.len()
            && s1.labels == s.labels
            && s1.fixups == references(s.fixups, s.index, l),
{
    lemma_mnemonic_lir();
    lemma_mnemonic_jmp();
    reveal_strlit("LIR");
    reveal_strlit("JMP");
    assert("LIR"@[0] != "JMP"@[0]);
    let args = seq![ArgView::Register(a), ArgView::Label(l)];
    assert(args.len() == 2 && args[0] is Register && args[0]->Register_0 == a);
    assert(args[1] == ArgView::Label(l));
    lemma_run_single(s, TokenView::Instruction(op, args));
}

proof fn lemma_run_label(s: GenView, name: Seq<char>)
    ensures
        run(s, seq![TokenView::Label(name)]) == RunView::Done(GenView { labels: s.labels.push((name, s.index)), ..s }),
{
    lemma_run_single(s, TokenView::Label(name));
}

/// The one-byte lines the compiler writes: machine instructions on
/// registers and small immediates, and the jump through `%R1`.
pub open spec fn plain_line(line: Seq<char>) -> bool {
    ||| line == "LOA %R0, %R1"@
    ||| line == "LOA %R1, %R2"@
    ||| line == "ADD %R0, %R2"@
    ||| line == "ADD %R1, %R2"@
    ||| line == "STO %R1, %R0"@
    ||| line == "STO %R2, %R1"@
    ||| line == "IOW %R2, %R0"@
    ||| line == "IOR %R0, %R2"@
    ||| line == "SKL %R0, %R2"@
    ||| line == "SKL %R2, %R0"@
    ||| line == "LIL %R2, #1"@
    ||| line == "LIL %R2, #0"@
    ||| line == "LIL %R2, #-1"@
    ||| line == "JMP %R1"@
}

proof fn lemma_run_plain_line(s: GenView, line: Seq<char>)
    requires
        plain_line(line),
        s.index < 255,
        s.output.len() == 256,
    ensures
        run(s, line_tokens(line)) matches RunView::Done(s1) && advanced(s, s1, 1),
{
    if line == "LOA %R0, %R1"@ {
        lemma_line_loa_r0_r1();
        lemma_mnemonic_loa();
        lemma_run_reg(s, "LOA"@, Mnemonic::Loa, 0, 1);
    } else if line == "LOA %R1, %R2"@ {
        lemma_line_loa_r1_r2();
        lemma_mnemonic_loa();
        lemma_run_reg(s, "LOA"@, Mnemonic::Loa, 1, 2);
    } else if line == "ADD %R0, %R2"@ {
        lemma_line_add_r0_r2();
        lemma_mnemonic_add();
        lemma_run_reg(s, "ADD"@, Mnemonic::Add, 0, 2);
    } else if line == "ADD %R1, %R2"@ {
        lemma_line_add_r1_r2();
        lemma_mnemonic_add();
        lemma_run_reg(s, "ADD"@, Mnemonic::Add, 1, 2);
    } else if line == "STO %R1, %R0"@ {
        lemma_line_sto_r1_r0();
        lemma_mnemonic_sto();
        lemma_run_reg(s, "STO"@, Mnemonic::Sto, 1, 0);
    } else if line == "STO %R2, %R1"@ {
        lemma_line_sto_r2_r1();
        lemma_mnemonic_sto();
        lemma_run_reg(s, "STO"@, Mnemonic::Sto, 2, 1);
    } else if line == "IOW %R2, %R0"@ {
        lemma_line_iow_r2_r0();
        lemma_mnemonic_iow();
        lemma_run_reg(s, "IOW"@, Mnemonic::Iow, 2, 0);
    } else if line == "IOR %R0, %R2"@ {
        lemma_line_ior_r0_r2();
        lemma_mnemonic_ior();
        lemma_run_reg(s, "IOR"@, Mnemonic::Ior, 0, 2);
    } else if line == "SKL %R0, %R2"@ {
        lemma_line_skl_r0_r2();
        lemma_mnemonic_skl();
        lemma_run_reg(s, "SKL"@, Mnemonic::Skl, 0, 2);
    } else if line == "SKL %R2, %R0"@ {
        lemma_line_skl_r2_r0();
        lemma_mnemonic_skl();
        lemma_run_reg(s, "SKL"@, Mnemonic::Skl, 2, 0);
    } else if line == "LIL %R2, #1"@ {
        lemma_line_lil_one();
        lemma_run_lil(s, 2, 1);
    } else if line == "LIL %R2, #0"@ {
        lemma_line_lil_zero();
        lemma_run_lil(s, 2, 0);
    } else if line == "LIL %R2, #-1"@ {
        lemma_line_lil_minus_one();
        lemma_run_lil(s, 2, 255);
    } else if line == "JMP %R1"@ {
        lemma_line_jmp_r1();
        lemma_run_jmp_reg(s, 1);
    }
}

proof fn lemma_run_plain_lines(s: GenView, lines: Seq<Seq<char>>, i: int)
    requires
        0 <= i <= lines.len(),
        forall|j: int| i <= j < lines.len() ==> plain_line(#[trigger] lines[j]),
        s.index + lines.len() - i <= 255,
        s.output.len() == 256,
    ensures
        run(s, tokens_from(lines, i)) matches RunView::Done(s1) && advanced(s, s1, lines.len() - i),
    decreases lines.len() - i,
{
    if i == lines.len() {
        reveal_with_fuel(run, 1);
    } else {
        lemma_run_plain_line(s, lines[i]);
        let s1 = run(s, line_tokens(lines[i]))->Done_0;
        lemma_run_plain_lines(s1, lines, i + 1);
        lemma_run_append(s, line_tokens(lines[i]), tokens_from(lines, i + 1));
    }
}

proof fn lemma_tokens_append(a: Seq<Seq<char>>, b: Seq<Seq<char>>, i: int)
    requires
        0 <= i <= a.len(),
    ensures
        tokens_from(a + b, i) == tokens_from(a, i) + tokens_from(b, 0),
    decreases a.len() - i,
{
    if i == a.len() {
        lemma_tokens_shift(a, b, 0);
        assert(tokens_from(a, i) =~= Seq::<TokenView>::empty());
        assert(tokens_from(a + b, i) =~= tokens_from(a, i) + tokens_from(b, 0));
    } else {
        lemma_tokens_append(a, b, i + 1);
        assert((a + b)[i] == a[i]);
        assert(tokens_from(a + b, i) =~= tokens_from(a, i) + tokens_from(b, 0));
    }
}

proof fn lemma_tokens_shift(a: Seq<Seq<char>>, b: Seq<Seq<char>>, j: int)
    requires
        0 <= j <= b.len(),
    ensures
        tokens_from(a + b, a.len() + j) == tokens_from(b, j),
    decreases b.len() - j,
{
    if j < b.len() {
        lemma_tokens_shift(a, b, j + 1);
        assert((a + b)[a.len() + j] == b[j]);
    }
}

/// A label that has an address.
pub open spec fn defined(labels: Seq<(Seq<char>, u8)>, name: Seq<char>) -> bool {
    label_value(labels, name) is Some
}

proof fn lemma_defined_push(labels: Seq<(Seq<char>, u8)>, x: (Seq<char>, u8), name: Seq<char>)
    requires
        defined(labels, name) || x.0 == name,
    ensures
        defined(labels.push(x), name),
{
    assert(labels.push(x).drop_last() =~= labels);
    assert(labels.push(x).last() == x);
}

/// The bytes the code for one Brainfuck command takes.
pub open spec fn command_size(c: char) -> nat {
    if c == '+' || c == '-' {
        4
    } else if c == '<' || c == '>' {
        2
    } else if c == '.' || c == ',' {
        3
    } else if c == '[' {
        5
    } else if c == ']' {
        13
    } else {
        0
    }
}

/// The bytes the code for the commands `src[i..]` takes.
pub open spec fn code_size(src: Seq<char>, i: int) -> nat
    decreases src.len() - i,
{
    if i < 0 || i >= src.len() {
        0
    } else {
        command_size(src[i]) + code_size(src, i + 1)
    }
}

/// The bytes a compiled program takes: its commands, the two bytes that set
/// the cell pointer, the four of the exit sequence and the first cell.
pub open spec fn compiled_size(src: Seq<char>) -> nat {
    code_size(src, 0) + 7
}

/// How many more `[` than `]` there are in `src[i..]`.
pub open spec fn nesting(src: Seq<char>, i: int) -> int
    decreases src.len() - i,
{
    if i < 0 || i >= src.len() {
        0
    } else {
        (if src[i] == '[' {
            1int
        } else if src[i] == ']' {
            -1int
        } else {
            0int
        }) + nesting(src, i + 1)
    }
}

/// A label that the compiled code of the first `loops` loops may name.
pub open spec fn known_label(l: Seq<char>, loops: nat) -> bool {
    ||| l == "ProgramEnd"@
    ||| exists|k: nat| k < loops && (l == loop_frame(k) + "Start"@ || l == loop_frame(k) + "End"@)
}

/// The label prefix of one of the first `loops` loops.
pub open spec fn opened_frame(f: Seq<char>, loops: nat) -> bool {
    exists|k: nat| k < loops && f == loop_frame(k)
}

/// What holds of the generator after the code for a prefix of a program:
/// every reference names a label of the program, every loop opened so far
/// has its start label, every loop closed so far its end label, and the
/// open loops are loops opened so far.
pub open spec fn gen_inv(s: GenView, st: BfState) -> bool {
    &&& s.output.len() == 256
    &&& forall|j: int| 0 <= j < s.fixups.len() ==> known_label(#[trigger] s.fixups[j].label, st.loops)
    &&& forall|k: nat| k < st.loops ==> defined(s.labels, #[trigger] loop_frame(k) + "Start"@)
    &&& forall|k: nat| k < st.loops && !st.stack.contains(#[trigger] loop_frame(k)) ==> defined(s.labels, loop_frame(k) + "End"@)
    &&& forall|j: int| 0 <= j < st.stack.len() ==> opened_frame(#[trigger] st.stack[j], st.loops)
}

proof fn lemma_step_plain(st: BfState, s: GenView, added: Seq<Seq<char>>)
    requires
        gen_inv(s, st),
        forall|j: int| 0 <= j < added.len() ==> plain_line(#[trigger] added[j]),
        s.index + added.len() <= 255,
    ensures
        run(s, tokens_from(added, 0)) matches RunView::Done(s1) && gen_inv(s1, st) && s1.index == s.index + added.len(),
{
    lemma_run_plain_lines(s, added, 0);
    let s1 = run(s, tokens_from(added, 0))->Done_0;
    assert(s1.fixups == s.fixups && s1.labels == s.labels && s1.output.len() == 256);
    assert(gen_inv(s1, st));
}

/// The code for `[`: a jump to the loop's end, its start label, and the
/// cell pointer taken back from address 255.
#[verifier::spinoff_prover]
proof fn lemma_step_open(st: BfState, s: GenView)
    requires
        gen_inv(s, st),
        s.index + 5 <= 255,
    ensures
        ({
            let f = loop_frame(st.loops);
            let added = seq!["JMP %R2, $"@ + f + "End"@, f + "Start:"@, "LIL %R2, #-1"@, "LOA %R1, %R2"@];
            let st1 = BfState { lines: st.lines + added, loops: st.loops + 1, stack: st.stack.push(f) };
            run(s, tokens_from(added, 0)) matches RunView::Done(s1) && gen_inv(s1, st1) && s1.index == s.index + 5
        }),
{
    let f = loop_frame(st.loops);
    let added = seq!["JMP %R2, $"@ + f + "End"@, f + "Start:"@, "LIL %R2, #-1"@, "LOA %R1, %R2"@];
    let st1 = BfState { lines: st.lines + added, loops: st.loops + 1, stack: st.stack.push(f) };
    let end_name = f + "End"@;
    let start_name = f + "Start"@;
    lemma_line_loop_jump(st.loops);
    reveal_strlit("Start:");
    reveal_strlit("Start");
    assert(f + "Start:"@ =~= f + "Start"@ + seq![':']);
    lemma_line_loop_label(f, st.loops, "Start"@);
    let t0 = line_tokens(added[0]);
    let t1 = line_tokens(added[1]);
    let t2 = tokens_from(added, 2);
    assert(t0 == seq![TokenView::Instruction("JMP"@, seq![ArgView::Register(2), ArgView::Label(end_name)])]);
    assert(t1 == seq![TokenView::Label(start_name)]);
    assert(tokens_from(added, 0) == t0 + tokens_from(added, 1));
    assert(tokens_from(added, 1) == t1 + t2);
    reveal_strlit("JMP");
    reveal_strlit("LIR");
    assert("JMP"@[0] != "LIR"@[0]);
    lemma_run_to_label(s, "JMP"@, 2, end_name);
    let sa = run(s, t0)->Done_0;
    lemma_run_label(sa, start_name);
    let sb = GenView { labels: sa.labels.push((start_name, sa.index)), ..sa };
    assert forall|j: int| 2 <= j < added.len() implies plain_line(#[trigger] added[j]) by {}
    lemma_run_plain_lines(sb, added, 2);
    let sc = run(sb, t2)->Done_0;
    lemma_run_append(sa, t1, t2);
    lemma_run_append(s, t0, t1 + t2);
    assert(run(s, tokens_from(added, 0)) == RunView::Done(sc));
    assert(sc.index == s.index + 5);
    assert(sc.labels == s.labels.push((start_name, sa.index)));
    assert(sc.fixups == references(s.fixups, s.index, end_name));
    assert forall|j: int| 0 <= j < sc.fixups.len() implies known_label(#[trigger] sc.fixups[j].label, st1.loops) by {
        if j < s.fixups.len() {
            assert(sc.fixups[j] == s.fixups[j]);
            assert(known_label(s.fixups[j].label, st.loops));
        } else {
            assert(sc.fixups[j].label == end_name);
            assert(st.loops < st1.loops);
        }
    }
    assert forall|k: nat| k < st1.loops implies defined(sc.labels, #[trigger] loop_frame(k) + "Start"@) by {
        lemma_defined_push(s.labels, (start_name, sa.index), loop_frame(k) + "Start"@);
    }
    assert forall|k: nat| k < st1.loops && !st1.stack.contains(#[trigger] loop_frame(k)) implies defined(
        sc.labels,
        loop_frame(k) + "End"@,
    ) by {
        assert(st1.stack[st.stack.len() as int] == f);
        if k == st.loops {
            assert(st1.stack.contains(loop_frame(k)));
        } else {
            if st.stack.contains(loop_frame(k)) {
                let j = choose|j: int| 0 <= j < st.stack.len() && st.stack[j] == loop_frame(k);
                assert(st1.stack[j] == loop_frame(k));
            }
            lemma_defined_push(s.labels, (start_name, sa.index), loop_frame(k) + "End"@);
        }
    }
    assert forall|j: int| 0 <= j < st1.stack.len() implies opened_frame(#[trigger] st1.stack[j], st1.loops) by {
        if j < st.stack.len() {
            assert(st1.stack[j] == st.stack[j]);
            assert(opened_frame(st.stack[j], st.loops));
        } else {
            assert(st1.stack[j] == loop_frame(st.loops));
        }
    }
    assert(gen_inv(sc, st1));
}

proof fn lemma_tokens_single(x: Seq<char>)
    ensures
        tokens_from(seq![x], 0) == line_tokens(x),
{
    let a = seq![x];
    assert(tokens_from(a, 1) =~= Seq::<TokenView>::empty());
    assert(tokens_from(a, 0) =~= line_tokens(x));
}

/// The code for `]`: the loop's end label, the cell pointer saved at address
/// 255, and the jump back to the start unless the cell is zero.
#[verifier::spinoff_prover]
#[verifier::rlimit(30)]
proof fn lemma_step_close(st: BfState, s: GenView)
    requires
        gen_inv(s, st),
        st.stack.len() > 0,
        s.index + 13 <= 255,
    ensures
        ({
            let f = st.stack.last();
            let added = seq![
                f + "End:"@,
                "LOA %R0, %R1"@,
                "LIL %R2, #-1"@,
                "STO %R2, %R1"@,
                "LIR %R1, $"@ + f + "Start"@,
                "LIL %R2, #1"@,
                "SKL %R0, %R2"@,
                "JMP %R1"@,
                "LIL %R2, #-1"@,
                "SKL %R2, %R0"@,
                "JMP %R1"@,
                "LIL %R2, #-1"@,
                "LOA %R1, %R2"@,
            ];
            let st1 = BfState { lines: st.lines + added, stack: st.stack.drop_last(), ..st };
            run(s, tokens_from(added, 0)) matches RunView::Done(s1) && gen_inv(s1, st1) && s1.index == s.index + 13
        }),
{
    let f = st.stack.last();
    let added = seq![
        f + "End:"@,
        "LOA %R0, %R1"@,
        "LIL %R2, #-1"@,
        "STO %R2, %R1"@,
        "LIR %R1, $"@ + f + "Start"@,
        "LIL %R2, #1"@,
        "SKL %R0, %R2"@,
        "JMP %R1"@,
        "LIL %R2, #-1"@,
        "SKL %R2, %R0"@,
        "JMP %R1"@,
        "LIL %R2, #-1"@,
        "LOA %R1, %R2"@,
    ];
    let st1 = BfState { lines: st.lines + added, stack: st.stack.drop_last(), ..st };
    assert(opened_frame(st.stack[st.stack.len() - 1], st.loops));
    let k0 = choose|k: nat| k < st.loops && f == loop_frame(k);
    let end_name = f + "End"@;
    let start_name = f + "Start"@;
    reveal_strlit("End:");
    reveal_strlit("End");
    assert(f + "End:"@ =~= f + "End"@ + seq![':']);
    lemma_line_loop_label(f, k0, "End"@);
    lemma_line_loop_restart(f, k0);
    let a = seq![added[0]];
    let b = seq![added[1], added[2], added[3]];
    let c = seq![added[4]];
    let d = added.subrange(5, 13);
    assert(added =~= a + b + c + d);
    lemma_tokens_append(a + b + c, d, 0);
    lemma_tokens_append(a + b, c, 0);
    lemma_tokens_append(a, b, 0);
    lemma_tokens_single(added[0]);
    lemma_tokens_single(added[4]);
    let ta = tokens_from(a, 0);
    let tb = tokens_from(b, 0);
    let tc = tokens_from(c, 0);
    let td = tokens_from(d, 0);
    assert(tokens_from(added, 0) == ta + tb + tc + td);
    assert(ta == seq![TokenView::Label(end_name)]);
    assert(tc == seq![TokenView::Instruction("LIR"@, seq![ArgView::Register(1), ArgView::Label(start_name)])]);
    lemma_run_label(s, end_name);
    let sa = GenView { labels: s.labels.push((end_name, s.index)), ..s };
    assert forall|j: int| 0 <= j < b.len() implies plain_line(#[trigger] b[j]) by {}
    lemma_run_plain_lines(sa, b, 0);
    let sb = run(sa, tb)->Done_0;
    lemma_run_to_label(sb, "LIR"@, 1, start_name);
    let sc = run(sb, tc)->Done_0;
    assert forall|j: int| 0 <= j < d.len() implies plain_line(#[trigger] d[j]) by {
        assert(d[j] == added[j + 5]);
    }
    lemma_run_plain_lines(sc, d, 0);
    let sd = run(sc, td)->Done_0;
    lemma_run_append(sb, tc, td);
    lemma_run_append(sa, tb, tc + td);
    lemma_run_append(s, ta, tb + (tc + td));
    assert(ta + tb + tc + td =~= ta + (tb + (tc + td)));
    assert(run(s, tokens_from(added, 0)) == RunView::Done(sd));
    assert(sd.index == s.index + 13);
    assert(sd.labels == s.labels.push((end_name, s.index)));
    assert(sd.fixups == references(s.fixups, sb.index, start_name));
    assert forall|j: int| 0 <= j < sd.fixups.len() implies known_label(#[trigger] sd.fixups[j].label, st1.loops) by {
        if j < s.fixups.len() {
            assert(sd.fixups[j] == s.fixups[j]);
            assert(known_label(s.fixups[j].label, st.loops));
        } else {
            assert(sd.fixups[j].label == loop_frame(k0) + "Start"@);
        }
    }
    assert forall|k: nat| k < st1.loops implies defined(sd.labels, #[trigger] loop_frame(k) + "Start"@) by {
        lemma_defined_push(s.labels, (end_name, s.index), loop_frame(k) + "Start"@);
    }
    assert forall|k: nat| k < st1.loops && !st1.stack.contains(#[trigger] loop_frame(k)) implies defined(
        sd.labels,
        loop_frame(k) + "End"@,
    ) by {
        if loop_frame(k) == f {
            lemma_defined_push(s.labels, (end_name, s.index), loop_frame(k) + "End"@);
        } else {
            if st.stack.contains(loop_frame(k)) {
                let j = choose|j: int| 0 <= j < st.stack.len() && st.stack[j] == loop_frame(k);
                assert(j != st.stack.len() - 1);
                assert(st1.stack[j] == loop_frame(k));
            }
            lemma_defined_push(s.labels, (end_name, s.index), loop_frame(k) + "End"@);
        }
    }
    assert forall|j: int| 0 <= j < st1.stack.len() implies opened_frame(#[trigger] st1.stack[j], st1.loops) by {
        assert(st1.stack[j] == st.stack[j]);
        assert(opened_frame(st.stack[j], st.loops));
    }
    assert(gen_inv(sd, st1));
}

proof fn lemma_extend(lines: Seq<Seq<char>>, added: Seq<Seq<char>>, s: GenView)
    requires
        run(fresh(), tokens_from(lines, 0)) == RunView::Done(s),
    ensures
        run(fresh(), tokens_from(lines + added, 0)) == run(s, tokens_from(added, 0)),
{
    lemma_tokens_append(lines, added, 0);
    lemma_run_append(fresh(), tokens_from(lines, 0), tokens_from(added, 0));
}

#[verifier::spinoff_prover]
proof fn lemma_step_simple(st: BfState, c: char, s: GenView)
    requires
        run(fresh(), tokens_from(st.lines, 0)) == RunView::Done(s),
        gen_inv(s, st),
        s.index + command_size(c) <= 255,
        c != '[' && c != ']',
    ensures
        run(fresh(), tokens_from(compile_char(st, c)->Some_0.lines, 0)) matches RunView::Done(s1)
            && gen_inv(s1, compile_char(st, c)->Some_0) && s1.index == s.index + command_size(c),
{
    let st1 = compile_char(st, c)->Some_0;
    let added = st1.lines.subrange(st.lines.len() as int, st1.lines.len() as int);
    assert(st1.lines =~= st.lines + added);
    if c == '+' || c == '-' || c == '<' || c == '>' || c == '.' || c == ',' {
        assert forall|j: int| 0 <= j < added.len() implies plain_line(#[trigger] added[j]) by {}
        lemma_step_plain(st, s, added);
    } else {
        assert(added =~= Seq::<Seq<char>>::empty());
        assert(tokens_from(added, 0) =~= Seq::<TokenView>::empty());
        reveal_with_fuel(run, 1);
    }
    lemma_extend(st.lines, added, s);
}

proof fn lemma_step_char(st: BfState, c: char, s: GenView)
    requires
        run(fresh(), tokens_from(st.lines, 0)) == RunView::Done(s),
        gen_inv(s, st),
        s.index + command_size(c) <= 255,
        compile_char(st, c) is Some,
    ensures
        run(fresh(), tokens_from(compile_char(st, c)->Some_0.lines, 0)) matches RunView::Done(s1)
            && gen_inv(s1, compile_char(st, c)->Some_0) && s1.index == s.index + command_size(c),
{
    if c == '[' {
        let f = loop_frame(st.loops);
        let added = seq!["JMP %R2, $"@ + f + "End"@, f + "Start:"@, "LIL %R2, #-1"@, "LOA %R1, %R2"@];
        lemma_step_open(st, s);
        lemma_extend(st.lines, added, s);
    } else if c == ']' {
        let f = st.stack.last();
        let added = seq![
            f + "End:"@,
            "LOA %R0, %R1"@,
            "LIL %R2, #-1"@,
            "STO %R2, %R1"@,
            "LIR %R1, $"@ + f + "Start"@,
            "LIL %R2, #1"@,
            "SKL %R0, %R2"@,
            "JMP %R1"@,
            "LIL %R2, #-1"@,
            "SKL %R2, %R0"@,
            "JMP %R1"@,
            "LIL %R2, #-1"@,
            "LOA %R1, %R2"@,
        ];
        lemma_step_close(st, s);
        lemma_extend(st.lines, added, s);
    } else {
        lemma_step_simple(st, c, s);
    }
}

proof fn lemma_plain_line_lexes(line: Seq<char>)
    requires
        plain_line(line),
    ensures
        lex_line(line) is Emit,
{
    lemma_line_loa_r0_r1();
    lemma_line_loa_r1_r2();
    lemma_line_add_r0_r2();
    lemma_line_add_r1_r2();
    lemma_line_sto_r1_r0();
    lemma_line_sto_r2_r1();
    lemma_line_iow_r2_r0();
    lemma_line_ior_r0_r2();
    lemma_line_skl_r0_r2();
    lemma_line_skl_r2_r0();
    lemma_line_lil_one();
    lemma_line_lil_zero();
    lemma_line_lil_minus_one();
    lemma_line_jmp_r1();
}

proof fn lemma_well_formed_append(a: Seq<Seq<char>>, b: Seq<Seq<char>>)
    requires
        well_formed_from(a, 0),
        well_formed_from(b, 0),
    ensures
        well_formed_from(a + b, 0),
{
    assert forall|j: int| 0 <= j < (a + b).len() implies (lex_line(#[trigger] (a + b)[j]) is Emit || lex_line((a + b)[j]) is Literal) by {
        if j < a.len() {
            assert((a + b)[j] == a[j]);
        } else {
            assert((a + b)[j] == b[j - a.len()]);
        }
    }
}

/// Every open loop is one of the loops opened so far.
pub open spec fn frames_opened(st: BfState) -> bool {
    forall|j: int| 0 <= j < st.stack.len() ==> opened_frame(#[trigger] st.stack[j], st.loops)
}

#[verifier::spinoff_prover]
proof fn lemma_compile_char_lexes(st: BfState, c: char)
    requires
        well_formed_from(st.lines, 0),
        frames_opened(st),
    ensures
        compile_char(st, c) matches Some(st1) ==> well_formed_from(st1.lines, 0) && frames_opened(st1),
{
    match compile_char(st, c) {
        None => {},
        Some(st1) => {
            let added = st1.lines.subrange(st.lines.len() as int, st1.lines.len() as int);
            assert(st1.lines =~= st.lines + added);
            if c == '[' {
                let f = loop_frame(st.loops);
                reveal_strlit("Start:");
                reveal_strlit("Start");
                assert(f + "Start:"@ =~= f + "Start"@ + seq![':']);
                lemma_line_loop_jump(st.loops);
                lemma_line_loop_label(f, st.loops, "Start"@);
                lemma_plain_line_lexes("LIL %R2, #-1"@);
                lemma_plain_line_lexes("LOA %R1, %R2"@);
                assert forall|j: int| 0 <= j < st1.stack.len() implies opened_frame(#[trigger] st1.stack[j], st1.loops) by {
                    if j < st.stack.len() {
                        assert(st1.stack[j] == st.stack[j]);
                        assert(opened_frame(st.stack[j], st.loops));
                    } else {
                        assert(st1.stack[j] == loop_frame(st.loops));
                    }
                }
            } else if c == ']' {
                let f = st.stack.last();
                assert(opened_frame(st.stack[st.stack.len() - 1], st.loops));
                let k = choose|k: nat| k < st.loops && f == loop_frame(k);
                reveal_strlit("End:");
                reveal_strlit("End");
                assert(f + "End:"@ =~= f + "End"@ + seq![':']);
                lemma_line_loop_label(f, k, "End"@);
                lemma_line_loop_restart(f, k);
                assert forall|j: int| 1 <= j < added.len() && j != 4 implies plain_line(#[trigger] added[j]) by {}
                assert forall|j: int| 1 <= j < added.len() && j != 4 implies lex_line(#[trigger] added[j]) is Emit by {
                    lemma_plain_line_lexes(added[j]);
                }
                assert forall|j: int| 0 <= j < st1.stack.len() implies opened_frame(#[trigger] st1.stack[j], st1.loops) by {
                    assert(st1.stack[j] == st.stack[j]);
                    assert(opened_frame(st.stack[j], st.loops));
                }
            } else {
                assert forall|j: int| 0 <= j < added.len() implies plain_line(#[trigger] added[j]) by {}
                assert forall|j: int| 0 <= j < added.len() implies lex_line(#[trigger] added[j]) is Emit by {
                    lemma_plain_line_lexes(added[j]);
                }
            }
            assert(well_formed_from(added, 0));
            lemma_well_formed_append(st.lines, added);
        },
    }
}

proof fn lemma_compile_from_lexes(src: Seq<char>, i: int, st: BfState)
    requires
        well_formed_from(st.lines, 0),
        frames_opened(st),
    ensures
        compile_from(src, i, st) matches Some(st1) ==> well_formed_from(st1.lines, 0),
    decreases src.len() - i,
{
    if 0 <= i < src.len() {
        lemma_compile_char_lexes(st, src[i]);
        match compile_char(st, src[i]) {
            None => {},
            Some(st1) => {
                lemma_compile_from_lexes(src, i + 1, st1);
            },
        }
    }
}

/// What the Brainfuck compiler writes is assembly the lexer reads: every
/// line of a compiled program is a label, an instruction with well-formed
/// arguments, or a literal.
pub proof fn law_compiled_lines_lex(src: Seq<char>)
    ensures
        compiled(src) matches Some(lines) ==> well_formed_from(lines, 0),
{
    lemma_line_program_start();
    let init = first_state();
    assert(well_formed_from(init.lines, 0));
    lemma_compile_from_lexes(src, 0, init);
    match compile_from(src, 0, init) {
        None => {},
        Some(st) => {
            lemma_line_lir_minus_one();
            lemma_plain_line_lexes("LOA %R0, %R1"@);
            lemma_plain_line_lexes("IOW %R2, %R0"@);
            lemma_line_program_end();
            lemma_line_zero_byte();
            let tail = exit_lines();
            assert(well_formed_from(tail, 0));
            lemma_well_formed_append(st.lines, tail);
        },
    }
}

proof fn lemma_compile_run(src: Seq<char>, i: int, st: BfState, s: GenView)
    requires
        0 <= i <= src.len(),
        run(fresh(), tokens_from(st.lines, 0)) == RunView::Done(s),
        gen_inv(s, st),
        s.index + code_size(src, i) <= 255,
        compile_from(src, i, st) is Some,
    ensures
        run(fresh(), tokens_from(compile_from(src, i, st)->Some_0.lines, 0)) matches RunView::Done(s1)
            && gen_inv(s1, compile_from(src, i, st)->Some_0) && s1.index == s.index + code_size(src, i),
        compile_from(src, i, st)->Some_0.stack.len() == st.stack.len() + nesting(src, i),
    decreases src.len() - i,
{
    if i < src.len() {
        let c = src[i];
        lemma_step_char(st, c, s);
        let st1 = compile_char(st, c)->Some_0;
        let s1 = run(fresh(), tokens_from(st1.lines, 0))->Done_0;
        lemma_compile_run(src, i + 1, st1, s1);
        assert(st1.stack.len() == st.stack.len() + (if c == '[' {
            1int
        } else if c == ']' {
            -1int
        } else {
            0int
        }));
    }
}

proof fn lemma_resolve_defined(out: Seq<u8>, labels: Seq<(Seq<char>, u8)>, fixups: Seq<FixupView>, i: int)
    requires
        0 <= i,
        forall|j: int| i <= j < fixups.len() ==> defined(labels, #[trigger] fixups[j].label),
    ensures
        resolve(out, labels, fixups, i) is Some,
    decreases fixups.len() - i,
{
    if i < fixups.len() {
        let f = fixups[i];
        assert(defined(labels, f.label));
        let v = label_value(labels, f.label)->Some_0;
        lemma_resolve_defined(out.update(f.offset, patched(out[f.offset], v, f.high)), labels, fixups, i + 1);
    }
}

/// The first line of a compiled program: the cell pointer set to the end
/// of the program.
pub open spec fn first_state() -> BfState {
    BfState { lines: seq!["LIR %R1, $ProgramEnd"@], loops: 0, stack: Seq::empty() }
}

/// The last lines of a compiled program.
pub open spec fn exit_lines() -> Seq<Seq<char>> {
    seq!["LIR %R2, #-1"@, "LOA %R0, %R1"@, "IOW %R2, %R0"@, "ProgramEnd:"@, ".0x00"@]
}

proof fn lemma_first_line()
    ensures
        run(fresh(), tokens_from(first_state().lines, 0)) matches RunView::Done(s0) && gen_inv(s0, first_state())
            && s0.index == 2,
{
    let init = first_state();
    lemma_line_program_start();
    lemma_tokens_single("LIR %R1, $ProgramEnd"@);
    reveal_strlit("LIR");
    reveal_strlit("ProgramEnd");
    lemma_run_to_label(fresh(), "LIR"@, 1, "ProgramEnd"@);
    let s0 = run(fresh(), tokens_from(init.lines, 0))->Done_0;
    assert forall|j: int| 0 <= j < s0.fixups.len() implies known_label(#[trigger] s0.fixups[j].label, init.loops) by {}
    assert(gen_inv(s0, init));
}

#[verifier::spinoff_prover]
#[verifier::rlimit(30)]
proof fn lemma_exit_lines(s1: GenView, st: BfState)
    requires
        gen_inv(s1, st),
        st.stack.len() == 0,
        s1.index + 5 <= 255,
    ensures
        run(s1, tokens_from(exit_lines(), 0)) matches RunView::Done(sd) && sd.index == s1.index + 5
            && forall|j: int| 0 <= j < sd.fixups.len() ==> defined(sd.labels, #[trigger] sd.fixups[j].label),
{
    let tail = exit_lines();
    lemma_line_lir_minus_one();
    lemma_line_program_end();
    lemma_line_zero_byte();
    let a = seq![tail[0]];
    let b = seq![tail[1], tail[2]];
    let c = seq![tail[3]];
    let d = seq![tail[4]];
    assert(tail =~= a + b + c + d);
    lemma_tokens_append(a + b + c, d, 0);
    lemma_tokens_append(a + b, c, 0);
    lemma_tokens_append(a, b, 0);
    lemma_tokens_single(tail[0]);
    lemma_tokens_single(tail[3]);
    lemma_tokens_single(tail[4]);
    let ta = tokens_from(a, 0);
    let tb = tokens_from(b, 0);
    let tc = tokens_from(c, 0);
    let td = tokens_from(d, 0);
    assert(byte_tokens(seq![0u8]) =~= seq![TokenView::Byte(0u8)]);
    assert(td == seq![TokenView::Byte(0u8)]);
    lemma_run_lir_imm(s1, 2, 255);
    let sa = run(s1, ta)->Done_0;
    assert forall|j: int| 0 <= j < b.len() implies plain_line(#[trigger] b[j]) by {}
    lemma_run_plain_lines(sa, b, 0);
    let sb = run(sa, tb)->Done_0;
    lemma_run_label(sb, "ProgramEnd"@);
    let sc = GenView { labels: sb.labels.push(("ProgramEnd"@, sb.index)), ..sb };
    lemma_run_single(sc, TokenView::Byte(0u8));
    let sd = run(sc, td)->Done_0;
    lemma_run_append(sb, tc, td);
    lemma_run_append(sa, tb, tc + td);
    lemma_run_append(s1, ta, tb + (tc + td));
    assert(ta + tb + tc + td =~= ta + (tb + (tc + td)));
    assert(run(s1, tokens_from(tail, 0)) == RunView::Done(sd));
    assert(sd.fixups == s1.fixups);
    assert(sd.labels == s1.labels.push(("ProgramEnd"@, sb.index)));
    assert forall|j: int| 0 <= j < sd.fixups.len() implies defined(sd.labels, #[trigger] sd.fixups[j].label) by {
        let l = sd.fixups[j].label;
        assert(sd.fixups[j] == s1.fixups[j]);
        assert(known_label(l, st.loops));
        if l != "ProgramEnd"@ {
            let k = choose|k: nat| k < st.loops && (l == loop_frame(k) + "Start"@ || l == loop_frame(k) + "End"@);
            assert(defined(s1.labels, loop_frame(k) + "Start"@));
            assert(!st.stack.contains(loop_frame(k)));
            assert(defined(s1.labels, loop_frame(k) + "End"@));
        }
        lemma_defined_push(s1.labels, ("ProgramEnd"@, sb.index), l);
    }
}

/// A Brainfuck program compiles to assembly that assembles: if the compiler
/// accepts it, every loop it opens is closed, and its code fits in memory,
/// then lexing the compiled lines gives tokens without error and the
/// assembler turns them into an image of `compiled_size(src)` bytes.
pub proof fn law_compiled_program_assembles(src: Seq<char>)
    requires
        compiled(src) is Some,
        nesting(src, 0) == 0,
        compiled_size(src) <= 255,
    ensures
        collect_from(start(compiled(src)->Some_0), Seq::empty()) matches CollectView::Done(Ok(toks))
            && assemble_from(fresh(), toks) matches AssembleView::Assembled(_, _, size)
            && size == compiled_size(src),
{
    let lines = compiled(src)->Some_0;
    law_compiled_lines_lex(src);
    law_well_formed_lines_lex(lines);
    let toks = tokens_from(lines, 0);
    lemma_first_line();
    let s0 = run(fresh(), tokens_from(first_state().lines, 0))->Done_0;
    lemma_compile_run(src, 0, first_state(), s0);
    let st = compile_from(src, 0, first_state())->Some_0;
    let s1 = run(fresh(), tokens_from(st.lines, 0))->Done_0;
    assert(lines == st.lines + exit_lines());
    lemma_extend(st.lines, exit_lines(), s1);
    lemma_exit_lines(s1, st);
    let sd = run(s1, tokens_from(exit_lines(), 0))->Done_0;
    assert(run(fresh(), toks) == RunView::Done(sd));
    lemma_resolve_defined(sd.output, sd.labels, sd.fixups, 0);
}

/// Reading `line` from any state with room writes the one byte `b`.
pub open spec fn pushes(line: Seq<char>, b: u8) -> bool {
    forall|t: GenView|
        t.output.len() == 256 && t.index < 255 ==> #[trigger] run(t, line_tokens(line)) == RunView::Done(
            GenView { output: t.output.update(t.index as int, b), index: (t.index + 1) as u8, ..t },
        )
}

proof fn lemma_pushes_chain(s: GenView, lines: Seq<Seq<char>>, bytes: Seq<u8>, i: int)
    requires
        lines.len() == bytes.len(),
        0 <= i <= lines.len(),
        forall|j: int| 0 <= j < lines.len() ==> pushes(#[trigger] lines[j], bytes[j]),
        s.output.len() == 256,
        s.index + lines.len() - i <= 255,
    ensures
        run(s, tokens_from(lines, i)) == RunView::Done(
            GenView {
                output: written(s.output, s.index as int, bytes.subrange(i, bytes.len() as int)),
                index: (s.index + lines.len() - i) as u8,
                ..s
            },
        ),
    decreases lines.len() - i,
{
    if i == lines.len() {
        assert(tokens_from(lines, i) =~= Seq::<TokenView>::empty());
        reveal_with_fuel(run, 1);
        assert(written(s.output, s.index as int, bytes.subrange(i, bytes.len() as int)) =~= s.output);
        assert(GenView { output: s.output, index: s.index, ..s } == s);
    } else {
        assert(pushes(lines[i], bytes[i]));
        let s1 = GenView { output: s.output.update(s.index as int, bytes[i]), index: (s.index + 1) as u8, ..s };
        assert(run(s, line_tokens(lines[i])) == RunView::Done(s1));
        lemma_pushes_chain(s1, lines, bytes, i + 1);
        lemma_run_append(s, line_tokens(lines[i]), tokens_from(lines, i + 1));
        assert(written(s1.output, s1.index as int, bytes.subrange(i + 1, bytes.len() as int)) =~= written(
            s.output,
            s.index as int,
            bytes.subrange(i, bytes.len() as int),
        ));
    }
}

proof fn lemma_pushes_reg(line: Seq<char>, op: Seq<char>, m: Mnemonic, a: u8, b: u8)
    requires
        lex_line(line) == LineView::Emit(reg_reg(op, a, b)),
        mnemonic(upper_name(op)) == Some(m),
        is_register_op(m),
    ensures
        pushes(
            line,
            if swaps_operands(m) {
                reg_encoding(reg_opcode(m), b, a)
            } else {
                reg_encoding(reg_opcode(m), a, b)
            },
        ),
{
    assert forall|t: GenView| t.output.len() == 256 && t.index < 255 implies #[trigger] run(t, line_tokens(line))
        == RunView::Done(
        GenView {
            output: t.output.update(
                t.index as int,
                if swaps_operands(m) {
                    reg_encoding(reg_opcode(m), b, a)
                } else {
                    reg_encoding(reg_opcode(m), a, b)
                },
            ),
            index: (t.index + 1) as u8,
            ..t
        },
    ) by {
        lemma_run_reg(t, op, m, a, b);
    }
}

proof fn lemma_pushes_lil(line: Seq<char>, a: u8, i: u8)
    requires
        lex_line(line) == LineView::Emit(reg_imm("LIL"@, a, i)),
    ensures
        pushes(line, imm_encoding(0, a, i, false)),
{
    assert forall|t: GenView| t.output.len() == 256 && t.index < 255 implies #[trigger] run(t, line_tokens(line))
        == RunView::Done(GenView { output: t.output.update(t.index as int, imm_encoding(0, a, i, false)), index: (t.index + 1) as u8, ..t }) by {
        lemma_run_lil(t, a, i);
    }
}

/// The lines the compiler writes for a cell command, each with the byte
/// it assembles to.
#[verifier::spinoff_prover]
proof fn lemma_cell_lines_plus() -> (lines: Seq<Seq<char>>)
    ensures
        lines == seq!["LOA %R0, %R1"@, "LIL %R2, #1"@, "ADD %R0, %R2"@, "STO %R1, %R0"@],
        lines.len() == command_bytes('+').len(),
        forall|j: int| 0 <= j < lines.len() ==> pushes(#[trigger] lines[j], command_bytes('+')[j]),
{
    lemma_line_loa_r0_r1();
    lemma_mnemonic_loa();
    lemma_pushes_reg("LOA %R0, %R1"@, "LOA"@, Mnemonic::Loa, 0, 1);
    lemma_line_lil_one();
    lemma_pushes_lil("LIL %R2, #1"@, 2, 1);
    lemma_line_add_r0_r2();
    lemma_mnemonic_add();
    lemma_pushes_reg("ADD %R0, %R2"@, "ADD"@, Mnemonic::Add, 0, 2);
    lemma_line_sto_r1_r0();
    lemma_mnemonic_sto();
    lemma_pushes_reg("STO %R1, %R0"@, "STO"@, Mnemonic::Sto, 1, 0);
    let lines = seq!["LOA %R0, %R1"@, "LIL %R2, #1"@, "ADD %R0, %R2"@, "STO %R1, %R0"@];
    assert forall|j: int| 0 <= j < lines.len() implies pushes(#[trigger] lines[j], command_bytes('+')[j]) by {}
    lines
}

#[verifier::spinoff_prover]
proof fn lemma_cell_lines_minus() -> (lines: Seq<Seq<char>>)
    ensures
        lines == seq!["LOA %R0, %R1"@, "LIL %R2, #-1"@, "ADD %R0, %R2"@, "STO %R1, %R0"@],
        lines.len() == command_bytes('-').len(),
        forall|j: int| 0 <= j < lines.len() ==> pushes(#[trigger] lines[j], command_bytes('-')[j]),
{
    lemma_line_loa_r0_r1();
    lemma_mnemonic_loa();
    lemma_pushes_reg("LOA %R0, %R1"@, "LOA"@, Mnemonic::Loa, 0, 1);
    lemma_line_lil_minus_one();
    lemma_pushes_lil("LIL %R2, #-1"@, 2, 255);
    lemma_line_add_r0_r2();
    lemma_mnemonic_add();
    lemma_pushes_reg("ADD %R0, %R2"@, "ADD"@, Mnemonic::Add, 0, 2);
    lemma_line_sto_r1_r0();
    lemma_mnemonic_sto();
    lemma_pushes_reg("STO %R1, %R0"@, "STO"@, Mnemonic::Sto, 1, 0);
    let lines = seq!["LOA %R0, %R1"@, "LIL %R2, #-1"@, "ADD %R0, %R2"@, "STO %R1, %R0"@];
    assert forall|j: int| 0 <= j < lines.len() implies pushes(#[trigger] lines[j], command_bytes('-')[j]) by {}
    lines
}

#[verifier::spinoff_prover]
proof fn lemma_cell_lines_right() -> (lines: Seq<Seq<char>>)
    ensures
        lines == seq!["LIL %R2, #1"@, "ADD %R1, %R2"@],
        lines.len() == command_bytes('>').len(),
        forall|j: int| 0 <= j < lines.len() ==> pushes(#[trigger] lines[j], command_bytes('>')[j]),
{
    lemma_line_lil_one();
    lemma_pushes_lil("LIL %R2, #1"@, 2, 1);
    lemma_line_add_r1_r2();
    lemma_mnemonic_add();
    lemma_pushes_reg("ADD %R1, %R2"@, "ADD"@, Mnemonic::Add, 1, 2);
    let lines = seq!["LIL %R2, #1"@, "ADD %R1, %R2"@];
    assert forall|j: int| 0 <= j < lines.len() implies pushes(#[trigger] lines[j], command_bytes('>')[j]) by {}
    lines
}

#[verifier::spinoff_prover]
proof fn lemma_cell_lines_left() -> (lines: Seq<Seq<char>>)
    ensures
        lines == seq!["LIL %R2, #-1"@, "ADD %R1, %R2"@],
        lines.len() == command_bytes('<').len(),
        forall|j: int| 0 <= j < lines.len() ==> pushes(#[trigger] lines[j], command_bytes('<')[j]),
{
    lemma_line_lil_minus_one();
    lemma_pushes_lil("LIL %R2, #-1"@, 2, 255);
    lemma_line_add_r1_r2();
    lemma_mnemonic_add();
    lemma_pushes_reg("ADD %R1, %R2"@, "ADD"@, Mnemonic::Add, 1, 2);
    let lines = seq!["LIL %R2, #-1"@, "ADD %R1, %R2"@];
    assert forall|j: int| 0 <= j < lines.len() implies pushes(#[trigger] lines[j], command_bytes('<')[j]) by {}
    lines
}

#[verifier::spinoff_prover]
proof fn lemma_cell_lines_out() -> (lines: Seq<Seq<char>>)
    ensures
        lines == seq!["LOA %R0, %R1"@, "LIL %R2, #0"@, "IOW %R2, %R0"@],
        lines.len() == command_bytes('.').len(),
        forall|j: int| 0 <= j < lines.len() ==> pushes(#[trigger] lines[j], command_bytes('.')[j]),
{
    lemma_line_loa_r0_r1();
    lemma_mnemonic_loa();
    lemma_pushes_reg("LOA %R0, %R1"@, "LOA"@, Mnemonic::Loa, 0, 1);
    lemma_line_lil_zero();
    lemma_pushes_lil("LIL %R2, #0"@, 2, 0);
    lemma_line_iow_r2_r0();
    lemma_mnemonic_iow();
    lemma_pushes_reg("IOW %R2, %R0"@, "IOW"@, Mnemonic::Iow, 2, 0);
    let lines = seq!["LOA %R0, %R1"@, "LIL %R2, #0"@, "IOW %R2, %R0"@];
    assert forall|j: int| 0 <= j < lines.len() implies pushes(#[trigger] lines[j], command_bytes('.')[j]) by {}
    lines
}

#[verifier::spinoff_prover]
proof fn lemma_cell_lines_in() -> (lines: Seq<Seq<char>>)
    ensures
        lines == seq!["LIL %R2, #0"@, "IOR %R0, %R2"@, "STO %R1, %R0"@],
        lines.len() == command_bytes(',').len(),
        forall|j: int| 0 <= j < lines.len() ==> pushes(#[trigger] lines[j], command_bytes(',')[j]),
{
    lemma_line_lil_zero();
    lemma_pushes_lil("LIL %R2, #0"@, 2, 0);
    lemma_line_ior_r0_r2();
    lemma_mnemonic_ior();
    lemma_pushes_reg("IOR %R0, %R2"@, "IOR"@, Mnemonic::Ior, 0, 2);
    lemma_line_sto_r1_r0();
    lemma_mnemonic_sto();
    lemma_pushes_reg("STO %R1, %R0"@, "STO"@, Mnemonic::Sto, 1, 0);
    let lines = seq!["LIL %R2, #0"@, "IOR %R0, %R2"@, "STO %R1, %R0"@];
    assert forall|j: int| 0 <= j < lines.len() implies pushes(#[trigger] lines[j], command_bytes(',')[j]) by {}
    lines
}

/// The assembler writes the code that the compiler emits for a command
/// without a loop as exactly `command_bytes(c)` at the current address,
/// and records no label and no reference for it.
pub proof fn law_simple_command_emits(st: BfState, c: char, s: GenView)
    requires
        simple_command(c),
        s.output.len() == 256,
        s.index + command_bytes(c).len() <= 255,
    ensures
        ({
            let st1 = compile_char(st, c)->Some_0;
            let added = st1.lines.subrange(st.lines.len() as int, st1.lines.len() as int);
            &&& st1.lines == st.lines + added
            &&& run(s, tokens_from(added, 0)) == RunView::Done(
                GenView {
                    output: written(s.output, s.index as int, command_bytes(c)),
                    index: (s.index + command_bytes(c).len()) as u8,
                    ..s
                },
            )
        }),
{
    let st1 = compile_char(st, c)->Some_0;
    let added = st1.lines.subrange(st.lines.len() as int, st1.lines.len() as int);
    assert(st1.lines =~= st.lines + added);
    let bytes = command_bytes(c);
    let lines = if c == '+' {
        lemma_cell_lines_plus()
    } else if c == '-' {
        lemma_cell_lines_minus()
    } else if c == '>' {
        lemma_cell_lines_right()
    } else if c == '<' {
        lemma_cell_lines_left()
    } else if c == '.' {
        lemma_cell_lines_out()
    } else {
        lemma_cell_lines_in()
    };
    assert(added =~= lines);
    lemma_pushes_chain(s, added, bytes, 0);
    assert(bytes.subrange(0, bytes.len() as int) =~= bytes);
}

} // verus!
