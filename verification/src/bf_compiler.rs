//! A Brainfuck compiler that emits BRISC8 assembly.
//!
//! Register use in the generated code: `%R1` points at the current cell,
//! `%R0` holds its value and `%R2` is scratch. The cells start right after
//! the program (label `ProgramEnd`); while a loop condition is tested the
//! cell pointer is kept at the address that `LIL %R2, #-1` leaves in `%R2`.
//! What this code does on the core is stated in `bf_semantics`.
use vstd::prelude::*;
use vstd::string::StringExecFns;
use crate::text::string_from_chars;

verus! {

/// The character of a decimal digit.
pub open spec fn digit_char(d: int) -> char {
    if d == 0 {
        '0'
    } else if d == 1 {
        '1'
    } else if d == 2 {
        '2'
    } else if d == 3 {
        '3'
    } else if d == 4 {
        '4'
    } else if d == 5 {
        '5'
    } else if d == 6 {
        '6'
    } else if d == 7 {
        '7'
    } else if d == 8 {
        '8'
    } else {
        '9'
    }
}

/// The decimal representation of `n`, as `Display` writes it.
pub open spec fn decimal(n: nat) -> Seq<char>
    decreases n,
{
    if n < 10 {
        seq![digit_char(n as int)]
    } else {
        decimal(n / 10).push(digit_char((n % 10) as int))
    }
}

fn digit_exec(d: u32) -> (c: char)
    requires
        d < 10,
    ensures
        c == digit_char(d as int),
{
    if d == 0 {
        '0'
    } else if d == 1 {
        '1'
    } else if d == 2 {
        '2'
    } else if d == 3 {
        '3'
    } else if d == 4 {
        '4'
    } else if d == 5 {
        '5'
    } else if d == 6 {
        '6'
    } else if d == 7 {
        '7'
    } else if d == 8 {
        '8'
    } else {
        '9'
    }
}

fn push_decimal(n: u32, out: &mut Vec<char>)
    ensures
        final(out)@ == old(out)@ + decimal(n as nat),
    decreases n,
{
    if n >= 10 {
        push_decimal(n / 10, out);
    }
    out.push(digit_exec(n % 10));
    proof {
        if n < 10 {
            assert(final(out)@ =~= old(out)@ + decimal(n as nat));
        } else {
            assert(decimal(n as nat) == decimal((n / 10) as nat).push(digit_char((n % 10) as int)));
            assert(final(out)@ =~= old(out)@ + decimal(n as nat));
        }
    }
}

/// The label prefix of the `k`-th loop of a program.
pub open spec fn loop_frame(k: nat) -> Seq<char> {
    "LoopNo_"@ + decimal(k)
}

fn loop_frame_exec(k: u32) -> (s: String)
    ensures
        s@ == loop_frame(k as nat),
{
    let mut cs: Vec<char> = Vec::new();
    push_decimal(k, &mut cs);
    assert(cs@ =~= decimal(k as nat));
    let mut s = String::from_str("LoopNo_");
    s.append(string_from_chars(cs.as_slice()).as_str());
    s
}

/// The state of the compiler between two characters: the lines so far, the
/// number of loops opened so far, and the open loops' frames, innermost last.
pub struct BfState {
    pub lines: Seq<Seq<char>>,
    pub loops: nat,
    pub stack: Seq<Seq<char>>,
}

/// The code for one character of the source; `None` for a `]` with no
/// open loop, or a loop number past `i32::MAX`, on which the compiler stops.
/// Characters that are not Brainfuck commands produce nothing.
pub open spec fn compile_char(st: BfState, c: char) -> Option<BfState> {
    if c == '+' {
        Some(BfState {
            lines: st.lines + seq!["LOA %R0, %R1"@, "LIL %R2, #1"@, "ADD %R0, %R2"@, "STO %R1, %R0"@],
            ..st
        })
    } else if c == '-' {
        Some(BfState {
            lines: st.lines + seq!["LOA %R0, %R1"@, "LIL %R2, #-1"@, "ADD %R0, %R2"@, "STO %R1, %R0"@],
            ..st
        })
    } else if c == '<' {
        Some(BfState { lines: st.lines + seq!["LIL %R2, #-1"@, "ADD %R1, %R2"@], ..st })
    } else if c == '>' {
        Some(BfState { lines: st.lines + seq!["LIL %R2, #1"@, "ADD %R1, %R2"@], ..st })
    } else if c == '.' {
        Some(BfState { lines: st.lines + seq!["LOA %R0, %R1"@, "LIL %R2, #0"@, "IOW %R2, %R0"@], ..st })
    } else if c == ',' {
        Some(BfState { lines: st.lines + seq!["LIL %R2, #0"@, "IOR %R0, %R2"@, "STO %R1, %R0"@], ..st })
    } else if c == '[' {
        if st.loops >= 0x7fff_ffff {
            None
        } else {
            let frame = loop_frame(st.loops);
            Some(BfState {
                lines: st.lines + seq![
                    "JMP %R2, $"@ + frame + "End"@,
                    frame + "Start:"@,
                    "LIL %R2, #-1"@,
                    "LOA %R1, %R2"@,
                ],
                loops: st.loops + 1,
                stack: st.stack.push(frame),
            })
        }
    } else if c == ']' {
        if st.stack.len() == 0 {
            None
        } else {
            let frame = st.stack.last();
            Some(BfState {
                lines: st.lines + seq![
                    frame + "End:"@,
                    "LOA %R0, %R1"@,
                    "LIL %R2, #-1"@,
                    "STO %R2, %R1"@,
                    "LIR %R1, $"@ + frame + "Start"@,
                    "LIL %R2, #1"@,
                    "SKL %R0, %R2"@,
                    "JMP %R1"@,
                    "LIL %R2, #-1"@,
                    "SKL %R2, %R0"@,
                    "JMP %R1"@,
                    "LIL %R2, #-1"@,
                    "LOA %R1, %R2"@,
                ],
                stack: st.stack.drop_last(),
                ..st
            })
        }
    } else {
        Some(st)
    }
}

/// The compiler state after the characters `src[i..]`.
pub open spec fn compile_from(src: Seq<char>, i: int, st: BfState) -> Option<BfState>
    decreases src.len() - i,
{
    if i < 0 || i >= src.len() {
        Some(st)
    } else {
        match compile_char(st, src[i]) {
            None => None,
            Some(st1) => compile_from(src, i + 1, st1),
        }
    }
}

/// The assembly for a Brainfuck program, one line per element: the cell
/// pointer is set to the end of the program, each command is translated,
/// and the program ends by writing the current cell to I/O address 255.
/// `None` where the compiler stops the program.
pub open spec fn compiled(src: Seq<char>) -> Option<Seq<Seq<char>>> {
    match compile_from(src, 0, BfState { lines: seq!["LIR %R1, $ProgramEnd"@], loops: 0, stack: Seq::empty() }) {
        None => None,
        Some(st) => Some(
            st.lines + seq!["LIR %R2, #-1"@, "LOA %R0, %R1"@, "IOW %R2, %R0"@, "ProgramEnd:"@, ".0x00"@],
        ),
    }
}

/// The lines of a list of strings.
pub open spec fn lines_view(v: Seq<String>) -> Seq<Seq<char>> {
    v.map_values(|s: String| s@)
}

fn push_line(out: &mut Vec<String>, line: &str)
    ensures
        lines_view(final(out)@) == lines_view(old(out)@).push(line@),
{
    out.push(String::from_str(line));
    assert(lines_view(final(out)@) =~= lines_view(old(out)@).push(line@));
}

fn push_owned(out: &mut Vec<String>, line: String)
    ensures
        lines_view(final(out)@) == lines_view(old(out)@).push(line@),
{
    let ghost l = line@;
    out.push(line);
    assert(lines_view(final(out)@) =~= lines_view(old(out)@).push(l));
}

fn joined(a: &String, b: &str) -> (s: String)
    ensures
        s@ == a@ + b@,
{
    let mut s = a.clone();
    s.append(b);
    s
}

/// Whether the compiler accepts `source` (every `]` closes an open loop).
pub fn compiles(source: &str) -> (r: bool)
    ensures
        r == (compiled(source@) is Some),
{
    let src = crate::text::chars_of(source);
    let mut depth: usize = 0;
    let mut loops: u32 = 0;
    let mut i: usize = 0;
    let ghost mut st = BfState { lines: seq!["LIR %R1, $ProgramEnd"@], loops: 0, stack: Seq::empty() };
    while i < src.len()
        invariant
            i <= src@.len(),
            src@ == source@,
            st.stack.len() == depth,
            depth <= loops,
            st.loops == loops,
            loops <= 0x7fff_ffff,
            compile_from(src@, 0, BfState { lines: seq!["LIR %R1, $ProgramEnd"@], loops: 0, stack: Seq::empty() })
                == compile_from(src@, i as int, st),
        decreases src@.len() - i,
    {
        let c = src[i];
        if c == '[' {
            if loops >= 0x7fff_ffff {
                return false;
            }
            loops = loops + 1;
            depth = depth + 1;
        } else if c == ']' {
            if depth == 0 {
                return false;
            }
            depth = depth - 1;
        }
        proof {
            st = compile_char(st, c).unwrap();
        }
        i = i + 1;
    }
    true
}

/// Compiles a Brainfuck program to assembly, one line per element.
pub fn compile(source: &str) -> (lines: Vec<String>)
    requires
        compiled(source@) is Some,
    ensures
        lines_view(lines@) == compiled(source@).unwrap(),
{
    let src = crate::text::chars_of(source);
    let mut result: Vec<String> = Vec::new();
    let mut loop_index: u32 = 0;
    let mut loop_stack: Vec<String> = Vec::new();
    push_line(&mut result, "LIR %R1, $ProgramEnd");
    let ghost init = BfState { lines: seq!["LIR %R1, $ProgramEnd"@], loops: 0, stack: Seq::empty() };
    assert(lines_view(result@) =~= init.lines);
    assert(lines_view(loop_stack@) =~= init.stack);
    let mut i: usize = 0;
    while i < src.len()
        invariant
            i <= src@.len(),
            src@ == source@,
            compile_from(src@, 0, init) is Some,
            compile_from(src@, 0, init) == compile_from(
                src@,
                i as int,
                BfState { lines: lines_view(result@), loops: loop_index as nat, stack: lines_view(loop_stack@) },
            ),
        decreases src@.len() - i,
    {
        let ghost st = BfState { lines: lines_view(result@), loops: loop_index as nat, stack: lines_view(loop_stack@) };
        let c = src[i];
        if c == '+' {
            push_line(&mut result, "LOA %R0, %R1");
            push_line(&mut result, "LIL %R2, #1");
            push_line(&mut result, "ADD %R0, %R2");
            push_line(&mut result, "STO %R1, %R0");
            assert(lines_view(result@) =~= st.lines + seq!["LOA %R0, %R1"@, "LIL %R2, #1"@, "ADD %R0, %R2"@, "STO %R1, %R0"@]);
        } else if c == '-' {
            push_line(&mut result, "LOA %R0, %R1");
            push_line(&mut result, "LIL %R2, #-1");
            push_line(&mut result, "ADD %R0, %R2");
            push_line(&mut result, "STO %R1, %R0");
            assert(lines_view(result@) =~= st.lines + seq!["LOA %R0, %R1"@, "LIL %R2, #-1"@, "ADD %R0, %R2"@, "STO %R1, %R0"@]);
        } else if c == '<' {
            push_line(&mut result, "LIL %R2, #-1");
            push_line(&mut result, "ADD %R1, %R2");
            assert(lines_view(result@) =~= st.lines + seq!["LIL %R2, #-1"@, "ADD %R1, %R2"@]);
        } else if c == '>' {
            push_line(&mut result, "LIL %R2, #1");
            push_line(&mut result, "ADD %R1, %R2");
            assert(lines_view(result@) =~= st.lines + seq!["LIL %R2, #1"@, "ADD %R1, %R2"@]);
        } else if c == '.' {
            push_line(&mut result, "LOA %R0, %R1");
            push_line(&mut result, "LIL %R2, #0");
            push_line(&mut result, "IOW %R2, %R0");
            assert(lines_view(result@) =~= st.lines + seq!["LOA %R0, %R1"@, "LIL %R2, #0"@, "IOW %R2, %R0"@]);
        } else if c == ',' {
            push_line(&mut result, "LIL %R2, #0");
            push_line(&mut result, "IOR %R0, %R2");
            push_line(&mut result, "STO %R1, %R0");
            assert(lines_view(result@) =~= st.lines + seq!["LIL %R2, #0"@, "IOR %R0, %R2"@, "STO %R1, %R0"@]);
        } else if c == '[' {
            let loop_frame = loop_frame_exec(loop_index);
            loop_index = loop_index + 1;
            let ghost before_stack = lines_view(loop_stack@);
            loop_stack.push(loop_frame.clone());
            assert(lines_view(loop_stack@) =~= before_stack.push(loop_frame@));
            let jmp = joined(&String::from_str("JMP %R2, $"), loop_frame.as_str());
            push_owned(&mut result, joined(&jmp, "End"));
            push_owned(&mut result, joined(&loop_frame, "Start:"));
            push_line(&mut result, "LIL %R2, #-1");
            push_line(&mut result, "LOA %R1, %R2");
            assert(lines_view(result@) =~= st.lines + seq![
                "JMP %R2, $"@ + loop_frame@ + "End"@,
                loop_frame@ + "Start:"@,
                "LIL %R2, #-1"@,
                "LOA %R1, %R2"@,
            ]);
        } else if c == ']' {
            let ghost before_stack = lines_view(loop_stack@);
            let loop_frame = match loop_stack.pop() {
                Some(f) => f,
                None => String::new(),
            };
            assert(lines_view(loop_stack@) =~= before_stack.drop_last());
            push_owned(&mut result, joined(&loop_frame, "End:"));
            push_line(&mut result, "LOA %R0, %R1");
            push_line(&mut result, "LIL %R2, #-1");
            push_line(&mut result, "STO %R2, %R1");
            let lir = joined(&String::from_str("LIR %R1, $"), loop_frame.as_str());
            push_owned(&mut result, joined(&lir, "Start"));
            push_line(&mut result, "LIL %R2, #1");
            push_line(&mut result, "SKL %R0, %R2");
            push_line(&mut result, "JMP %R1");
            push_line(&mut result, "LIL %R2, #-1");
            push_line(&mut result, "SKL %R2, %R0");
            push_line(&mut result, "JMP %R1");
            push_line(&mut result, "LIL %R2, #-1");
            push_line(&mut result, "LOA %R1, %R2");
            assert(lines_view(result@) =~= st.lines + seq![
                loop_frame@ + "End:"@,
                "LOA %R0, %R1"@,
                "LIL %R2, #-1"@,
                "STO %R2, %R1"@,
                "LIR %R1, $"@ + loop_frame@ + "Start"@,
                "LIL %R2, #1"@,
                "SKL %R0, %R2"@,
                "JMP %R1"@,
                "LIL %R2, #-1"@,
                "SKL %R2, %R0"@,
                "JMP %R1"@,
                "LIL %R2, #-1"@,
                "LOA %R1, %R2"@,
            ]);
        }
        assert(compile_char(st, c) == Some(
            BfState { lines: lines_view(result@), loops: loop_index as nat, stack: lines_view(loop_stack@) },
        ));
        i = i + 1;
    }
    push_line(&mut result, "LIR %R2, #-1");
    push_line(&mut result, "LOA %R0, %R1");
    push_line(&mut result, "IOW %R2, %R0");
    push_line(&mut result, "ProgramEnd:");
    push_line(&mut result, ".0x00");
    result
}

/// The lines of `lines` joined with `\n` between them.
pub open spec fn join_lines(lines: Seq<Seq<char>>) -> Seq<char>
    decreases lines.len(),
{
    if lines.len() == 0 {
        Seq::empty()
    } else if lines.len() == 1 {
        lines[0]
    } else {
        join_lines(lines.drop_last()) + "\n"@ + lines.last()
    }
}

/// The text of a program: its lines joined with `\n`.
pub fn render(lines: &Vec<String>) -> (text: String)
    ensures
        text@ == join_lines(lines_view(lines@)),
{
    let mut text = String::new();
    let mut i: usize = 0;
    while i < lines.len()
        invariant
            i <= lines@.len(),
            text@ == join_lines(lines_view(lines@).take(i as int)),
        decreases lines@.len() - i,
    {
        let ghost prefix = lines_view(lines@).take(i as int);
        if i > 0 {
            text.append("\n");
        }
        text.append(lines[i].as_str());
        assert(lines_view(lines@).take(i + 1).drop_last() =~= prefix);
        proof {
            if i == 0 {
                assert(prefix =~= Seq::<Seq<char>>::empty());
                assert(text@ =~= lines_view(lines@).take(1)[0]);
            }
        }
        i = i + 1;
    }
    assert(lines_view(lines@).take(i as int) =~= lines_view(lines@));
    text
}

} // verus!

verus! {

/// The eight Brainfuck commands.
pub open spec fn is_command(c: char) -> bool {
    c == '+' || c == '-' || c == '<' || c == '>' || c == '.' || c == ',' || c == '[' || c == ']'
}

/// Compiling `b` after a state, if there is one.
pub open spec fn continue_with(st: Option<BfState>, b: Seq<char>) -> Option<BfState> {
    match st {
        None => None,
        Some(st1) => compile_from(b, 0, st1),
    }
}

proof fn lemma_compile_shift(a: Seq<char>, b: Seq<char>, j: int, st: BfState)
    requires
        0 <= j,
    ensures
        compile_from(a + b, a.len() + j, st) == compile_from(b, j, st),
    decreases b.len() - j,
{
    if j < b.len() {
        assert((a + b)[a.len() + j] == b[j]);
        match compile_char(st, b[j]) {
            None => {},
            Some(st1) => {
                lemma_compile_shift(a, b, j + 1, st1);
            },
        }
    }
}

proof fn lemma_compile_concat(a: Seq<char>, b: Seq<char>, i: int, st: BfState)
    requires
        0 <= i <= a.len(),
    ensures
        compile_from(a + b, i, st) == continue_with(compile_from(a, i, st), b),
    decreases a.len() - i,
{
    if i == a.len() {
        lemma_compile_shift(a, b, 0, st);
    } else {
        assert((a + b)[i] == a[i]);
        match compile_char(st, a[i]) {
            None => {},
            Some(st1) => {
                lemma_compile_concat(a, b, i + 1, st1);
            },
        }
    }
}

/// Characters other than the eight commands are ignored: inserting one
/// anywhere in a program does not change what it compiles to.
pub proof fn law_non_commands_ignored(a: Seq<char>, c: char, b: Seq<char>)
    requires
        !is_command(c),
    ensures
        compiled(a + seq![c] + b) == compiled(a + b),
{
    let init = BfState { lines: seq!["LIR %R1, $ProgramEnd"@], loops: 0, stack: Seq::empty() };
    let cb = seq![c] + b;
    assert(a + seq![c] + b =~= a + cb);
    lemma_compile_concat(a, cb, 0, init);
    lemma_compile_concat(a, b, 0, init);
    match compile_from(a, 0, init) {
        None => {},
        Some(st1) => {
            assert(cb[0] == c);
            assert(compile_char(st1, c) == Some(st1));
            lemma_compile_shift(seq![c], b, 0, st1);
            assert(compile_from(cb, 0, st1) == compile_from(cb, 1, st1));
        },
    }
}

} // verus!

verus! {

proof fn lemma_decimal_shape(n: nat)
    ensures
        decimal(n).len() >= 1,
        n < 10 <==> decimal(n).len() == 1,
        decimal(n).last() == digit_char((n % 10) as int),
        n >= 10 ==> decimal(n).drop_last() == decimal(n / 10),
    decreases n,
{
    if n >= 10 {
        lemma_decimal_shape(n / 10);
        assert(decimal(n).drop_last() =~= decimal(n / 10));
    }
}

proof fn lemma_decimal_injective(n: nat, m: nat)
    requires
        decimal(n) == decimal(m),
    ensures
        n == m,
    decreases n,
{
    lemma_decimal_shape(n);
    lemma_decimal_shape(m);
    assert(n % 10 == m % 10);
    if n >= 10 {
        lemma_decimal_injective(n / 10, m / 10);
    }
}

/// Every loop of a program gets labels of its own: different loop numbers
/// give different label prefixes.
pub proof fn law_loop_frames_distinct(k: nat, m: nat)
    requires
        k != m,
    ensures
        loop_frame(k) != loop_frame(m),
{
    let p = "LoopNo_"@;
    if loop_frame(k) == loop_frame(m) {
        assert(loop_frame(k).skip(p.len() as int) =~= decimal(k));
        assert(loop_frame(m).skip(p.len() as int) =~= decimal(m));
        lemma_decimal_injective(k, m);
    }
}

} // verus!
