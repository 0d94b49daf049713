//! Character-level helpers shared by the two assembly lexers: whitespace
//! trimming, searching, integer parsing, UTF-8 encoding and the literal forms.
use vstd::prelude::*;
use vstd::utf8::encode_scalar;
use vstd::string::StringExecFns;

verus! {

/// The characters of `s`, in order.
pub fn chars_of(s: &str) -> (v: Vec<char>)
    ensures
        v@ == s@,
{
    let mut v: Vec<char> = Vec::new();
    for c in it: s.chars()
        invariant
            v@ == it.seq().take(it.index() as int),
    {
        v.push(c);
    }
    v
}

/// Collects characters into a `String` (std's `FromIterator<&char>`); the
/// contract claims that the string holds exactly those characters.
#[verifier::external_body]
pub(crate) fn string_from_chars(cs: &[char]) -> (s: String)
    ensures
        s@ == cs@,
{
    String::from_iter(cs)
}

/// What `str::to_uppercase` returns for a string: the Unicode uppercase mapping.
pub uninterp spec fn uppercase(s: Seq<char>) -> Seq<char>;

/// The ASCII case mapping of one character: `a`..=`z` to `A`..=`Z`.
pub open spec fn ascii_upper_char(c: char) -> char {
    if 'a' <= c <= 'z' {
        ((c as u32) - 32) as char
    } else {
        c
    }
}

/// The upper-case form of a name as `str::to_uppercase` gives it: the ASCII
/// case mapping on ASCII text, the Unicode mapping `uppercase` elsewhere.
pub open spec fn upper_name(s: Seq<char>) -> Seq<char> {
    if vstd::utf8::is_ascii_chars(s) {
        s.map_values(|c: char| ascii_upper_char(c))
    } else {
        uppercase(s)
    }
}

/// Calls `str::to_uppercase`. The contract names the result `uppercase(s@)`
/// and, as std documents, states that on an ASCII string it maps `a`..=`z`
/// to `A`..=`Z` and keeps every other character; what it does to other
/// characters (the Unicode tables) is left unstated.
#[verifier::external_body]
pub(crate) fn to_uppercase(s: &str) -> (r: String)
    ensures
        r@ == uppercase(s@),
        vstd::utf8::is_ascii_chars(s@) ==> r@ == s@.map_values(|c: char| ascii_upper_char(c)),
{
    s.to_uppercase()
}

/// A copy of `v[lo..hi]`.
pub fn subvec<T: Copy>(v: &Vec<T>, lo: usize, hi: usize) -> (r: Vec<T>)
    requires
        lo <= hi <= v@.len(),
    ensures
        r@ == v@.subrange(lo as int, hi as int),
{
    let mut r: Vec<T> = Vec::new();
    let mut i = lo;
    while i < hi
        invariant
            lo <= i <= hi <= v@.len(),
            r@ == v@.subrange(lo as int, i as int),
        decreases hi - i,
    {
        r.push(v[i]);
        i = i + 1;
        assert(r@ =~= v@.subrange(lo as int, i as int));
    }
    r
}

/// Whether `v` equals the characters of `lit`.
pub fn chars_equal(v: &Vec<char>, lit: &str) -> (r: bool)
    ensures
        r == (v@ == lit@),
{
    let w = chars_of(lit);
    if v.len() != w.len() {
        return false;
    }
    let mut i: usize = 0;
    while i < v.len()
        invariant
            i <= v@.len() == w@.len(),
            w@ == lit@,
            forall|j: int| 0 <= j < i ==> v@[j] == w@[j],
        decreases v@.len() - i,
    {
        if v[i] != w[i] {
            return false;
        }
        i = i + 1;
    }
    assert(v@ =~= w@);
    true
}

// ---------------------------------------------------------------- whitespace

/// `char::is_whitespace`: the Unicode White_Space property.
pub open spec fn is_whitespace(c: char) -> bool {
    ||| c == ' '
    ||| '\t' <= c <= '\r'
    ||| c == '\u{85}'
    ||| c == '\u{a0}'
    ||| c == '\u{1680}'
    ||| '\u{2000}' <= c <= '\u{200a}'
    ||| c == '\u{2028}'
    ||| c == '\u{2029}'
    ||| c == '\u{202f}'
    ||| c == '\u{205f}'
    ||| c == '\u{3000}'
}

/// Whether `c` is whitespace.
pub fn whitespace(c: char) -> (r: bool)
    ensures
        r == is_whitespace(c),
{
    let x = c as u32;
    x == 0x20 || (0x09 <= x && x <= 0x0d) || x == 0x85 || x == 0xa0 || x == 0x1680 || (0x2000
        <= x && x <= 0x200a) || x == 0x2028 || x == 0x2029 || x == 0x202f || x == 0x205f || x
        == 0x3000
}

/// The index of the first character at or after `i` that is not whitespace.
pub open spec fn skip_whitespace(s: Seq<char>, i: int) -> int
    decreases s.len() - i,
{
    if 0 <= i < s.len() && is_whitespace(s[i]) {
        skip_whitespace(s, i + 1)
    } else {
        i
    }
}

/// The length of `s.take(j)` without its trailing whitespace.
pub open spec fn drop_trailing_whitespace(s: Seq<char>, j: int) -> int
    decreases j,
{
    if 0 < j <= s.len() && is_whitespace(s[j - 1]) {
        drop_trailing_whitespace(s, j - 1)
    } else {
        j
    }
}

/// `str::trim_start`.
pub open spec fn trim_start(s: Seq<char>) -> Seq<char> {
    s.subrange(skip_whitespace(s, 0), s.len() as int)
}

/// `str::trim_end`.
pub open spec fn trim_end(s: Seq<char>) -> Seq<char> {
    s.take(drop_trailing_whitespace(s, s.len() as int))
}

/// `str::trim`.
pub open spec fn trim(s: Seq<char>) -> Seq<char> {
    trim_end(trim_start(s))
}

/// `v` without its leading whitespace.
pub fn trim_start_chars(v: &Vec<char>) -> (r: Vec<char>)
    ensures
        r@ == trim_start(v@),
{
    let mut i: usize = 0;
    while i < v.len() && whitespace(v[i])
        invariant
            i <= v@.len(),
            skip_whitespace(v@, 0) == skip_whitespace(v@, i as int),
        decreases v@.len() - i,
    {
        i = i + 1;
    }
    subvec(v, i, v.len())
}

/// `v` without its trailing whitespace.
pub fn trim_end_chars(v: &Vec<char>) -> (r: Vec<char>)
    ensures
        r@ == trim_end(v@),
{
    let mut j: usize = v.len();
    while j > 0 && whitespace(v[j - 1])
        invariant
            j <= v@.len(),
            drop_trailing_whitespace(v@, v@.len() as int) == drop_trailing_whitespace(v@, j as int),
        decreases j,
    {
        j = j - 1;
    }
    subvec(v, 0, j)
}

/// `v` without leading or trailing whitespace.
pub fn trim_chars(v: &Vec<char>) -> (r: Vec<char>)
    ensures
        r@ == trim(v@),
{
    let t = trim_start_chars(v);
    trim_end_chars(&t)
}

// ---------------------------------------------------------------- searching

/// The first index at or after `i` that holds `c`.
pub open spec fn find_char(s: Seq<char>, c: char, i: int) -> Option<int>
    decreases s.len() - i,
{
    if i < 0 || i >= s.len() {
        None
    } else if s[i] == c {
        Some(i)
    } else {
        find_char(s, c, i + 1)
    }
}

/// The first index at or after `i` where `--` starts.
pub open spec fn find_dashes(s: Seq<char>, i: int) -> Option<int>
    decreases s.len() - i,
{
    if i < 0 || i + 1 >= s.len() {
        None
    } else if s[i] == '-' && s[i + 1] == '-' {
        Some(i)
    } else {
        find_dashes(s, i + 1)
    }
}

pub proof fn lemma_find_char_range(s: Seq<char>, c: char, i: int)
    ensures
        find_char(s, c, i) matches Some(k) ==> i <= k < s.len() && s[k] == c,
    decreases s.len() - i,
{
    if 0 <= i < s.len() && s[i] != c {
        lemma_find_char_range(s, c, i + 1);
    }
}

/// The first index of `c` in `v`.
pub fn find_char_exec(v: &Vec<char>, c: char) -> (r: Option<usize>)
    ensures
        match r {
            Some(k) => find_char(v@, c, 0) == Some(k as int) && k < v@.len(),
            None => find_char(v@, c, 0) is None,
        },
{
    let mut i: usize = 0;
    while i < v.len()
        invariant
            i <= v@.len(),
            find_char(v@, c, 0) == find_char(v@, c, i as int),
        decreases v@.len() - i,
    {
        if v[i] == c {
            return Some(i);
        }
        i = i + 1;
    }
    None
}

/// The first index where `--` starts in `v`.
pub fn find_dashes_exec(v: &Vec<char>) -> (r: Option<usize>)
    ensures
        match r {
            Some(k) => find_dashes(v@, 0) == Some(k as int) && k + 1 < v@.len(),
            None => find_dashes(v@, 0) is None,
        },
{
    let mut i: usize = 0;
    while i < v.len() && i + 1 < v.len()
        invariant
            i <= v@.len(),
            find_dashes(v@, 0) == find_dashes(v@, i as int),
        decreases v@.len() - i,
    {
        if v[i] == '-' && v[i + 1] == '-' {
            return Some(i);
        }
        i = i + 1;
    }
    None
}

// ---------------------------------------------------------------- integers

/// Why `from_str_radix` refused a string (std's `IntErrorKind`).
#[derive(Debug, Clone, Copy, PartialEq, Eq)]
pub enum IntErrorKind {
    Empty,
    InvalidDigit,
    PosOverflow,
    NegOverflow,
}

/// `char::to_digit(radix)` for `radix` in `2..=36`.
pub open spec fn digit_value(c: char, radix: u32) -> Option<int> {
    let x = c as u32;
    if 48 <= x <= 57 && x - 48 < radix {
        Some(x - 48)
    } else if radix > 10 && 97 <= x <= 122 && x - 87 < radix {
        Some(x - 87)
    } else if radix > 10 && 65 <= x <= 90 && x - 55 < radix {
        Some(x - 55)
    } else {
        None
    }
}

/// The value of `c` as a digit in base `radix`.
pub fn digit(c: char, radix: u32) -> (r: Option<u32>)
    requires
        2 <= radix <= 36,
    ensures
        match r {
            Some(d) => digit_value(c, radix) == Some(d as int) && d < radix,
            None => digit_value(c, radix) is None,
        },
{
    let x = c as u32;
    if 48 <= x && x <= 57 && x - 48 < radix {
        Some(x - 48)
    } else if radix > 10 && 97 <= x && x <= 122 && x - 87 < radix {
        Some(x - 87)
    } else if radix > 10 && 65 <= x && x <= 90 && x - 55 < radix {
        Some(x - 55)
    } else {
        None
    }
}

/// The digits `s[i..]` folded left to right into `acc`, subtracting when
/// `negative`, failing at the first bad digit or the first step out of `min..=max`.
pub open spec fn accumulate(
    s: Seq<char>,
    i: int,
    acc: int,
    radix: u32,
    negative: bool,
    min: int,
    max: int,
) -> Result<int, IntErrorKind>
    decreases s.len() - i,
{
    if i < 0 || i >= s.len() {
        Ok(acc)
    } else {
        match digit_value(s[i], radix) {
            None => Err(IntErrorKind::InvalidDigit),
            Some(d) => {
                let next = if negative {
                    acc * radix - d
                } else {
                    acc * radix + d
                };
                if !negative && next > max {
                    Err(IntErrorKind::PosOverflow)
                } else if negative && next < min {
                    Err(IntErrorKind::NegOverflow)
                } else {
                    accumulate(s, i + 1, next, radix, negative, min, max)
                }
            },
        }
    }
}

/// `from_str_radix` for an integer type with range `min..=max`; `signed`
/// types accept a leading `-`, every type a leading `+`.
pub open spec fn parse_int(s: Seq<char>, radix: u32, signed: bool, min: int, max: int) -> Result<
    int,
    IntErrorKind,
> {
    if s.len() == 0 {
        Err(IntErrorKind::Empty)
    } else if s.len() == 1 && (s[0] == '+' || s[0] == '-') {
        Err(IntErrorKind::InvalidDigit)
    } else if s[0] == '+' {
        accumulate(s, 1, 0, radix, false, min, max)
    } else if s[0] == '-' && signed {
        accumulate(s, 1, 0, radix, true, min, max)
    } else {
        accumulate(s, 0, 0, radix, false, min, max)
    }
}

proof fn lemma_step_bounds(acc: int, radix: int, d: int)
    requires
        -0x8000_0000 <= acc <= 0x7fff_ffff,
        2 <= radix <= 36,
        0 <= d < radix,
    ensures
        -0x100_0000_0000 <= acc * radix - d,
        acc * radix + d <= 0x100_0000_0000,
        acc <= 0 ==> acc * radix - d <= 0,
        acc >= 0 ==> acc * radix + d >= 0,
{
    assert(acc <= 0 ==> acc * radix <= 0) by (nonlinear_arith)
        requires 2 <= radix;
    assert(acc >= 0 ==> acc * radix >= 0) by (nonlinear_arith)
        requires 2 <= radix;
    assert(-0x8000_0000 * radix <= acc * radix <= 0x7fff_ffff * radix) by (nonlinear_arith)
        requires
            -0x8000_0000 <= acc <= 0x7fff_ffff,
            2 <= radix,
    ;
}

/// Parses `s` as an integer in base `radix` within `min..=max`, as
/// `from_str_radix` does for an integer type with that range.
pub fn parse_int_exec(s: &Vec<char>, radix: u32, signed: bool, min: i64, max: i64) -> (r: Result<
    i64,
    IntErrorKind,
>)
    requires
        2 <= radix <= 36,
        -0x8000_0000 <= min <= 0 <= max <= 0x7fff_ffff,
    ensures
        match r {
            Ok(v) => parse_int(s@, radix, signed, min as int, max as int) == Ok::<int, IntErrorKind>(v as int)
                && min <= v <= max,
            Err(e) => parse_int(s@, radix, signed, min as int, max as int) == Err::<int, IntErrorKind>(e),
        },
{
    let n = s.len();
    if n == 0 {
        return Err(IntErrorKind::Empty);
    }
    if n == 1 && (s[0] == '+' || s[0] == '-') {
        return Err(IntErrorKind::InvalidDigit);
    }
    let mut i: usize = 0;
    let mut negative = false;
    if s[0] == '+' {
        i = 1;
    } else if s[0] == '-' && signed {
        i = 1;
        negative = true;
    }
    let ghost start = i;
    let mut acc: i64 = 0;
    while i < n
        invariant
            n == s@.len(),
            start <= i <= n,
            2 <= radix <= 36,
            -0x8000_0000 <= min <= 0 <= max <= 0x7fff_ffff,
            min <= acc <= max,
            negative ==> acc <= 0,
            !negative ==> acc >= 0,
            parse_int(s@, radix, signed, min as int, max as int) == accumulate(
                s@,
                i as int,
                acc as int,
                radix,
                negative,
                min as int,
                max as int,
            ),
        decreases n - i,
    {
        match digit(s[i], radix) {
            None => {
                return Err(IntErrorKind::InvalidDigit);
            },
            Some(d) => {
                proof {
                    lemma_step_bounds(acc as int, radix as int, d as int);
                }
                let r = radix as i64;
                let dd = d as i64;
                if negative {
                    let next = acc * r - dd;
                    if next < min {
                        return Err(IntErrorKind::NegOverflow);
                    }
                    acc = next;
                } else {
                    let next = acc * r + dd;
                    if next > max {
                        return Err(IntErrorKind::PosOverflow);
                    }
                    acc = next;
                }
            },
        }
        i = i + 1;
    }
    Ok(acc)
}

// ---------------------------------------------------------------- UTF-8

/// Appends the UTF-8 encoding of `c` to `out` (what `char::encode_utf8` writes).
pub fn push_utf8(out: &mut Vec<u8>, c: char)
    ensures
        final(out)@ == old(out)@ + encode_scalar(c as u32),
{
    let x = c as u32;
    proof {
        vstd::utf8::char_is_scalar(c);
    }
    if x <= 0x7f {
        out.push((x & 0x7f) as u8);
    } else if x <= 0x7ff {
        out.push(0xc0 | ((x >> 6u32) & 0x1f) as u8);
        out.push(0x80 | (x & 0x3f) as u8);
    } else if x <= 0xffff {
        out.push(0xe0 | ((x >> 12u32) & 0x0f) as u8);
        out.push(0x80 | ((x >> 6u32) & 0x3f) as u8);
        out.push(0x80 | (x & 0x3f) as u8);
    } else {
        out.push(0xf0 | ((x >> 18u32) & 0x7) as u8);
        out.push(0x80 | ((x >> 12u32) & 0x3f) as u8);
        out.push(0x80 | ((x >> 6u32) & 0x3f) as u8);
        out.push(0x80 | (x & 0x3f) as u8);
    }
    assert(final(out)@ =~= old(out)@ + encode_scalar(c as u32));
}

// ---------------------------------------------------------------- literals

/// Inputs on which the assembly lexers stop the program (they panic there).
#[derive(Debug, Clone, Copy, PartialEq, Eq)]
pub enum LexPanic {
    /// A backslash in a string literal followed by a character with no escape meaning.
    UnhandledEscape,
    /// A string literal that ends in the middle of an escape.
    UnterminatedString,
    /// A hexadecimal byte literal with a character that is not a hex digit.
    InvalidHex,
    /// A hexadecimal byte literal with an odd number of digits.
    UnterminatedHex,
}

/// The character that `\c` stands for in a string literal.
pub open spec fn escaped(c: char) -> Option<char> {
    if c == 'n' {
        Some('\n')
    } else if c == 'r' {
        Some('\r')
    } else if c == 't' {
        Some('\t')
    } else if c == '\\' {
        Some('\\')
    } else if c == '0' {
        Some('\0')
    } else if c == '\'' {
        Some('\'')
    } else if c == '"' {
        Some('"')
    } else {
        None
    }
}

/// The bytes of a string literal body `s[i..]` (the opening quote already
/// consumed), appended to `acc`: it ends at an unescaped `"` or at the end
/// of the line; each character is stored as UTF-8.
pub open spec fn string_bytes(s: Seq<char>, i: int, escape: bool, acc: Seq<u8>) -> Result<
    Seq<u8>,
    LexPanic,
>
    decreases s.len() - i,
{
    if i < 0 || i >= s.len() {
        if escape {
            Err(LexPanic::UnterminatedString)
        } else {
            Ok(acc)
        }
    } else if escape {
        match escaped(s[i]) {
            Some(e) => string_bytes(s, i + 1, false, acc + encode_scalar(e as u32)),
            None => Err(LexPanic::UnhandledEscape),
        }
    } else if s[i] == '\\' {
        string_bytes(s, i + 1, true, acc)
    } else if s[i] == '"' {
        Ok(acc)
    } else {
        string_bytes(s, i + 1, false, acc + encode_scalar(s[i] as u32))
    }
}

/// The bytes of a string literal: `s` starts with the opening quote.
pub open spec fn string_literal(s: Seq<char>) -> Result<Seq<u8>, LexPanic> {
    string_bytes(s, 1, false, Seq::empty())
}

fn escape_exec(c: char) -> (r: Option<char>)
    ensures
        r == escaped(c),
{
    if c == 'n' {
        Some('\n')
    } else if c == 'r' {
        Some('\r')
    } else if c == 't' {
        Some('\t')
    } else if c == '\\' {
        Some('\\')
    } else if c == '0' {
        Some('\0')
    } else if c == '\'' {
        Some('\'')
    } else if c == '"' {
        Some('"')
    } else {
        None
    }
}

/// Reads a string literal whose first character is the opening quote: its
/// bytes, or the kind of input on which the lexers stop the program.
fn scan_string(s: &Vec<char>) -> (r: Result<Vec<u8>, LexPanic>)
    requires
        s@.len() >= 1,
    ensures
        match r {
            Ok(b) => string_literal(s@) == Ok::<Seq<u8>, LexPanic>(b@),
            Err(p) => string_literal(s@) == Err::<Seq<u8>, LexPanic>(p),
        },
{
    let mut value: Vec<u8> = Vec::new();
    let mut escape = false;
    let mut i: usize = 1;
    while i < s.len()
        invariant
            1 <= i <= s@.len(),
            string_literal(s@) == string_bytes(s@, i as int, escape, value@),
        decreases s@.len() - i,
    {
        let c = s[i];
        if escape {
            match escape_exec(c) {
                Some(e) => push_utf8(&mut value, e),
                None => {
                    return Err(LexPanic::UnhandledEscape);
                },
            }
            escape = false;
        } else {
            if c == '\\' {
                escape = true;
                i = i + 1;
                continue;
            } else if c == '"' {
                return Ok(value);
            }
            push_utf8(&mut value, c);
        }
        i = i + 1;
    }
    if escape {
        return Err(LexPanic::UnterminatedString);
    }
    Ok(value)
}

/// The kind of input on which reading the string literal `s` stops the
/// program, if any: an escape that is not known, or a literal that ends
/// inside an escape.
pub fn string_literal_panic(s: &Vec<char>) -> (r: Option<LexPanic>)
    requires
        s@.len() >= 1,
    ensures
        match string_literal(s@) {
            Ok(_) => r is None,
            Err(p) => r == Some(p),
        },
{
    match scan_string(s) {
        Ok(_) => None,
        Err(p) => Some(p),
    }
}

/// Parses a string literal whose first character is the opening quote, on
/// which the literal is well formed (`string_literal_panic` gives `None`).
pub fn parse_string(s: &Vec<char>) -> (b: Vec<u8>)
    requires
        s@.len() >= 1,
        string_literal(s@) is Ok,
    ensures
        string_literal(s@) == Ok::<Seq<u8>, LexPanic>(b@),
{
    match scan_string(s) {
        Ok(b) => b,
        Err(_) => Vec::new(),
    }
}

} // verus!

verus! {

/// An assembly line that the lexers refuse.
#[derive(Debug, Clone, PartialEq, Eq)]
pub enum LexError {
    /// A number in an argument that `from_str_radix` refuses.
    InvalidNumber(IntErrorKind),
    /// An argument starting with `%` that does not continue with `R`; holds the argument as written.
    ExpectedRegister(String),
    /// An argument that starts with none of `#`, `%`, `$`; holds the argument as written.
    ExpectedArgument(String),
}

/// A `LexError` with its strings as character sequences.
pub enum LexErrorView {
    InvalidNumber(IntErrorKind),
    ExpectedRegister(Seq<char>),
    ExpectedArgument(Seq<char>),
}

impl View for LexError {
    type V = LexErrorView;

    open spec fn view(&self) -> LexErrorView {
        match self {
            LexError::InvalidNumber(k) => LexErrorView::InvalidNumber(*k),
            LexError::ExpectedRegister(s) => LexErrorView::ExpectedRegister(s@),
            LexError::ExpectedArgument(s) => LexErrorView::ExpectedArgument(s@),
        }
    }
}

/// What std's `ParseIntError` says for each kind of refused number.
pub open spec fn int_error_text(k: IntErrorKind) -> Seq<char> {
    match k {
        IntErrorKind::Empty => "cannot parse integer from empty string"@,
        IntErrorKind::InvalidDigit => "invalid digit found in string"@,
        IntErrorKind::PosOverflow => "number too large to fit in target type"@,
        IntErrorKind::NegOverflow => "number too small to fit in target type"@,
    }
}

/// The message of a lexer error: the number's error as std words it, or
/// what was expected and the argument as written, in quotes.
pub open spec fn lex_error_message(e: LexErrorView) -> Seq<char> {
    match e {
        LexErrorView::InvalidNumber(k) => int_error_text(k),
        LexErrorView::ExpectedRegister(a) => "Expected instruction register argument, got '"@ + a + "'"@,
        LexErrorView::ExpectedArgument(a) => "Expected instruction argument, got '"@ + a + "'"@,
    }
}

/// `a` followed by `b`.
pub fn concat(a: &str, b: &str) -> (s: String)
    ensures
        s@ == a@ + b@,
{
    let mut s = String::from_str(a);
    s.append(b);
    s
}

impl LexError {
    /// The error's message, as the lexers word it.
    pub fn message(&self) -> (m: String)
        ensures
            m@ == lex_error_message(self@),
    {
        match self {
            LexError::InvalidNumber(k) => match k {
                IntErrorKind::Empty => String::from_str("cannot parse integer from empty string"),
                IntErrorKind::InvalidDigit => String::from_str("invalid digit found in string"),
                IntErrorKind::PosOverflow => String::from_str("number too large to fit in target type"),
                IntErrorKind::NegOverflow => String::from_str("number too small to fit in target type"),
            },
            LexError::ExpectedRegister(a) => {
                let head = concat("Expected instruction register argument, got '", a.as_str());
                concat(head.as_str(), "'")
            },
            LexError::ExpectedArgument(a) => {
                let head = concat("Expected instruction argument, got '", a.as_str());
                concat(head.as_str(), "'")
            },
        }
    }
}

/// `s` starts with `0x` or `0X`.
pub open spec fn has_hex_prefix(s: Seq<char>) -> bool {
    s.len() >= 2 && s[0] == '0' && (s[1] == 'x' || s[1] == 'X')
}

/// Whether `v` starts with `0x` or `0X`.
pub fn hex_prefix(v: &Vec<char>) -> (r: bool)
    ensures
        r == has_hex_prefix(v@),
{
    v.len() >= 2 && v[0] == '0' && (v[1] == 'x' || v[1] == 'X')
}

/// The part of a line that holds code: leading whitespace removed and, when
/// the line has a `--` comment, the text before it with whitespace trimmed
/// from both ends.
pub open spec fn code_part(line: Seq<char>) -> Seq<char> {
    let l = trim_start(line);
    match find_dashes(l, 0) {
        Some(k) => trim(l.take(k)),
        None => l,
    }
}

/// The code part of a line.
pub fn code_part_exec(line: &Vec<char>) -> (r: Vec<char>)
    ensures
        r@ == code_part(line@),
{
    let l = trim_start_chars(line);
    match find_dashes_exec(&l) {
        Some(k) => {
            let before = subvec(&l, 0, k);
            assert(before@ == l@.take(k as int));
            trim_chars(&before)
        },
        None => l,
    }
}

/// Whether `v` starts with `c`.
pub fn starts_with(v: &Vec<char>, c: char) -> (r: bool)
    ensures
        r == (v@.len() > 0 && v@[0] == c),
{
    v.len() > 0 && v[0] == c
}

} // verus!

verus! {

// ---------------------------------------------------------------- comments

proof fn lemma_skip_range(s: Seq<char>, i: int)
    requires
        0 <= i <= s.len(),
    ensures
        i <= skip_whitespace(s, i) <= s.len(),
        forall|j: int| i <= j < skip_whitespace(s, i) ==> is_whitespace(#[trigger] s[j]),
        skip_whitespace(s, i) < s.len() ==> !is_whitespace(s[skip_whitespace(s, i)]),
    decreases s.len() - i,
{
    if i < s.len() && is_whitespace(s[i]) {
        lemma_skip_range(s, i + 1);
    }
}

proof fn lemma_drop_range(s: Seq<char>, j: int)
    requires
        0 <= j <= s.len(),
    ensures
        0 <= drop_trailing_whitespace(s, j) <= j,
    decreases j,
{
    if 0 < j && is_whitespace(s[j - 1]) {
        lemma_drop_range(s, j - 1);
    }
}

proof fn lemma_find_range(s: Seq<char>, i: int)
    ensures
        find_dashes(s, i) matches Some(k) ==> i <= k && k + 1 < s.len(),
    decreases s.len() - i,
{
    if 0 <= i && i + 1 < s.len() {
        lemma_find_range(s, i + 1);
    }
}

proof fn lemma_skip_shift(a: Seq<char>, b: Seq<char>, j: int)
    requires
        0 <= j <= b.len(),
    ensures
        skip_whitespace(a + b, a.len() + j) == a.len() + skip_whitespace(b, j),
    decreases b.len() - j,
{
    if j < b.len() {
        assert((a + b)[a.len() + j] == b[j]);
        if is_whitespace(b[j]) {
            lemma_skip_shift(a, b, j + 1);
        }
    }
}

proof fn lemma_skip_concat(a: Seq<char>, b: Seq<char>, i: int)
    requires
        0 <= i <= a.len(),
    ensures
        skip_whitespace(a + b, i) == if skip_whitespace(a, i) < a.len() {
            skip_whitespace(a, i)
        } else {
            a.len() + skip_whitespace(b, 0)
        },
    decreases a.len() - i,
{
    if i == a.len() {
        lemma_skip_shift(a, b, 0);
    } else {
        assert((a + b)[i] == a[i]);
        if is_whitespace(a[i]) {
            lemma_skip_concat(a, b, i + 1);
        }
    }
}

proof fn lemma_find_prefix(a: Seq<char>, b: Seq<char>, i: int)
    requires
        0 <= i,
    ensures
        find_dashes(a, i) matches Some(k) ==> find_dashes(a + b, i) == Some(k),
    decreases a.len() - i,
{
    if i + 1 < a.len() {
        assert((a + b)[i] == a[i] && (a + b)[i + 1] == a[i + 1]);
        lemma_find_prefix(a, b, i + 1);
    }
}

/// The search for `--` in `a + b` from inside `b` finds what the search in `b` finds, moved by `a.len()`.
proof fn lemma_find_shift(a: Seq<char>, b: Seq<char>, j: int)
    requires
        0 <= j,
    ensures
        find_dashes(a + b, a.len() + j) == match find_dashes(b, j) {
            Some(k) => Some(a.len() + k),
            None => None::<int>,
        },
    decreases b.len() - j,
{
    if j + 1 < b.len() {
        assert((a + b)[a.len() + j] == b[j] && (a + b)[a.len() + j + 1] == b[j + 1]);
        lemma_find_shift(a, b, j + 1);
    }
}

proof fn lemma_find_concat_none(a: Seq<char>, b: Seq<char>, i: int)
    requires
        0 <= i <= a.len(),
        find_dashes(a, i) is None,
        a.len() == 0 || a.last() != '-' || i == a.len(),
    ensures
        find_dashes(a + b, i) == match find_dashes(b, 0) {
            Some(k) => Some(a.len() + k),
            None => None::<int>,
        },
    decreases a.len() - i,
{
    if i == a.len() {
        lemma_find_shift(a, b, 0);
    } else {
        assert((a + b)[i] == a[i]);
        if i + 1 < a.len() {
            assert((a + b)[i + 1] == a[i + 1]);
        } else {
            assert(a[i] == a.last());
        }
        lemma_find_concat_none(a, b, i + 1);
    }
}

proof fn lemma_find_after_whitespace(s: Seq<char>, i: int, p: int)
    requires
        0 <= i <= p <= s.len(),
        forall|j: int| i <= j < p ==> is_whitespace(#[trigger] s[j]),
    ensures
        find_dashes(s, i) == find_dashes(s, p),
    decreases p - i,
{
    if i < p {
        assert(is_whitespace(s[i]));
        lemma_find_after_whitespace(s, i + 1, p);
    }
}

/// The lines after which a `--` comment changes nothing: those with a
/// comment of their own, and those that neither end with `-` (the comment
/// would start one character early) nor end with whitespace after some
/// code (only a line with a comment has its trailing whitespace trimmed).
pub open spec fn comment_can_follow(code: Seq<char>) -> bool {
    ||| find_dashes(code, 0) is Some
    ||| (code.len() == 0 || code.last() != '-') && (trim_end(code) == code || trim_start(code).len()
        == 0)
}

/// A `--` comment at the end of a line is ignored: the code part of
/// `code--comment` is that of `code`, wherever `comment_can_follow(code)`.
pub proof fn law_comment_is_ignored(code: Seq<char>, comment: Seq<char>)
    requires
        comment_can_follow(code),
    ensures
        code_part(code + seq!['-', '-'] + comment) == code_part(code),
{
    let rest = seq!['-', '-'] + comment;
    let line = code + rest;
    assert(code + seq!['-', '-'] + comment =~= line);
    lemma_skip_range(code, 0);
    lemma_skip_concat(code, rest, 0);
    let p = skip_whitespace(code, 0);
    let lc = trim_start(code);
    assert(lc == code.subrange(p, code.len() as int));
    lemma_find_after_whitespace(code, 0, p);
    assert(code =~= code.take(p) + lc);
    lemma_find_shift(code.take(p), lc, 0);
    // the search in `lc` is the search in `code` moved by `p`
    assert(find_dashes(code, p) == match find_dashes(lc, 0) {
        Some(k) => Some(p + k),
        None => None::<int>,
    });
    if p < code.len() {
        // `code` has something that is not whitespace: the line's code starts where it does
        assert(skip_whitespace(line, 0) == p);
        let l = trim_start(line);
        assert(l =~= lc + rest);
        match find_dashes(lc, 0) {
            Some(k) => {
                lemma_find_prefix(lc, rest, 0);
                lemma_find_range(lc, 0);
                assert(l.take(k) =~= lc.take(k));
            },
            None => {
                assert(lc.len() > 0);
                assert(lc.last() == code.last());
                lemma_find_concat_none(lc, rest, 0);
                assert(find_dashes(rest, 0) == Some(0int));
                assert(l.take(lc.len() as int) =~= lc);
                // `lc` starts and ends with something that is not whitespace
                assert(!is_whitespace(lc[0]));
                assert(skip_whitespace(lc, 0) == 0);
                assert(trim_start(lc) =~= lc);
                lemma_drop_range(code, code.len() as int);
                assert(trim_end(code) == code);
                assert(code.take(drop_trailing_whitespace(code, code.len() as int)).len() == code.len());
                assert(drop_trailing_whitespace(code, code.len() as int) == code.len());
                if is_whitespace(code[code.len() - 1]) {
                    lemma_drop_range(code, code.len() - 1);
                }
                assert(!is_whitespace(code.last()));
                assert(drop_trailing_whitespace(lc, lc.len() as int) == lc.len());
                assert(trim_end(lc) =~= lc);
            },
        }
    } else {
        // `code` is all whitespace: only the comment remains
        lemma_skip_range(rest, 0);
        assert(rest[0] == '-');
        assert(skip_whitespace(rest, 0) == 0);
        assert(skip_whitespace(line, 0) == code.len());
        let l = trim_start(line);
        assert(l =~= rest);
        assert(find_dashes(rest, 0) == Some(0int));
        assert(lc =~= Seq::<char>::empty());
        assert(find_dashes(lc, 0) is None);
        let e = l.take(0);
        assert(e =~= Seq::<char>::empty());
        assert(skip_whitespace(e, 0) == 0);
        assert(drop_trailing_whitespace(e.subrange(0, 0), 0) == 0);
        assert(trim(e) =~= Seq::<char>::empty());
    }
}

/// A hexadecimal digit: `0`–`9`, `a`–`f` or `A`–`F`.
pub open spec fn is_hex_digit(c: char) -> bool {
    ('0' <= c <= '9') || ('a' <= c <= 'f') || ('A' <= c <= 'F')
}

/// The value of a hexadecimal digit.
pub open spec fn hex_digit_value(c: char) -> int {
    if '0' <= c <= '9' {
        c as int - 48
    } else if 'a' <= c <= 'f' {
        c as int - 87
    } else {
        c as int - 55
    }
}

/// The number that the hexadecimal digits `h` write, most significant first.
pub open spec fn hex_number(h: Seq<char>) -> int
    decreases h.len(),
{
    if h.len() == 0 {
        0
    } else {
        hex_number(h.drop_last()) * 16 + hex_digit_value(h.last())
    }
}

/// Sixteen to the power `n`.
pub open spec fn pow16(n: nat) -> int
    decreases n,
{
    if n == 0 {
        1
    } else {
        16 * pow16((n - 1) as nat)
    }
}

proof fn lemma_hex_number_bound(h: Seq<char>)
    requires
        forall|j: int| 0 <= j < h.len() ==> is_hex_digit(#[trigger] h[j]),
    ensures
        0 <= hex_number(h) < pow16(h.len()),
    decreases h.len(),
{
    if h.len() > 0 {
        let c = h.last();
        assert(is_hex_digit(h[h.len() - 1]));
        assert(0 <= hex_digit_value(c) < 16);
        assert forall|j: int| 0 <= j < h.drop_last().len() implies is_hex_digit(#[trigger] h.drop_last()[j]) by {
            assert(h.drop_last()[j] == h[j]);
        }
        lemma_hex_number_bound(h.drop_last());
    }
}

proof fn lemma_hex_accumulate(h: Seq<char>, i: int, max: int)
    requires
        0 <= i <= h.len(),
        pow16(h.len()) <= max + 1,
        forall|j: int| 0 <= j < h.len() ==> is_hex_digit(#[trigger] h[j]),
    ensures
        accumulate(h, i, hex_number(h.take(i)), 16, false, 0, max) == Ok::<int, IntErrorKind>(hex_number(h)),
    decreases h.len() - i,
{
    if i == h.len() {
        assert(h.take(i) =~= h);
    } else {
        let c = h[i];
        assert(is_hex_digit(c));
        assert(digit_value(c, 16) == Some(hex_digit_value(c)));
        let p = h.take(i + 1);
        assert(p.drop_last() =~= h.take(i));
        assert(p.last() == c);
        assert(hex_number(p) == hex_number(h.take(i)) * 16 + hex_digit_value(c));
        assert forall|j: int| 0 <= j < p.len() implies is_hex_digit(#[trigger] p[j]) by {
            assert(p[j] == h[j]);
        }
        lemma_hex_number_bound(p);
        lemma_pow16_monotone(p.len(), h.len());
        lemma_hex_accumulate(h, i + 1, max);
    }
}

proof fn lemma_pow16_monotone(m: nat, n: nat)
    requires
        m <= n,
    ensures
        pow16(m) <= pow16(n),
    decreases n,
{
    if m < n {
        lemma_pow16_monotone(m, (n - 1) as nat);
        lemma_pow16_positive((n - 1) as nat);
    }
}

proof fn lemma_pow16_positive(n: nat)
    ensures
        pow16(n) >= 1,
    decreases n,
{
    if n > 0 {
        lemma_pow16_positive((n - 1) as nat);
    }
}

/// One or more hexadecimal digits, whose number stays within `max`, parse
/// (as `from_str_radix` in base 16 does) to the number they write.
pub proof fn lemma_hex_parses(h: Seq<char>, max: int)
    requires
        h.len() >= 1,
        pow16(h.len()) <= max + 1,
        forall|j: int| 0 <= j < h.len() ==> is_hex_digit(#[trigger] h[j]),
    ensures
        0 <= hex_number(h) <= max,
        parse_int(h, 16, false, 0, max) == Ok::<int, IntErrorKind>(hex_number(h)),
{
    lemma_hex_number_bound(h);
    lemma_hex_accumulate(h, 0, max);
    assert(h.take(0) =~= Seq::<char>::empty());
    assert(is_hex_digit(h[0]));
    assert(h[0] != '+' && h[0] != '-');
}

/// A decimal digit.
pub open spec fn is_decimal_digit(c: char) -> bool {
    '0' <= c <= '9'
}

/// The number that the decimal digits `d` write, most significant first.
pub open spec fn decimal_number(d: Seq<char>) -> int
    decreases d.len(),
{
    if d.len() == 0 {
        0
    } else {
        decimal_number(d.drop_last()) * 10 + (d.last() as int - 48)
    }
}

/// Ten to the power `n`.
pub open spec fn pow10(n: nat) -> int
    decreases n,
{
    if n == 0 {
        1
    } else {
        10 * pow10((n - 1) as nat)
    }
}

proof fn lemma_pow10_monotone(m: nat, n: nat)
    requires
        m <= n,
    ensures
        1 <= pow10(m) <= pow10(n),
    decreases n,
{
    if m < n {
        lemma_pow10_monotone(m, (n - 1) as nat);
    } else if n > 0 {
        lemma_pow10_monotone((n - 1) as nat, (n - 1) as nat);
    }
}

proof fn lemma_decimal_number_bound(d: Seq<char>)
    requires
        forall|j: int| 0 <= j < d.len() ==> is_decimal_digit(#[trigger] d[j]),
    ensures
        0 <= decimal_number(d) < pow10(d.len()),
    decreases d.len(),
{
    if d.len() > 0 {
        assert(is_decimal_digit(d[d.len() - 1]));
        assert forall|j: int| 0 <= j < d.drop_last().len() implies is_decimal_digit(#[trigger] d.drop_last()[j]) by {
            assert(d.drop_last()[j] == d[j]);
        }
        lemma_decimal_number_bound(d.drop_last());
    }
}

proof fn lemma_decimal_accumulate(s: Seq<char>, k: int, i: int, negative: bool, min: int, max: int)
    requires
        0 <= k <= i <= s.len(),
        pow10((s.len() - k) as nat) <= max + 1,
        pow10((s.len() - k) as nat) <= 1 - min,
        forall|j: int| k <= j < s.len() ==> is_decimal_digit(#[trigger] s[j]),
    ensures
        ({
            let d = s.skip(k);
            let sofar = decimal_number(s.subrange(k, i));
            accumulate(s, i, if negative { -sofar } else { sofar }, 10, negative, min, max) == Ok::<int, IntErrorKind>(
                if negative {
                    -decimal_number(d)
                } else {
                    decimal_number(d)
                },
            )
        }),
    decreases s.len() - i,
{
    if i == s.len() {
        assert(s.subrange(k, i) =~= s.skip(k));
    } else {
        let c = s[i];
        assert(is_decimal_digit(c));
        assert(digit_value(c, 10) == Some(c as int - 48));
        let p = s.subrange(k, i + 1);
        assert(p.drop_last() =~= s.subrange(k, i));
        assert(p.last() == c);
        assert forall|j: int| 0 <= j < p.len() implies is_decimal_digit(#[trigger] p[j]) by {
            assert(p[j] == s[k + j]);
        }
        lemma_decimal_number_bound(p);
        lemma_pow10_monotone(p.len(), (s.len() - k) as nat);
        lemma_decimal_accumulate(s, k, i + 1, negative, min, max);
    }
}

/// Decimal digits `d`, whose number stays within the bounds, parse (as
/// `from_str_radix` in base 10 does) to the number they write, and with a
/// leading `-` to its negation.
pub proof fn lemma_decimal_parses(d: Seq<char>, min: int, max: int)
    requires
        d.len() >= 1,
        pow10(d.len()) <= max + 1,
        pow10(d.len()) <= 1 - min,
        forall|j: int| 0 <= j < d.len() ==> is_decimal_digit(#[trigger] d[j]),
    ensures
        0 <= decimal_number(d) < pow10(d.len()),
        parse_int(d, 10, true, min, max) == Ok::<int, IntErrorKind>(decimal_number(d)),
        parse_int(seq!['-'] + d, 10, true, min, max) == Ok::<int, IntErrorKind>(-decimal_number(d)),
{
    lemma_decimal_number_bound(d);
    assert(is_decimal_digit(d[0]));
    lemma_decimal_accumulate(d, 0, 0, false, min, max);
    assert(d.subrange(0, 0) =~= Seq::<char>::empty());
    assert(d.skip(0) =~= d);
    let n = seq!['-'] + d;
    assert forall|j: int| 1 <= j < n.len() implies is_decimal_digit(#[trigger] n[j]) by {
        assert(n[j] == d[j - 1]);
    }
    assert(n.len() - 1 == d.len());
    lemma_decimal_accumulate(n, 1, 1, true, min, max);
    assert(n.subrange(1, 1) =~= Seq::<char>::empty());
    assert(n.skip(1) =~= d);
}

/// Text that neither starts nor ends with whitespace is its own trim.
pub proof fn lemma_trim_unchanged(s: Seq<char>)
    requires
        s.len() > 0,
        !is_whitespace(s[0]),
        !is_whitespace(s.last()),
    ensures
        trim(s) == s,
{
    assert(skip_whitespace(s, 0) == 0);
    assert(trim_start(s) =~= s);
    assert(drop_trailing_whitespace(s, s.len() as int) == s.len());
    assert(trim_end(s) =~= s);
}

} // verus!
