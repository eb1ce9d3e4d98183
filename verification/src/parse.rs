//! The parser and the label resolver.
//!
//! The grammar is line-oriented: each line is either an instruction (a
//! three-letter keyword, optionally followed by an operand group) or a label
//! definition (an identifier immediately followed by `:`), terminated by a
//! newline. A line that matches neither alternative is skipped up to the
//! next newline and recorded as an error-recovery marker, so a single pass
//! surfaces every malformed line.
//!
//! Spans are half-open character-offset ranges into the source text.

use crate::instrs::{Instr, Reg, Val};
use core::ops::Range;
use vstd::prelude::*;

verus! {

/// A lexical unit: its text and its half-open span in the source.
#[derive(Debug)]
pub struct Token {
    pub inner: String,
    pub span: Range<usize>,
}

impl Clone for Token {
    fn clone(&self) -> (r: Self)
        ensures
            r@ == self@,
    {
        Token { inner: self.inner.clone(), span: self.span.start..self.span.end }
    }
}

/// The mathematical value of a [`Token`]: its text and span bounds.
pub struct TokenV {
    pub text: Seq<char>,
    pub start: int,
    pub end: int,
}

impl View for Token {
    type V = TokenV;

    open spec fn view(&self) -> TokenV {
        TokenV { text: self.inner@, start: self.span.start as int, end: self.span.end as int }
    }
}

/// One parsed line: an instruction, a label definition, or a marker left
/// behind by error recovery.
#[derive(Debug)]
pub enum AstLine {
    Instr(Instr),
    Label(Token),
    Error,
}

/// The mathematical value of a [`Val`].
pub enum ValV {
    Num(int),
    X,
}

impl View for Val {
    type V = ValV;

    open spec fn view(&self) -> ValV {
        match *self {
            Val::Num(n) => ValV::Num(n as int),
            Val::X => ValV::X,
        }
    }
}

/// The mathematical value of an [`Instr`].
pub enum InstrV {
    Gol,
    Gor,
    Get(Reg),
    Put(Reg),
    Jmp(TokenV),
    Jnz(Reg, TokenV),
    Jlz(Reg, TokenV),
    Sav,
    Ret,
    Inp,
    Out,
    Sto(ValV),
    Add(ValV),
    Mul(ValV),
    Div(ValV),
    Dec,
}

impl View for Instr {
    type V = InstrV;

    open spec fn view(&self) -> InstrV {
        match self {
            Instr::Gol => InstrV::Gol,
            Instr::Gor => InstrV::Gor,
            Instr::Get(r) => InstrV::Get(*r),
            Instr::Put(r) => InstrV::Put(*r),
            Instr::Jmp(t) => InstrV::Jmp(t@),
            Instr::Jnz(r, t) => InstrV::Jnz(*r, t@),
            Instr::Jlz(r, t) => InstrV::Jlz(*r, t@),
            Instr::Sav => InstrV::Sav,
            Instr::Ret => InstrV::Ret,
            Instr::Inp => InstrV::Inp,
            Instr::Out => InstrV::Out,
            Instr::Sto(v) => InstrV::Sto(v@),
            Instr::Add(v) => InstrV::Add(v@),
            Instr::Mul(v) => InstrV::Mul(v@),
            Instr::Div(v) => InstrV::Div(v@),
            Instr::Dec => InstrV::Dec,
        }
    }
}

/// The mathematical value of an [`AstLine`].
pub enum LineV {
    Instr(InstrV),
    Label(TokenV),
    Error,
}

impl View for AstLine {
    type V = LineV;

    open spec fn view(&self) -> LineV {
        match self {
            AstLine::Instr(i) => LineV::Instr(i@),
            AstLine::Label(t) => LineV::Label(t@),
            AstLine::Error => LineV::Error,
        }
    }
}

/// The views of a sequence of parsed lines.
pub open spec fn lines_view(lines: Seq<AstLine>) -> Seq<LineV> {
    lines.map_values(|l: AstLine| l@)
}

/// Relies on `String: FromIterator<char>` from std: collecting an iterator
/// of characters yields the string of exactly those characters, in order.
#[verifier::external_body]
pub(crate) fn chars_to_string(chars: &Vec<char>) -> (r: String)
    ensures
        r@ == chars@,
{
    chars.iter().collect()
}

/// Horizontal whitespace: the separator inside an instruction line.
pub open spec fn is_hspace(c: char) -> bool {
    c == ' ' || c == '\t'
}

/// Whitespace that may follow a line terminator (blank lines, indentation).
pub open spec fn is_ws(c: char) -> bool {
    c == ' ' || c == '\t' || c == '\n' || c == '\r'
}

/// A decimal digit.
pub open spec fn is_digit(c: char) -> bool {
    '0' <= c && c <= '9'
}

/// A character that may start an identifier.
pub open spec fn is_ident_start(c: char) -> bool {
    ('a' <= c && c <= 'z') || ('A' <= c && c <= 'Z') || c == '_'
}

/// A character that may continue an identifier.
pub open spec fn is_ident_cont(c: char) -> bool {
    is_ident_start(c) || is_digit(c)
}

/// The first position at or after `pos` that does not hold horizontal
/// whitespace (or the end of the source).
pub open spec fn scan_hspace(s: Seq<char>, pos: int) -> int
    decreases s.len() - pos,
{
    if 0 <= pos && pos < s.len() && is_hspace(s[pos]) {
        scan_hspace(s, pos + 1)
    } else {
        pos
    }
}

/// The first position at or after `pos` that does not hold whitespace.
pub open spec fn scan_ws(s: Seq<char>, pos: int) -> int
    decreases s.len() - pos,
{
    if 0 <= pos && pos < s.len() && is_ws(s[pos]) {
        scan_ws(s, pos + 1)
    } else {
        pos
    }
}

/// The first position at or after `pos` that cannot continue an identifier.
pub open spec fn scan_ident(s: Seq<char>, pos: int) -> int
    decreases s.len() - pos,
{
    if 0 <= pos && pos < s.len() && is_ident_cont(s[pos]) {
        scan_ident(s, pos + 1)
    } else {
        pos
    }
}

/// The first position at or after `pos` that does not hold a digit.
pub open spec fn scan_digits(s: Seq<char>, pos: int) -> int
    decreases s.len() - pos,
{
    if 0 <= pos && pos < s.len() && is_digit(s[pos]) {
        scan_digits(s, pos + 1)
    } else {
        pos
    }
}

/// The position of the next newline at or after `pos`, or the end of the
/// source if there is none. Error recovery skips to here.
pub open spec fn scan_to_nl(s: Seq<char>, pos: int) -> int
    decreases s.len() - pos,
{
    if 0 <= pos && pos < s.len() && s[pos] != '\n' {
        scan_to_nl(s, pos + 1)
    } else {
        pos
    }
}

fn scan_hspace_x(src: &Vec<char>, pos: usize) -> (r: usize)
    requires
        pos <= src.len(),
    ensures
        r == scan_hspace(src@, pos as int),
        pos <= r <= src.len(),
{
    let mut i: usize = pos;
    while i < src.len() && (src[i] == ' ' || src[i] == '\t')
        invariant
            pos <= i <= src.len(),
            scan_hspace(src@, pos as int) == scan_hspace(src@, i as int),
        decreases src.len() - i,
    {
        i = i + 1;
    }
    i
}

fn scan_ws_x(src: &Vec<char>, pos: usize) -> (r: usize)
    requires
        pos <= src.len(),
    ensures
        r == scan_ws(src@, pos as int),
        pos <= r <= src.len(),
{
    let mut i: usize = pos;
    while i < src.len() && (src[i] == ' ' || src[i] == '\t' || src[i] == '\n' || src[i] == '\r')
        invariant
            pos <= i <= src.len(),
            scan_ws(src@, pos as int) == scan_ws(src@, i as int),
        decreases src.len() - i,
    {
        i = i + 1;
    }
    i
}

fn is_ident_cont_x(c: char) -> (r: bool)
    ensures
        r == is_ident_cont(c),
{
    ('a' <= c && c <= 'z') || ('A' <= c && c <= 'Z') || c == '_' || ('0' <= c && c <= '9')
}

fn scan_ident_x(src: &Vec<char>, pos: usize) -> (r: usize)
    requires
        pos <= src.len(),
    ensures
        r == scan_ident(src@, pos as int),
        pos <= r <= src.len(),
{
    let mut i: usize = pos;
    while i < src.len() && is_ident_cont_x(src[i])
        invariant
            pos <= i <= src.len(),
            scan_ident(src@, pos as int) == scan_ident(src@, i as int),
        decreases src.len() - i,
    {
        i = i + 1;
    }
    i
}

fn scan_digits_x(src: &Vec<char>, pos: usize) -> (r: usize)
    requires
        pos <= src.len(),
    ensures
        r == scan_digits(src@, pos as int),
        pos <= r <= src.len(),
{
    let mut i: usize = pos;
    while i < src.len() && ('0' <= src[i] && src[i] <= '9')
        invariant
            pos <= i <= src.len(),
            scan_digits(src@, pos as int) == scan_digits(src@, i as int),
        decreases src.len() - i,
    {
        i = i + 1;
    }
    i
}

fn scan_to_nl_x(src: &Vec<char>, pos: usize) -> (r: usize)
    requires
        pos <= src.len(),
    ensures
        r == scan_to_nl(src@, pos as int),
        pos <= r <= src.len(),
{
    let mut i: usize = pos;
    while i < src.len() && src[i] != '\n'
        invariant
            pos <= i <= src.len(),
            scan_to_nl(src@, pos as int) == scan_to_nl(src@, i as int),
        decreases src.len() - i,
    {
        i = i + 1;
    }
    i
}

/// The characters `src[lo..hi]` as a fresh vector.
fn subvec(src: &Vec<char>, lo: usize, hi: usize) -> (r: Vec<char>)
    requires
        lo <= hi <= src.len(),
    ensures
        r@ == src@.subrange(lo as int, hi as int),
{
    let mut out: Vec<char> = Vec::new();
    let mut i: usize = lo;
    while i < hi
        invariant
            lo <= i <= hi <= src.len(),
            out@ == src@.subrange(lo as int, i as int),
        decreases hi - i,
    {
        out.push(src[i]);
        proof {
            assert(out@ =~= src@.subrange(lo as int, i as int + 1));
        }
        i = i + 1;
    }
    out
}


/// The numeric value of a digit character.
pub open spec fn digit_val(c: char) -> int {
    (c as u32) - ('0' as u32)
}

/// The value of the digit run `s[lo..hi]`, read as a decimal number.
pub open spec fn digits_val(s: Seq<char>, lo: int, hi: int) -> int
    decreases hi - lo,
{
    if lo >= hi {
        0
    } else {
        digits_val(s, lo, hi - 1) * 10 + digit_val(s[hi - 1])
    }
}

/// A digit run has a non-negative value.
proof fn lemma_digits_val_nonneg(s: Seq<char>, lo: int, hi: int)
    requires
        0 <= lo,
        hi <= s.len(),
        forall|k: int| lo <= k < hi ==> is_digit(s[k]),
    ensures
        digits_val(s, lo, hi) >= 0,
    decreases hi - lo,
{
    if lo < hi {
        lemma_digits_val_nonneg(s, lo, hi - 1);
    }
}

/// The register operand of `get`, `put`, `jnz` and `jlz`: required
/// horizontal whitespace, then `x` or `acc`.
pub open spec fn spec_reg_arg(s: Seq<char>, pos: int) -> Option<(Reg, int)> {
    let p = scan_hspace(s, pos);
    if p == pos {
        None
    } else if p < s.len() && s[p] == 'x' {
        Some((Reg::X, p + 1))
    } else if p + 3 <= s.len() && s[p] == 'a' && s[p + 1] == 'c' && s[p + 2] == 'c' {
        Some((Reg::Acc, p + 3))
    } else {
        None
    }
}

/// The label operand of `jmp`, `jnz` and `jlz`: required horizontal
/// whitespace, then an identifier. The token's span covers the identifier.
pub open spec fn spec_label_arg(s: Seq<char>, pos: int) -> Option<(TokenV, int)> {
    let p = scan_hspace(s, pos);
    if p == pos || !(p < s.len() && is_ident_start(s[p])) {
        None
    } else {
        let e = scan_ident(s, p + 1);
        Some((TokenV { text: s.subrange(p, e), start: p, end: e }, e))
    }
}

/// A value operand: a decimal number with an optional leading `-`, or `x`.
/// A digit run whose magnitude does not fit in a signed 64-bit integer is
/// rejected (a custom "failed to parse integer" diagnostic).
pub open spec fn spec_val(s: Seq<char>, p: int) -> Option<(ValV, int)> {
    if p < s.len() && s[p] == '-' {
        if p + 1 < s.len() && is_digit(s[p + 1]) {
            let e = scan_digits(s, p + 1);
            let v = digits_val(s, p + 1, e);
            if v <= i64::MAX {
                Some((ValV::Num(-v), e))
            } else {
                None
            }
        } else {
            None
        }
    } else if p < s.len() && is_digit(s[p]) {
        let e = scan_digits(s, p);
        let v = digits_val(s, p, e);
        if v <= i64::MAX {
            Some((ValV::Num(v), e))
        } else {
            None
        }
    } else if p < s.len() && s[p] == 'x' {
        Some((ValV::X, p + 1))
    } else {
        None
    }
}

/// The value operand of `set`, `add`, `mul` and `div`: required horizontal
/// whitespace, then a value.
pub open spec fn spec_val_arg(s: Seq<char>, pos: int) -> Option<(ValV, int)> {
    let p = scan_hspace(s, pos);
    if p == pos {
        None
    } else {
        spec_val(s, p)
    }
}

/// Whether the three characters of a keyword stand at `pos`.
pub open spec fn kw(s: Seq<char>, pos: int, a: char, b: char, c: char) -> bool {
    pos + 3 <= s.len() && s[pos] == a && s[pos + 1] == b && s[pos + 2] == c
}

/// The instruction alternative of a line, starting at `pos`: a keyword and
/// its operand group. `None` when the line is not an instruction.
pub open spec fn spec_instr(s: Seq<char>, pos: int) -> Option<(InstrV, int)> {
    if kw(s, pos, 'g', 'o', 'l') {
        Some((InstrV::Gol, pos + 3))
    } else if kw(s, pos, 'g', 'o', 'r') {
        Some((InstrV::Gor, pos + 3))
    } else if kw(s, pos, 's', 'a', 'v') {
        Some((InstrV::Sav, pos + 3))
    } else if kw(s, pos, 'r', 'e', 't') {
        Some((InstrV::Ret, pos + 3))
    } else if kw(s, pos, 'i', 'n', 'p') {
        Some((InstrV::Inp, pos + 3))
    } else if kw(s, pos, 'o', 'u', 't') {
        Some((InstrV::Out, pos + 3))
    } else if kw(s, pos, 'd', 'e', 'c') {
        Some((InstrV::Dec, pos + 3))
    } else if kw(s, pos, 'g', 'e', 't') {
        match spec_reg_arg(s, pos + 3) {
            Some((r, p)) => Some((InstrV::Get(r), p)),
            None => None,
        }
    } else if kw(s, pos, 'p', 'u', 't') {
        match spec_reg_arg(s, pos + 3) {
            Some((r, p)) => Some((InstrV::Put(r), p)),
            None => None,
        }
    } else if kw(s, pos, 'j', 'm', 'p') {
        match spec_label_arg(s, pos + 3) {
            Some((t, p)) => Some((InstrV::Jmp(t), p)),
            None => None,
        }
    } else if kw(s, pos, 'j', 'n', 'z') {
        match spec_reg_arg(s, pos + 3) {
            Some((r, p)) => match spec_label_arg(s, p) {
                Some((t, p2)) => Some((InstrV::Jnz(r, t), p2)),
                None => None,
            },
            None => None,
        }
    } else if kw(s, pos, 'j', 'l', 'z') {
        match spec_reg_arg(s, pos + 3) {
            Some((r, p)) => match spec_label_arg(s, p) {
                Some((t, p2)) => Some((InstrV::Jlz(r, t), p2)),
                None => None,
            },
            None => None,
        }
    } else if kw(s, pos, 's', 'e', 't') {
        match spec_val_arg(s, pos + 3) {
            Some((v, p)) => Some((InstrV::Sto(v), p)),
            None => None,
        }
    } else if kw(s, pos, 'a', 'd', 'd') {
        match spec_val_arg(s, pos + 3) {
            Some((v, p)) => Some((InstrV::Add(v), p)),
            None => None,
        }
    } else if kw(s, pos, 'm', 'u', 'l') {
        match spec_val_arg(s, pos + 3) {
            Some((v, p)) => Some((InstrV::Mul(v), p)),
            None => None,
        }
    } else if kw(s, pos, 'd', 'i', 'v') {
        match spec_val_arg(s, pos + 3) {
            Some((v, p)) => Some((InstrV::Div(v), p)),
            None => None,
        }
    } else {
        None
    }
}

/// The label-definition alternative of a line: an identifier immediately
/// followed by `:`. The token's span includes the colon; its text does not.
pub open spec fn spec_label_def(s: Seq<char>, pos: int) -> Option<(TokenV, int)> {
    if pos < s.len() && is_ident_start(s[pos]) {
        let e = scan_ident(s, pos + 1);
        if e < s.len() && s[e] == ':' {
            Some((TokenV { text: s.subrange(pos, e), start: pos, end: e + 1 }, e + 1))
        } else {
            None
        }
    } else {
        None
    }
}

/// A line terminator: optional horizontal whitespace, a newline, then any
/// run of whitespace (blank lines and indentation of the next line).
pub open spec fn spec_term(s: Seq<char>, pos: int) -> Option<int> {
    let p = scan_hspace(s, pos);
    if p < s.len() && s[p] == '\n' {
        Some(scan_ws(s, p + 1))
    } else if p + 2 <= s.len() && s[p] == '\r' && s[p + 1] == '\n' {
        Some(scan_ws(s, p + 2))
    } else {
        None
    }
}

/// Where parsing resumes after a malformed line: everything up to the next
/// newline is discarded, then the terminator's trailing whitespace rule
/// applies.
pub open spec fn after_err(s: Seq<char>, pos: int) -> int {
    let e = scan_to_nl(s, pos);
    if e < s.len() {
        scan_ws(s, e + 1)
    } else {
        e
    }
}

/// One line, starting at `pos`: the instruction alternative first, then the
/// label-definition alternative, each with a required terminator; a line
/// that fits neither is an error-recovery marker ending after the next
/// newline.
pub open spec fn spec_line(s: Seq<char>, pos: int) -> (LineV, int) {
    if spec_instr(s, pos) is Some {
        let (iv, p) = spec_instr(s, pos)->Some_0;
        match spec_term(s, p) {
            Some(p2) => (LineV::Instr(iv), p2),
            None => (LineV::Error, after_err(s, pos)),
        }
    } else if spec_label_def(s, pos) is Some {
        let (tv, p) = spec_label_def(s, pos)->Some_0;
        match spec_term(s, p) {
            Some(p2) => (LineV::Label(tv), p2),
            None => (LineV::Error, after_err(s, pos)),
        }
    } else {
        (LineV::Error, after_err(s, pos))
    }
}

/// The whole program: lines parsed in order from `pos` to the end of the
/// source.
pub open spec fn spec_ast(s: Seq<char>, pos: int) -> Seq<LineV>
    decreases s.len() - pos,
{
    if pos < 0 || pos >= s.len() {
        seq![]
    } else {
        let (l, next) = spec_line(s, pos);
        if pos < next <= s.len() {
            seq![l] + spec_ast(s, next)
        } else {
            seq![l]
        }
    }
}

/// How many error-recovery markers a parse produced.
pub open spec fn n_errors(lines: Seq<LineV>) -> nat
    decreases lines.len(),
{
    if lines.len() == 0 {
        0
    } else {
        n_errors(lines.drop_last()) + (if lines.last() is Error {
            1nat
        } else {
            0nat
        })
    }
}


/// One syntactic expectation at a parse-failure point.
#[derive(Copy, Clone, Debug)]
pub enum Expected {
    /// A particular character was acceptable here.
    Char(char),
    /// The end of the input was acceptable here.
    EndOfInput,
}

/// A structured parse diagnostic: the expectations at the failure point,
/// the character actually found (`None` at end of input), an optional
/// contextual label, and an optional custom message (integer overflow).
/// Rendering these into readable text is the presentation layer's job.
#[derive(Debug)]
pub struct ParseError {
    pub span: Range<usize>,
    pub expected: Vec<Expected>,
    pub found: Option<char>,
    pub context: Option<&'static str>,
    pub message: Option<String>,
}

/// Whether a diagnostic's span lies within a source of `n` characters.
pub open spec fn err_within(e: ParseError, n: int) -> bool {
    e.span.start <= e.span.end && e.span.end <= n
}

/// A diagnostic whose span points at the character at `at`.
fn mk_err(
    src: &Vec<char>,
    at: usize,
    expected: Vec<Expected>,
    context: Option<&'static str>,
    message: Option<String>,
) -> (r: ParseError)
    requires
        at <= src.len(),
    ensures
        err_within(r, src@.len() as int),
{
    let found = if at < src.len() {
        Some(src[at])
    } else {
        None
    };
    let end = if at < src.len() {
        at + 1
    } else {
        at
    };
    ParseError { span: at..end, expected, found, context, message }
}

/// All characters of a digit run are digits.
proof fn lemma_scan_digits_chars(s: Seq<char>, pos: int)
    ensures
        forall|k: int| pos <= k < scan_digits(s, pos) ==> is_digit(s[k]),
    decreases s.len() - pos,
{
    if 0 <= pos && pos < s.len() && is_digit(s[pos]) {
        lemma_scan_digits_chars(s, pos + 1);
    }
}

/// A digit run never ends before it starts.
proof fn lemma_scan_digits_lb(s: Seq<char>, pos: int)
    ensures
        scan_digits(s, pos) >= pos,
    decreases s.len() - pos,
{
    if 0 <= pos && pos < s.len() && is_digit(s[pos]) {
        lemma_scan_digits_lb(s, pos + 1);
    }
}

/// The value of the digit run starting at `lo`, if its magnitude fits a
/// signed 64-bit integer; the run's end either way.
fn parse_digits_value(src: &Vec<char>, lo: usize) -> (r: (Option<u64>, usize))
    requires
        lo < src.len(),
        is_digit(src@[lo as int]),
    ensures
        r.1 == scan_digits(src@, lo as int),
        lo < r.1 <= src.len(),
        match r.0 {
            Some(v) => v == digits_val(src@, lo as int, r.1 as int) && v <= i64::MAX as u64,
            None => digits_val(src@, lo as int, r.1 as int) > i64::MAX,
        },
{
    let e = scan_digits_x(src, lo);
    proof {
        lemma_scan_digits_chars(src@, lo as int);
        lemma_scan_digits_lb(src@, lo as int + 1);
        assert(scan_digits(src@, lo as int) > lo);
    }
    let mut acc: u64 = 0;
    let mut over: bool = false;
    let mut i: usize = lo;
    while i < e
        invariant
            lo <= i <= e <= src.len(),
            e == scan_digits(src@, lo as int),
            forall|k: int| lo <= k < e ==> is_digit(src@[k]),
            !over ==> acc == digits_val(src@, lo as int, i as int) && acc <= i64::MAX as u64,
            over ==> digits_val(src@, lo as int, i as int) > i64::MAX,
        decreases e - i,
    {
        let c = src[i];
        let d: u64 = (c as u32 - '0' as u32) as u64;
        proof {
            assert(is_digit(src@[i as int]));
            assert(d == digit_val(src@[i as int]));
            assert(d <= 9);
            lemma_digits_val_nonneg(src@, lo as int, i as int);
        }
        if over {
            proof {
                assert(digits_val(src@, lo as int, i as int + 1) == digits_val(
                    src@,
                    lo as int,
                    i as int,
                ) * 10 + d);
            }
        } else {
            match acc.checked_mul(10) {
                None => {
                    over = true;
                },
                Some(t) => {
                    match t.checked_add(d) {
                        None => {
                            over = true;
                        },
                        Some(v) => {
                            if v > i64::MAX as u64 {
                                over = true;
                            } else {
                                acc = v;
                            }
                        },
                    }
                },
            }
            proof {
                assert(digits_val(src@, lo as int, i as int + 1) == digits_val(
                    src@,
                    lo as int,
                    i as int,
                ) * 10 + d);
            }
        }
        i = i + 1;
    }
    if over {
        (None, e)
    } else {
        (Some(acc), e)
    }
}

/// Parses the register operand (leading whitespace, then `x` or `acc`).
fn parse_reg_arg(src: &Vec<char>, pos: usize) -> (r: Result<(Reg, usize), ParseError>)
    requires
        pos <= src.len(),
    ensures
        match r {
            Ok((reg, p)) => spec_reg_arg(src@, pos as int) == Some((reg, p as int)) && pos < p
                <= src.len(),
            Err(e) => spec_reg_arg(src@, pos as int) is None && err_within(e, src@.len() as int),
        },
{
    let p = scan_hspace_x(src, pos);
    if p == pos {
        return Err(mk_err(
            src,
            p,
            vec![Expected::Char(' '), Expected::Char('\t')],
            Some("horizontal whitespace"),
            None,
        ));
    }
    if p < src.len() && src[p] == 'x' {
        Ok((Reg::X, p + 1))
    } else if src.len() - p >= 3 && src[p] == 'a' && src[p + 1] == 'c' && src[p + 2] == 'c' {
        Ok((Reg::Acc, p + 3))
    } else {
        Err(mk_err(
            src,
            p,
            vec![Expected::Char('x'), Expected::Char('a')],
            Some("register"),
            None,
        ))
    }
}

/// Parses a label operand (leading whitespace, then an identifier).
fn parse_label_arg(src: &Vec<char>, pos: usize) -> (r: Result<(Token, usize), ParseError>)
    requires
        pos <= src.len(),
    ensures
        match r {
            Ok((tok, p)) => spec_label_arg(src@, pos as int) == Some((tok@, p as int)) && pos < p
                <= src.len(),
            Err(e) => spec_label_arg(src@, pos as int) is None && err_within(e, src@.len() as int),
        },
{
    let p = scan_hspace_x(src, pos);
    if p == pos || !(p < src.len() && (('a' <= src[p] && src[p] <= 'z') || ('A' <= src[p] && src[p]
        <= 'Z') || src[p] == '_')) {
        return Err(mk_err(src, p, vec![], Some("label"), None));
    }
    let e = scan_ident_x(src, p + 1);
    let text = subvec(src, p, e);
    let inner = chars_to_string(&text);
    Ok((Token { inner, span: p..e }, e))
}

/// Parses a value operand (leading whitespace, then a number or `x`).
fn parse_val_arg(src: &Vec<char>, pos: usize) -> (r: Result<(Val, usize), ParseError>)
    requires
        pos <= src.len(),
    ensures
        match r {
            Ok((v, p)) => spec_val_arg(src@, pos as int) == Some((v@, p as int)) && pos < p
                <= src.len(),
            Err(e) => spec_val_arg(src@, pos as int) is None && err_within(e, src@.len() as int),
        },
{
    let p = scan_hspace_x(src, pos);
    if p == pos {
        return Err(mk_err(
            src,
            p,
            vec![Expected::Char(' '), Expected::Char('\t')],
            Some("horizontal whitespace"),
            None,
        ));
    }
    if p < src.len() && src[p] == '-' {
        if p + 1 < src.len() && '0' <= src[p + 1] && src[p + 1] <= '9' {
            let (val, e) = parse_digits_value(src, p + 1);
            match val {
                Some(v) => Ok((Val::Num(-(v as i64)), e)),
                None => Err(mk_err(
                    src,
                    p,
                    vec![],
                    Some("number"),
                    Some(String::from_str(
                        "failed to parse integer: number too large to fit in target type",
                    )),
                )),
            }
        } else {
            Err(mk_err(src, p, vec![], Some("number or x"), None))
        }
    } else if p < src.len() && '0' <= src[p] && src[p] <= '9' {
        let (val, e) = parse_digits_value(src, p);
        match val {
            Some(v) => Ok((Val::Num(v as i64), e)),
            None => Err(mk_err(
                src,
                p,
                vec![],
                Some("number"),
                Some(String::from_str(
                    "failed to parse integer: number too large to fit in target type",
                )),
            )),
        }
    } else if p < src.len() && src[p] == 'x' {
        Ok((Val::X, p + 1))
    } else {
        Err(mk_err(src, p, vec![], Some("number or x"), None))
    }
}


/// Parses the instruction alternative of a line.
fn parse_instr(src: &Vec<char>, pos: usize) -> (r: Result<(Instr, usize), ParseError>)
    requires
        pos <= src.len(),
    ensures
        match r {
            Ok((i, p)) => spec_instr(src@, pos as int) == Some((i@, p as int)) && pos < p
                <= src.len(),
            Err(e) => spec_instr(src@, pos as int) is None && err_within(e, src@.len() as int),
        },
{
    if src.len() - pos < 3 {
        return Err(mk_err(src, pos, vec![], Some("instruction"), None));
    }
    let c0 = src[pos];
    let c1 = src[pos + 1];
    let c2 = src[pos + 2];
    if c0 == 'g' && c1 == 'o' && c2 == 'l' {
        Ok((Instr::Gol, pos + 3))
    } else if c0 == 'g' && c1 == 'o' && c2 == 'r' {
        Ok((Instr::Gor, pos + 3))
    } else if c0 == 's' && c1 == 'a' && c2 == 'v' {
        Ok((Instr::Sav, pos + 3))
    } else if c0 == 'r' && c1 == 'e' && c2 == 't' {
        Ok((Instr::Ret, pos + 3))
    } else if c0 == 'i' && c1 == 'n' && c2 == 'p' {
        Ok((Instr::Inp, pos + 3))
    } else if c0 == 'o' && c1 == 'u' && c2 == 't' {
        Ok((Instr::Out, pos + 3))
    } else if c0 == 'd' && c1 == 'e' && c2 == 'c' {
        Ok((Instr::Dec, pos + 3))
    } else if c0 == 'g' && c1 == 'e' && c2 == 't' {
        match parse_reg_arg(src, pos + 3) {
            Ok((reg, p)) => Ok((Instr::Get(reg), p)),
            Err(e) => Err(e),
        }
    } else if c0 == 'p' && c1 == 'u' && c2 == 't' {
        match parse_reg_arg(src, pos + 3) {
            Ok((reg, p)) => Ok((Instr::Put(reg), p)),
            Err(e) => Err(e),
        }
    } else if c0 == 'j' && c1 == 'm' && c2 == 'p' {
        match parse_label_arg(src, pos + 3) {
            Ok((tok, p)) => Ok((Instr::Jmp(tok), p)),
            Err(e) => Err(e),
        }
    } else if c0 == 'j' && c1 == 'n' && c2 == 'z' {
        match parse_reg_arg(src, pos + 3) {
            Ok((reg, p)) => match parse_label_arg(src, p) {
                Ok((tok, p2)) => Ok((Instr::Jnz(reg, tok), p2)),
                Err(e) => Err(e),
            },
            Err(e) => Err(e),
        }
    } else if c0 == 'j' && c1 == 'l' && c2 == 'z' {
        match parse_reg_arg(src, pos + 3) {
            Ok((reg, p)) => match parse_label_arg(src, p) {
                Ok((tok, p2)) => Ok((Instr::Jlz(reg, tok), p2)),
                Err(e) => Err(e),
            },
            Err(e) => Err(e),
        }
    } else if c0 == 's' && c1 == 'e' && c2 == 't' {
        match parse_val_arg(src, pos + 3) {
            Ok((v, p)) => Ok((Instr::Sto(v), p)),
            Err(e) => Err(e),
        }
    } else if c0 == 'a' && c1 == 'd' && c2 == 'd' {
        match parse_val_arg(src, pos + 3) {
            Ok((v, p)) => Ok((Instr::Add(v), p)),
            Err(e) => Err(e),
        }
    } else if c0 == 'm' && c1 == 'u' && c2 == 'l' {
        match parse_val_arg(src, pos + 3) {
            Ok((v, p)) => Ok((Instr::Mul(v), p)),
            Err(e) => Err(e),
        }
    } else if c0 == 'd' && c1 == 'i' && c2 == 'v' {
        match parse_val_arg(src, pos + 3) {
            Ok((v, p)) => Ok((Instr::Div(v), p)),
            Err(e) => Err(e),
        }
    } else {
        Err(mk_err(src, pos, vec![], Some("instruction"), None))
    }
}

/// Parses the label-definition alternative of a line.
fn parse_label_def(src: &Vec<char>, pos: usize) -> (r: Result<(Token, usize), ParseError>)
    requires
        pos <= src.len(),
    ensures
        match r {
            Ok((tok, p)) => spec_label_def(src@, pos as int) == Some((tok@, p as int)) && pos < p
                <= src.len(),
            Err(e) => spec_label_def(src@, pos as int) is None && err_within(e, src@.len() as int),
        },
{
    if !(pos < src.len() && (('a' <= src[pos] && src[pos] <= 'z') || ('A' <= src[pos] && src[pos]
        <= 'Z') || src[pos] == '_')) {
        return Err(mk_err(src, pos, vec![], Some("label"), None));
    }
    let e = scan_ident_x(src, pos + 1);
    if e < src.len() && src[e] == ':' {
        let text = subvec(src, pos, e);
        let inner = chars_to_string(&text);
        Ok((Token { inner, span: pos..e + 1 }, e + 1))
    } else {
        Err(mk_err(src, e, vec![Expected::Char(':')], Some("label"), None))
    }
}

/// Parses a line terminator.
fn parse_term(src: &Vec<char>, pos: usize) -> (r: Result<usize, ParseError>)
    requires
        pos <= src.len(),
    ensures
        match r {
            Ok(p) => spec_term(src@, pos as int) == Some(p as int) && pos < p <= src.len(),
            Err(e) => spec_term(src@, pos as int) is None && err_within(e, src@.len() as int),
        },
{
    let p = scan_hspace_x(src, pos);
    if p < src.len() && src[p] == '\n' {
        Ok(scan_ws_x(src, p + 1))
    } else if src.len() - p >= 2 && src[p] == '\r' && src[p + 1] == '\n' {
        Ok(scan_ws_x(src, p + 2))
    } else {
        Err(mk_err(src, p, vec![Expected::Char('\n')], Some("trailing newline"), None))
    }
}

/// Discards the rest of a malformed line, records the diagnostic and an
/// error-marker line, and returns where parsing resumes.
fn recover(
    src: &Vec<char>,
    pos: usize,
    err: ParseError,
    ast: &mut Vec<AstLine>,
    errs: &mut Vec<ParseError>,
) -> (newpos: usize)
    requires
        pos < src.len(),
        err_within(err, src@.len() as int),
    ensures
        final(ast)@ == old(ast)@.push(AstLine::Error),
        final(errs)@ == old(errs)@.push(err),
        err_within(final(errs)@.last(), src@.len() as int),
        newpos == after_err(src@, pos as int),
        pos < newpos <= src.len(),
{
    errs.push(err);
    ast.push(AstLine::Error);
    let e = scan_to_nl_x(src, pos);
    if e < src.len() {
        scan_ws_x(src, e + 1)
    } else {
        e
    }
}

/// Parses one line starting at `pos` and appends its outcome.
fn parse_line(src: &Vec<char>, pos: usize, ast: &mut Vec<AstLine>, errs: &mut Vec<ParseError>) -> (newpos:
    usize)
    requires
        pos < src.len(),
    ensures
        ({
            let (l, next) = spec_line(src@, pos as int);
            &&& final(ast)@.len() == old(ast)@.len() + 1
            &&& final(ast)@.drop_last() == old(ast)@
            &&& final(ast)@.last()@ == l
            &&& if l is Error {
                final(errs)@.len() == old(errs)@.len() + 1 && final(errs)@.drop_last() == old(
                    errs,
                )@ && err_within(final(errs)@.last(), src@.len() as int)
            } else {
                final(errs)@ == old(errs)@
            }
            &&& newpos == next
            &&& pos < newpos <= src.len()
        }),
{
    match parse_instr(src, pos) {
        Ok((i, p)) => {
            match parse_term(src, p) {
                Ok(p2) => {
                    ast.push(AstLine::Instr(i));
                    proof {
                        assert(final(ast)@.drop_last() =~= old(ast)@);
                    }
                    p2
                },
                Err(e) => recover(src, pos, e, ast, errs),
            }
        },
        Err(e1) => {
            match parse_label_def(src, pos) {
                Ok((tok, p)) => {
                    match parse_term(src, p) {
                        Ok(p2) => {
                            ast.push(AstLine::Label(tok));
                            proof {
                                assert(final(ast)@.drop_last() =~= old(ast)@);
                            }
                            p2
                        },
                        Err(e) => recover(src, pos, e, ast, errs),
                    }
                },
                Err(e2) => {
                    let chosen = if e2.span.start > e1.span.start {
                        e2
                    } else {
                        e1
                    };
                    recover(src, pos, chosen, ast, errs)
                },
            }
        },
    }
}

/// Parses a whole source text into its lines, recovering from malformed
/// lines so that every diagnostic of the file is collected in one pass.
///
/// Returns the parsed lines and the diagnostics; there is one diagnostic
/// for each error-recovery marker among the lines.
pub fn root(src: &Vec<char>) -> (r: (Vec<AstLine>, Vec<ParseError>))
    ensures
        lines_view(r.0@) == spec_ast(src@, 0),
        r.1@.len() == n_errors(spec_ast(src@, 0)),
        forall|i: int| 0 <= i < r.1@.len() ==> err_within(#[trigger] r.1@[i], src@.len() as int),
{
    let mut ast: Vec<AstLine> = Vec::new();
    let mut errs: Vec<ParseError> = Vec::new();
    let mut pos: usize = 0;
    proof {
        assert(lines_view(ast@) =~= Seq::<LineV>::empty());
        assert(lines_view(ast@) + spec_ast(src@, 0) =~= spec_ast(src@, 0));
    }
    while pos < src.len()
        invariant
            pos <= src.len(),
            spec_ast(src@, 0) == lines_view(ast@) + spec_ast(src@, pos as int),
            errs@.len() == n_errors(lines_view(ast@)),
            forall|i: int| 0 <= i < errs@.len() ==> err_within(#[trigger] errs@[i], src@.len() as int),
        decreases src.len() - pos,
    {
        let ghost prev_view = lines_view(ast@);
        let ghost prev_errs = errs@;
        let ghost prev_pos = pos as int;
        let next = parse_line(src, pos, &mut ast, &mut errs);
        proof {
            if spec_line(src@, prev_pos).0 is Error {
                assert(forall|i: int|
                    0 <= i < errs@.len() - 1 ==> #[trigger] errs@[i] == errs@.drop_last()[i]);
            }
            let (l, n) = spec_line(src@, prev_pos);
            assert(lines_view(ast@) =~= prev_view.push(l));
            assert(spec_ast(src@, prev_pos) == seq![l] + spec_ast(src@, n));
            assert(lines_view(ast@) + spec_ast(src@, n) =~= prev_view + spec_ast(
                src@,
                prev_pos,
            ));
            assert(lines_view(ast@).drop_last() =~= prev_view);
            assert(n_errors(lines_view(ast@)) == n_errors(prev_view) + (if l is Error {
                1int
            } else {
                0int
            }));
        }
        pos = next;
    }
    proof {
        assert(spec_ast(src@, pos as int) =~= Seq::<LineV>::empty());
        assert(lines_view(ast@) + spec_ast(src@, pos as int) =~= lines_view(ast@));
    }
    (ast, errs)
}


/// The table from label name to instruction index, with the token of each
/// name's first definition. Keys are unique: the first definition of a name
/// is authoritative, and later definitions never overwrite it.
pub struct LabelTable {
    entries: Vec<(Token, usize)>,
}

/// The mapping an entry list stands for: each name to the token of its
/// first definition and its instruction index.
pub open spec fn table_map(entries: Seq<(Token, usize)>) -> Map<Seq<char>, (TokenV, nat)>
    decreases entries.len(),
{
    if entries.len() == 0 {
        Map::empty()
    } else {
        table_map(entries.drop_last()).insert(
            entries.last().0@.text,
            (entries.last().0@, entries.last().1 as nat),
        )
    }
}

impl View for LabelTable {
    type V = Map<Seq<char>, (TokenV, nat)>;

    closed spec fn view(&self) -> Map<Seq<char>, (TokenV, nat)> {
        table_map(self.entries@)
    }
}

/// A name is in the mapping exactly when some entry carries it.
proof fn lemma_table_map_dom(entries: Seq<(Token, usize)>, name: Seq<char>)
    ensures
        table_map(entries).contains_key(name) <==> exists|i: int|
            0 <= i < entries.len() && entries[i].0@.text == name,
    decreases entries.len(),
{
    if entries.len() > 0 {
        lemma_table_map_dom(entries.drop_last(), name);
        if entries.last().0@.text != name {
            assert(forall|i: int|
                0 <= i < entries.len() - 1 ==> entries.drop_last()[i] == entries[i]);
            if table_map(entries).contains_key(name) {
                assert(exists|i: int| 0 <= i < entries.len() && entries[i].0@.text == name);
            }
            if exists|i: int| 0 <= i < entries.len() && entries[i].0@.text == name {
                let i = choose|i: int| 0 <= i < entries.len() && entries[i].0@.text == name;
                assert(i < entries.len() - 1);
                assert(entries.drop_last()[i].0@.text == name);
            }
        }
    }
}

impl LabelTable {
    /// Every entry carries a distinct name.
    pub closed spec fn wf(&self) -> bool {
        forall|i: int, j: int|
            0 <= i < j < self.entries@.len() ==> self.entries@[i].0@.text
                != self.entries@[j].0@.text
    }

    /// With distinct names, entry `i` is what the mapping holds for its name.
    proof fn lemma_get(entries: Seq<(Token, usize)>, i: int)
        requires
            0 <= i < entries.len(),
            forall|p: int, q: int|
                0 <= p < q < entries.len() ==> entries[p].0@.text != entries[q].0@.text,
        ensures
            table_map(entries).contains_key(entries[i].0@.text),
            table_map(entries)[entries[i].0@.text] == (entries[i].0@, entries[i].1 as nat),
        decreases entries.len(),
    {
        if i == entries.len() - 1 {
        } else {
            assert(forall|p: int, q: int|
                0 <= p < q < entries.len() - 1 ==> entries.drop_last()[p].0@.text
                    != entries.drop_last()[q].0@.text);
            Self::lemma_get(entries.drop_last(), i);
            assert(entries.drop_last()[i] == entries[i]);
            assert(entries.last().0@.text != entries[i].0@.text);
        }
    }

    /// An empty table.
    pub fn new() -> (r: Self)
        ensures
            r@ == Map::<Seq<char>, (TokenV, nat)>::empty(),
            r.wf(),
    {
        LabelTable { entries: Vec::new() }
    }

    /// The token of the first definition of `name`, if any.
    pub fn first_tok(&self, name: &String) -> (r: Option<&Token>)
        requires
            self.wf(),
        ensures
            match r {
                Some(tok) => self@.contains_key(name@) && tok@ == self@[name@].0,
                None => !self@.contains_key(name@),
            },
    {
        let mut i: usize = 0;
        while i < self.entries.len()
            invariant
                i <= self.entries@.len(),
                self.wf(),
                forall|k: int| 0 <= k < i ==> self.entries@[k].0@.text != name@,
            decreases self.entries@.len() - i,
        {
            if self.entries[i].0.inner == *name {
                proof {
                    Self::lemma_get(self.entries@, i as int);
                }
                return Some(&self.entries[i].0);
            }
            i = i + 1;
        }
        proof {
            lemma_table_map_dom(self.entries@, name@);
        }
        None
    }

    /// The instruction index `name` resolves to, if it is defined.
    pub fn get(&self, name: &String) -> (r: Option<usize>)
        requires
            self.wf(),
        ensures
            match r {
                Some(idx) => self@.contains_key(name@) && idx as nat == self@[name@].1,
                None => !self@.contains_key(name@),
            },
    {
        let mut i: usize = 0;
        while i < self.entries.len()
            invariant
                i <= self.entries@.len(),
                self.wf(),
                forall|k: int| 0 <= k < i ==> self.entries@[k].0@.text != name@,
            decreases self.entries@.len() - i,
        {
            if self.entries[i].0.inner == *name {
                proof {
                    Self::lemma_get(self.entries@, i as int);
                }
                return Some(self.entries[i].1);
            }
            i = i + 1;
        }
        proof {
            lemma_table_map_dom(self.entries@, name@);
        }
        None
    }

    /// Whether `name` is defined.
    pub fn contains(&self, name: &String) -> (r: bool)
        requires
            self.wf(),
        ensures
            r == self@.contains_key(name@),
    {
        match self.get(name) {
            Some(_) => true,
            None => false,
        }
    }

    /// Whether the table is well-formed (all names distinct), decided at
    /// run time so that an unverified caller can test it.
    pub fn check_unique(&self) -> (r: bool)
        ensures
            r == self.wf(),
    {
        let n = self.entries.len();
        let mut i: usize = 0;
        while i < n
            invariant
                n == self.entries@.len(),
                i <= n,
                forall|p: int, q: int|
                    0 <= p < q < n && p < i ==> self.entries@[p].0@.text
                        != self.entries@[q].0@.text,
            decreases n - i,
        {
            let mut j: usize = i + 1;
            while j < n
                invariant
                    n == self.entries@.len(),
                    i < j <= n,
                    forall|q: int| i < q < j ==> self.entries@[i as int].0@.text
                        != self.entries@[q].0@.text,
                decreases n - j,
            {
                if self.entries[i].0.inner == self.entries[j].0.inner {
                    return false;
                }
                j = j + 1;
            }
            i = i + 1;
        }
        true
    }

    /// Records the first definition of a new name.
    pub fn insert(&mut self, tok: Token, idx: usize)
        requires
            old(self).wf(),
            !old(self)@.contains_key(tok@.text),
        ensures
            final(self).wf(),
            final(self)@ == old(self)@.insert(tok@.text, (tok@, idx as nat)),
    {
        proof {
            lemma_table_map_dom(self.entries@, tok@.text);
        }
        let ghost prev = self.entries@;
        self.entries.push((tok, idx));
        proof {
            assert(self.entries@.drop_last() =~= prev);
            assert(self.entries@.last() == (tok, idx));
        }
    }
}

/// A label-resolution diagnostic.
pub enum LabelError {
    /// A jump names a label that is never defined.
    Unknown(Token),
    /// A label is defined more than once; `first` is the span of the
    /// original definition, `second` the span of the later one.
    Redefined { label: String, first: Range<usize>, second: Range<usize> },
}

/// The mathematical value of a [`LabelError`].
pub enum LabelErrorV {
    Unknown(TokenV),
    Redefined { label: Seq<char>, first: (int, int), second: (int, int) },
}

impl View for LabelError {
    type V = LabelErrorV;

    open spec fn view(&self) -> LabelErrorV {
        match self {
            LabelError::Unknown(t) => LabelErrorV::Unknown(t@),
            LabelError::Redefined { label, first, second } => LabelErrorV::Redefined {
                label: label@,
                first: (first.start as int, first.end as int),
                second: (second.start as int, second.end as int),
            },
        }
    }
}

/// The views of a list of label diagnostics.
pub open spec fn label_errs_view(errs: Seq<LabelError>) -> Seq<LabelErrorV> {
    errs.map_values(|e: LabelError| e@)
}

/// The label token an instruction jumps to, if it is a jump.
pub open spec fn instr_target(iv: InstrV) -> Option<TokenV> {
    match iv {
        InstrV::Jmp(t) => Some(t),
        InstrV::Jnz(_, t) => Some(t),
        InstrV::Jlz(_, t) => Some(t),
        _ => None,
    }
}

/// The label token a line jumps to, if it is a jump instruction.
pub open spec fn jump_target(l: LineV) -> Option<TokenV> {
    match l {
        LineV::Instr(iv) => instr_target(iv),
        _ => None,
    }
}

/// How many of the first `upto` lines are instructions. Label and
/// error-recovery lines do not occupy an instruction index.
pub open spec fn instr_count(lv: Seq<LineV>, upto: int) -> nat
    decreases upto,
{
    if upto <= 0 || upto > lv.len() {
        0
    } else {
        instr_count(lv, upto - 1) + (if lv[upto - 1] is Instr {
            1nat
        } else {
            0nat
        })
    }
}

/// The instructions among the first `upto` lines, in order.
pub open spec fn instrs_upto(lv: Seq<LineV>, upto: int) -> Seq<InstrV>
    decreases upto,
{
    if upto <= 0 || upto > lv.len() {
        seq![]
    } else {
        instrs_upto(lv, upto - 1) + (match lv[upto - 1] {
            LineV::Instr(iv) => seq![iv],
            _ => seq![],
        })
    }
}

/// The label table after the first `upto` lines: each name defined there
/// maps to its first definition's token and the instruction index current
/// at that definition.
pub open spec fn spec_table(lv: Seq<LineV>, upto: int) -> Map<Seq<char>, (TokenV, nat)>
    decreases upto,
{
    if upto <= 0 || upto > lv.len() {
        Map::empty()
    } else {
        let m = spec_table(lv, upto - 1);
        match lv[upto - 1] {
            LineV::Label(t) => if !m.contains_key(t.text) {
                m.insert(t.text, (t, instr_count(lv, upto - 1)))
            } else {
                m
            },
            _ => m,
        }
    }
}

/// The redefinition diagnostics of the first `upto` lines, in discovery
/// order. The first span of each always points at the original definition.
pub open spec fn redef_errs(lv: Seq<LineV>, upto: int) -> Seq<LabelErrorV>
    decreases upto,
{
    if upto <= 0 || upto > lv.len() {
        seq![]
    } else {
        redef_errs(lv, upto - 1) + (match lv[upto - 1] {
            LineV::Label(t) => if spec_table(lv, upto - 1).contains_key(t.text) {
                seq![
                    LabelErrorV::Redefined {
                        label: t.text,
                        first: (
                            spec_table(lv, upto - 1)[t.text].0.start,
                            spec_table(lv, upto - 1)[t.text].0.end,
                        ),
                        second: (t.start, t.end),
                    },
                ]
            } else {
                seq![]
            },
            _ => seq![],
        })
    }
}

/// The unknown-label diagnostics of the first `upto` lines, in discovery
/// order, checked against the full table: a reference is an error exactly
/// when no line of the whole program defines the name.
pub open spec fn unknown_errs(lv: Seq<LineV>, upto: int) -> Seq<LabelErrorV>
    decreases upto,
{
    if upto <= 0 || upto > lv.len() {
        seq![]
    } else {
        unknown_errs(lv, upto - 1) + (match jump_target(lv[upto - 1]) {
            Some(t) => if !spec_table(lv, lv.len() as int).contains_key(t.text) {
                seq![LabelErrorV::Unknown(t)]
            } else {
                seq![]
            },
            None => seq![],
        })
    }
}

/// Validates and links a parsed program.
///
/// Pass one collects the label table: each name maps to the instruction
/// index current at its first definition (label and error-recovery lines do
/// not occupy an index), and every later definition of a defined name is a
/// `Redefined` diagnostic. Pass two checks every jump's label against the
/// table, yielding an `Unknown` diagnostic for each undefined reference.
/// With any diagnostic at all, the whole aggregated list is returned and no
/// program is produced; otherwise the instruction-only sequence and the
/// table are returned.
pub fn resolve(ast: Vec<AstLine>) -> (r: Result<(Vec<Instr>, LabelTable), Vec<LabelError>>)
    ensures
        ({
            let lv = lines_view(ast@);
            let rerrs = redef_errs(lv, lv.len() as int);
            let uerrs = unknown_errs(lv, lv.len() as int);
            match r {
                Ok((prog, table)) => {
                    &&& rerrs.len() == 0
                    &&& uerrs.len() == 0
                    &&& prog@.map_values(|i: Instr| i@) == instrs_upto(lv, lv.len() as int)
                    &&& table@ == spec_table(lv, lv.len() as int)
                    &&& table.wf()
                },
                Err(errs) => {
                    &&& label_errs_view(errs@) == rerrs + uerrs
                    &&& rerrs.len() + uerrs.len() > 0
                },
            }
        }),
{
    let ghost lv = lines_view(ast@);
    let mut table = LabelTable::new();
    let mut errs: Vec<LabelError> = Vec::new();
    let mut instr_idx: usize = 0;
    let mut i: usize = 0;
    proof {
        assert(label_errs_view(errs@) =~= redef_errs(lv, 0));
    }
    while i < ast.len()
        invariant
            lv == lines_view(ast@),
            i <= ast@.len(),
            lv.len() == ast@.len(),
            table.wf(),
            table@ == spec_table(lv, i as int),
            label_errs_view(errs@) == redef_errs(lv, i as int),
            instr_idx <= i,
            instr_idx == instr_count(lv, i as int),
        decreases ast@.len() - i,
    {
        let ghost previ = i as int;
        let ghost preverrs = errs@;
        proof {
            assert(lv[previ] == ast@[previ]@);
        }
        match &ast[i] {
            AstLine::Label(tok) => {
                match table.first_tok(&tok.inner) {
                    Some(first) => {
                        let e = LabelError::Redefined {
                            label: tok.inner.clone(),
                            first: first.span.start..first.span.end,
                            second: tok.span.start..tok.span.end,
                        };
                        errs.push(e);
                        proof {
                            assert(label_errs_view(errs@) =~= label_errs_view(preverrs).push(
                                e@,
                            ));
                        }
                    },
                    None => {
                        table.insert(tok.clone(), instr_idx);
                    },
                }
            },
            AstLine::Instr(_) => {
                instr_idx = instr_idx + 1;
            },
            AstLine::Error => {},
        }
        i = i + 1;
        proof {
            assert(label_errs_view(errs@) =~= redef_errs(lv, i as int));
        }
    }
    let ghost all_redefs = redef_errs(lv, lv.len() as int);
    i = 0;
    while i < ast.len()
        invariant
            lv == lines_view(ast@),
            i <= ast@.len(),
            lv.len() == ast@.len(),
            table.wf(),
            table@ == spec_table(lv, lv.len() as int),
            label_errs_view(errs@) == all_redefs + unknown_errs(lv, i as int),
        decreases ast@.len() - i,
    {
        let ghost previ = i as int;
        let ghost preverrs = errs@;
        proof {
            assert(lv[previ] == ast@[previ]@);
        }
        match &ast[i] {
            AstLine::Instr(ins) => {
                let target: Option<&Token> = match ins {
                    Instr::Jmp(t) => Some(t),
                    Instr::Jnz(_, t) => Some(t),
                    Instr::Jlz(_, t) => Some(t),
                    _ => None,
                };
                if let Some(t) = target {
                    if !table.contains(&t.inner) {
                        errs.push(LabelError::Unknown(t.clone()));
                        proof {
                            assert(label_errs_view(errs@) =~= label_errs_view(
                                preverrs,
                            ).push(errs@.last()@));
                        }
                    }
                }
            },
            _ => {},
        }
        i = i + 1;
        proof {
            assert(label_errs_view(errs@) =~= all_redefs + unknown_errs(lv, i as int));
        }
    }
    let mut prog: Vec<Instr> = Vec::new();
    i = 0;
    while i < ast.len()
        invariant
            lv == lines_view(ast@),
            i <= ast@.len(),
            lv.len() == ast@.len(),
            prog@.map_values(|x: Instr| x@) == instrs_upto(lv, i as int),
        decreases ast@.len() - i,
    {
        let ghost prevprog = prog@;
        proof {
            assert(lv[i as int] == ast@[i as int]@);
        }
        match &ast[i] {
            AstLine::Instr(ins) => {
                prog.push(ins.clone());
                proof {
                    assert(prog@.map_values(|x: Instr| x@) =~= prevprog.map_values(
                        |x: Instr| x@,
                    ).push(prog@.last()@));
                }
            },
            _ => {},
        }
        i = i + 1;
        proof {
            assert(prog@.map_values(|x: Instr| x@) =~= instrs_upto(lv, i as int));
        }
    }
    if errs.len() == 0 {
        proof {
            assert(label_errs_view(errs@).len() == 0);
        }
        Ok((prog, table))
    } else {
        Err(errs)
    }
}


/// A name is in the table of the first `upto` lines exactly when one of
/// those lines defines it.
pub proof fn lemma_spec_table_dom(lv: Seq<LineV>, upto: int, name: Seq<char>)
    requires
        upto <= lv.len(),
    ensures
        spec_table(lv, upto).contains_key(name) <==> exists|k: int|
            0 <= k < upto && lv[k] is Label && lv[k]->Label_0.text == name,
    decreases upto,
{
    if upto > 0 {
        lemma_spec_table_dom(lv, upto - 1, name);
        if spec_table(lv, upto).contains_key(name) {
            if spec_table(lv, upto - 1).contains_key(name) {
                let k = choose|k: int|
                    0 <= k < upto - 1 && lv[k] is Label && lv[k]->Label_0.text == name;
                assert(0 <= k < upto && lv[k] is Label && lv[k]->Label_0.text == name);
            }
        }
    }
}

/// Law: a first-defined label resolves to the instruction index immediately
/// following its definition in the instruction-only sequence. The table of
/// the first `upto` lines maps the name of the label defined at line `i` to
/// that label's token and the count of instruction lines before line `i`
/// (label and error-recovery lines never occupy an index), and later lines
/// never change the entry.
pub proof fn lemma_label_resolution(lv: Seq<LineV>, i: int, upto: int)
    requires
        0 <= i < upto <= lv.len(),
        lv[i] is Label,
        forall|k: int| 0 <= k < i ==> !(lv[k] is Label && lv[k]->Label_0.text == lv[i]->Label_0.text),
    ensures
        spec_table(lv, upto).contains_key(lv[i]->Label_0.text),
        spec_table(lv, upto)[lv[i]->Label_0.text] == (lv[i]->Label_0, instr_count(lv, i)),
    decreases upto,
{
    let name = lv[i]->Label_0.text;
    if upto == i + 1 {
        lemma_spec_table_dom(lv, i, name);
        assert(!spec_table(lv, i).contains_key(name));
    } else {
        lemma_label_resolution(lv, i, upto - 1);
    }
}

/// Appending lines never moves or changes the redefinition diagnostics
/// already discovered.
proof fn lemma_redef_errs_mono(lv: Seq<LineV>, u1: int, u2: int, e: LabelErrorV)
    requires
        u1 <= u2 <= lv.len(),
        redef_errs(lv, u1).contains(e),
    ensures
        redef_errs(lv, u2).contains(e),
    decreases u2 - u1,
{
    if u1 < u2 {
        lemma_redef_errs_mono(lv, u1, u2 - 1, e);
        let k = choose|k: int| 0 <= k < redef_errs(lv, u2 - 1).len() && #[trigger] redef_errs(
            lv,
            u2 - 1,
        )[k] == e;
        assert(redef_errs(lv, u2)[k] == e);
    }
}

/// As [`lemma_redef_errs_mono`], for unknown-label diagnostics.
proof fn lemma_unknown_errs_mono(lv: Seq<LineV>, u1: int, u2: int, e: LabelErrorV)
    requires
        u1 <= u2 <= lv.len(),
        unknown_errs(lv, u1).contains(e),
    ensures
        unknown_errs(lv, u2).contains(e),
    decreases u2 - u1,
{
    if u1 < u2 {
        lemma_unknown_errs_mono(lv, u1, u2 - 1, e);
        let k = choose|k: int|
            0 <= k < unknown_errs(lv, u2 - 1).len() && #[trigger] unknown_errs(lv, u2 - 1)[k]
                == e;
        assert(unknown_errs(lv, u2)[k] == e);
    }
}

/// Law: every definition of an already-defined name yields a `Redefined`
/// diagnostic whose first span is that of the original definition — never
/// an intermediate one — and whose second span is the later definition's.
/// A third definition of the same name therefore yields a second such
/// diagnostic, again referencing the original.
pub proof fn lemma_redefinition_reported(lv: Seq<LineV>, i: int, j: int)
    requires
        0 <= i < j < lv.len(),
        lv[i] is Label,
        lv[j] is Label,
        lv[i]->Label_0.text == lv[j]->Label_0.text,
        forall|k: int| 0 <= k < i ==> !(lv[k] is Label && lv[k]->Label_0.text == lv[i]->Label_0.text),
    ensures
        redef_errs(lv, lv.len() as int).contains(
            LabelErrorV::Redefined {
                label: lv[j]->Label_0.text,
                first: (lv[i]->Label_0.start, lv[i]->Label_0.end),
                second: (lv[j]->Label_0.start, lv[j]->Label_0.end),
            },
        ),
{
    let t = lv[j]->Label_0;
    lemma_label_resolution(lv, i, j);
    let e = LabelErrorV::Redefined {
        label: t.text,
        first: (lv[i]->Label_0.start, lv[i]->Label_0.end),
        second: (t.start, t.end),
    };
    assert(redef_errs(lv, j + 1)[redef_errs(lv, j).len() as int] == e);
    assert(redef_errs(lv, j + 1).contains(e));
    lemma_redef_errs_mono(lv, j + 1, lv.len() as int, e);
}

/// Law: a jump that names a label no line defines always yields an
/// `Unknown` diagnostic carrying that jump's token, whether or not the
/// jump would ever execute.
pub proof fn lemma_unknown_reported(lv: Seq<LineV>, j: int)
    requires
        0 <= j < lv.len(),
        jump_target(lv[j]) is Some,
        forall|k: int|
            0 <= k < lv.len() ==> !(lv[k] is Label && lv[k]->Label_0.text == jump_target(
                lv[j],
            )->Some_0.text),
    ensures
        unknown_errs(lv, lv.len() as int).contains(
            LabelErrorV::Unknown(jump_target(lv[j])->Some_0),
        ),
{
    let t = jump_target(lv[j])->Some_0;
    lemma_spec_table_dom(lv, lv.len() as int, t.text);
    assert(!spec_table(lv, lv.len() as int).contains_key(t.text));
    let e = LabelErrorV::Unknown(t);
    assert(unknown_errs(lv, j + 1)[unknown_errs(lv, j).len() as int] == e);
    assert(unknown_errs(lv, j + 1).contains(e));
    lemma_unknown_errs_mono(lv, j + 1, lv.len() as int, e);
}

} // verus!
