//! The execution engine: an explicit state machine over registers, tape,
//! cursor and instruction pointer.
//!
//! The machine itself performs no input or output. [`State::step`] executes
//! one instruction and reports any exchange with the outside world as a
//! [`Step`] value: text that must be printed, or the need for a line of
//! input (which the driver hands back through [`State::feed_line`]).
//! [`State::run`] pumps steps until such an exchange, a fatal error, or the
//! instruction pointer running off the end of the program.

use crate::instrs::{Instr, Reg, Val};
use crate::parse::{chars_to_string, instr_target, LabelTable, TokenV, InstrV, ValV};
use vstd::prelude::*;

verus! {

/// A fatal runtime error: the run aborts.
#[derive(Copy, Clone, Debug, PartialEq, Eq, Structural)]
pub enum RunError {
    /// `div` by an operand that evaluates to 0.
    DivByZero,
    /// `ret` on a cell that is not a valid non-negative instruction index.
    RetInvalid,
    /// The cursor no longer fits the machine's addressable tape. The tape
    /// is conceptually infinite; an index must still fit in `usize`.
    CursorOverflow,
}

/// What one step of the machine did, and what the driver must now do.
#[derive(Debug)]
pub enum Step {
    /// The instruction pointer ran off the end of the program: halt.
    Halted,
    /// An instruction ran; nothing is needed from the outside.
    Ran,
    /// `out` produced this exact text; the driver prints it.
    Printed(String),
    /// `inp` found the input buffer exhausted; the driver reads one line
    /// and hands it to [`State::feed_line`]. The machine is unchanged.
    InputNeeded,
    /// A fatal runtime error; the machine stops where it stands.
    Aborted(RunError),
}

/// What feeding a line of input did.
#[derive(Copy, Clone, Debug, PartialEq, Eq, Structural)]
pub enum Feed {
    /// The pending `inp` completed (a newline code was written).
    Done,
    /// The buffer is refilled; the next [`State::step`] delivers a byte.
    Ready,
    /// The line was empty and nothing was pending: read another line.
    Again,
}

/// The mathematical value of a [`State`]: the machine configuration.
pub struct VmV {
    pub x: i64,
    pub acc: i64,
    pub tape: Seq<i64>,
    pub cursor: int,
    pub ip: int,
    pub ibuf: Seq<u8>,
    pub icur: int,
}

/// The tape after an access at `c`: extended with zero-filled cells up to
/// and including `c` if it was shorter.
pub open spec fn grown(t: Seq<i64>, c: int) -> Seq<i64> {
    if c < t.len() {
        t
    } else {
        t + Seq::new((c + 1 - t.len()) as nat, |i: int| 0i64)
    }
}

/// The tape after writing `v` at `c` (growing first).
pub open spec fn stored(t: Seq<i64>, c: int, v: i64) -> Seq<i64> {
    grown(t, c).update(c, v)
}

/// The value an operand evaluates to: the immediate, or the `x` register.
pub open spec fn spec_val_of(x: i64, v: ValV) -> int {
    match v {
        ValV::Num(n) => n,
        ValV::X => x as int,
    }
}

/// Whether `n` is a Unicode scalar value (a code point that is not a
/// surrogate); only these may be printed by `out`.
pub open spec fn is_scalar(n: int) -> bool {
    (0 <= n && n <= 0xD7FF) || (0xE000 <= n && n <= 0x10FFFF)
}

/// The decimal digits of `n` (for `n >= 0`), most significant first.
pub open spec fn dec_rep(n: int) -> Seq<char>
    decreases n,
{
    if n < 10 {
        seq![digit_char(n)]
    } else {
        dec_rep(n / 10).push(digit_char(n % 10))
    }
}

/// The character for the decimal digit `d`.
pub open spec fn digit_char(d: int) -> char {
    if d == 0 { '0' }
    else if d == 1 { '1' }
    else if d == 2 { '2' }
    else if d == 3 { '3' }
    else if d == 4 { '4' }
    else if d == 5 { '5' }
    else if d == 6 { '6' }
    else if d == 7 { '7' }
    else if d == 8 { '8' }
    else { '9' }
}

/// The exact text `out` emits for cell value `n` printed as character `c`:
/// `(N: C)` with no added whitespace.
pub open spec fn out_text(n: int, c: char) -> Seq<char> {
    seq!['('] + dec_rep(n) + seq![':', ' ', c, ')']
}

/// One step of the machine: how the configuration `s1` and the report `r`
/// follow from the configuration `s0` under `prog` and `labels`. This is
/// the whole semantics of the instruction set.
pub open spec fn vm_step(
    prog: Seq<InstrV>,
    labels: Map<Seq<char>, (TokenV, nat)>,
    s0: VmV,
    s1: VmV,
    r: Step,
) -> bool {
    if !(0 <= s0.ip < prog.len()) {
        r == Step::Halted && s1 == s0
    } else {
        match prog[s0.ip] {
            InstrV::Gol => r == Step::Ran && s1 == VmV {
                cursor: if s0.cursor > 0 { s0.cursor - 1 } else { 0 },
                ip: s0.ip + 1,
                ..s0
            },
            InstrV::Gor => if s0.cursor == usize::MAX - 1 {
                r == Step::Aborted(RunError::CursorOverflow) && s1 == s0
            } else {
                r == Step::Ran && s1 == VmV { cursor: s0.cursor + 1, ip: s0.ip + 1, ..s0 }
            },
            InstrV::Get(rg) => r == Step::Ran && s1 == VmV {
                tape: stored(s0.tape, s0.cursor, if rg is X { s0.x } else { s0.acc }),
                ip: s0.ip + 1,
                ..s0
            },
            InstrV::Put(rg) => {
                let cell = grown(s0.tape, s0.cursor)[s0.cursor];
                r == Step::Ran && s1 == (if rg is X {
                    VmV { x: cell, tape: grown(s0.tape, s0.cursor), ip: s0.ip + 1, ..s0 }
                } else {
                    VmV { acc: cell, tape: grown(s0.tape, s0.cursor), ip: s0.ip + 1, ..s0 }
                })
            },
            InstrV::Jmp(t) => r == Step::Ran && s1 == VmV {
                ip: labels[t.text].1 as int,
                ..s0
            },
            InstrV::Jnz(rg, t) => {
                let rv = if rg is X { s0.x } else { s0.acc };
                r == Step::Ran && s1 == (if rv != 0 {
                    VmV { ip: labels[t.text].1 as int, ..s0 }
                } else {
                    VmV { ip: s0.ip + 1, ..s0 }
                })
            },
            InstrV::Jlz(rg, t) => {
                let rv = if rg is X { s0.x } else { s0.acc };
                r == Step::Ran && s1 == (if rv < 0 {
                    VmV { ip: labels[t.text].1 as int, ..s0 }
                } else {
                    VmV { ip: s0.ip + 1, ..s0 }
                })
            },
            InstrV::Sav => r == Step::Ran && s1 == VmV {
                tape: stored(s0.tape, s0.cursor, s0.ip as i64),
                ip: s0.ip + 1,
                ..s0
            },
            InstrV::Ret => {
                let cell = grown(s0.tape, s0.cursor)[s0.cursor];
                if cell < 0 || cell > usize::MAX as int {
                    r == Step::Aborted(RunError::RetInvalid) && s1 == VmV {
                        tape: grown(s0.tape, s0.cursor),
                        ..s0
                    }
                } else {
                    r == Step::Ran && s1 == VmV {
                        tape: grown(s0.tape, s0.cursor),
                        ip: cell as int,
                        ..s0
                    }
                }
            },
            InstrV::Inp => if s0.icur == s0.ibuf.len() {
                r == Step::InputNeeded && s1 == s0
            } else {
                r == Step::Ran && s1 == VmV {
                    tape: stored(s0.tape, s0.cursor, s0.ibuf[s0.icur] as i64),
                    icur: s0.icur + 1,
                    ip: s0.ip + 1,
                    ..s0
                }
            },
            InstrV::Out => {
                let cell = grown(s0.tape, s0.cursor)[s0.cursor];
                &&& s1 == VmV { tape: grown(s0.tape, s0.cursor), ip: s0.ip + 1, ..s0 }
                &&& if is_scalar(cell as int) {
                    match r {
                        Step::Printed(out) => exists|c: char|
                            c as u32 == cell && out@ == out_text(cell as int, c),
                        _ => false,
                    }
                } else {
                    r == Step::Ran
                }
            },
            InstrV::Sto(v) => r == Step::Ran && s1 == VmV {
                tape: stored(s0.tape, s0.cursor, spec_val_of(s0.x, v) as i64),
                ip: s0.ip + 1,
                ..s0
            },
            InstrV::Add(v) => {
                let cell = grown(s0.tape, s0.cursor)[s0.cursor];
                r == Step::Ran && s1 == VmV {
                    tape: stored(
                        s0.tape,
                        s0.cursor,
                        vstd::wrapping::i64_specs::wrapping_add(
                            cell,
                            spec_val_of(s0.x, v) as i64,
                        ),
                    ),
                    ip: s0.ip + 1,
                    ..s0
                }
            },
            InstrV::Mul(v) => {
                let cell = grown(s0.tape, s0.cursor)[s0.cursor];
                r == Step::Ran && s1 == VmV {
                    tape: stored(
                        s0.tape,
                        s0.cursor,
                        vstd::wrapping::i64_specs::wrapping_mul(
                            cell,
                            spec_val_of(s0.x, v) as i64,
                        ),
                    ),
                    ip: s0.ip + 1,
                    ..s0
                }
            },
            InstrV::Div(v) => {
                let cell = grown(s0.tape, s0.cursor)[s0.cursor];
                let d = spec_val_of(s0.x, v);
                if d == 0 {
                    r == Step::Aborted(RunError::DivByZero) && s1 == VmV {
                        tape: grown(s0.tape, s0.cursor),
                        ..s0
                    }
                } else {
                    r == Step::Ran && s1 == VmV {
                        tape: stored(s0.tape, s0.cursor, spec_div_wrapped(cell as int, d) as i64),
                        ip: s0.ip + 1,
                        ..s0
                    }
                }
            },
            InstrV::Dec => r == Step::Ran && s1 == VmV {
                acc: vstd::wrapping::i64_specs::wrapping_sub(s0.acc, 1),
                ip: s0.ip + 1,
                ..s0
            },
        }
    }
}

/// The magnitude of `a`.
pub open spec fn abs_int(a: int) -> int {
    if a < 0 { -a } else { a }
}

/// Truncating (toward zero) integer division, `b != 0`.
pub open spec fn spec_tdiv(a: int, b: int) -> int {
    if (a < 0) == (b < 0) {
        abs_int(a) / abs_int(b)
    } else {
        -(abs_int(a) / abs_int(b))
    }
}

/// Truncating division as the machine performs it on 64-bit cells: the one
/// unrepresentable quotient wraps.
pub open spec fn spec_div_wrapped(a: int, b: int) -> int {
    if a == i64::MIN && b == -1 {
        i64::MIN as int
    } else {
        spec_tdiv(a, b)
    }
}

/// `n` consecutive machine steps, all of which ran without any exchange
/// with the outside world.
pub open spec fn vm_runs(
    prog: Seq<InstrV>,
    labels: Map<Seq<char>, (TokenV, nat)>,
    s0: VmV,
    s1: VmV,
    n: nat,
) -> bool
    decreases n,
{
    if n == 0 {
        s1 == s0
    } else {
        exists|mid: VmV| vm_step(prog, labels, s0, mid, Step::Ran) && vm_runs(
            prog,
            labels,
            mid,
            s1,
            (n - 1) as nat,
        )
    }
}

/// A quiet run followed by one more quiet step is a quiet run.
proof fn lemma_vm_runs_snoc(
    prog: Seq<InstrV>,
    labels: Map<Seq<char>, (TokenV, nat)>,
    s0: VmV,
    mid: VmV,
    s1: VmV,
    n: nat,
)
    requires
        vm_runs(prog, labels, s0, mid, n),
        vm_step(prog, labels, mid, s1, Step::Ran),
    ensures
        vm_runs(prog, labels, s0, s1, n + 1),
    decreases n,
{
    if n == 0 {
        assert(vm_runs(prog, labels, s1, s1, 0));
    } else {
        let m2 = choose|m2: VmV| vm_step(prog, labels, s0, m2, Step::Ran) && vm_runs(
            prog,
            labels,
            m2,
            mid,
            (n - 1) as nat,
        );
        lemma_vm_runs_snoc(prog, labels, m2, mid, s1, (n - 1) as nat);
    }
}

/// The machine: registers, tape, cursor, the resolved program with its
/// label table, the instruction pointer, and the line-buffered input state.
pub struct State {
    pub x: i64,
    pub acc: i64,
    pub tape: Vec<i64>,
    pub cursor: usize,
    pub program: Vec<Instr>,
    pub labels: LabelTable,
    pub instr_ptr: usize,
    pub input_buf: Vec<u8>,
    pub input_cursor: usize,
}

/// Grows the tape so that `cursor` is addressable, filling with zeros.
fn tape_grow(tape: &mut Vec<i64>, cursor: usize)
    requires
        cursor < usize::MAX,
    ensures
        final(tape)@ == grown(old(tape)@, cursor as int),
        cursor < final(tape)@.len(),
{
    let ghost t0 = tape@;
    if tape.len() > cursor {
        proof {
            assert(tape@ =~= grown(t0, cursor as int));
        }
        return;
    }
    while tape.len() <= cursor
        invariant
            cursor < usize::MAX,
            t0.len() <= tape@.len(),
            tape@.subrange(0, t0.len() as int) == t0,
            tape@.len() <= cursor + 1,
            forall|i: int| t0.len() <= i < tape@.len() ==> tape@[i] == 0i64,
        decreases cursor + 1 - tape@.len(),
    {
        proof {
            assert(tape@.subrange(0, t0.len() as int) =~= tape@.push(0i64).subrange(
                0,
                t0.len() as int,
            ));
        }
        tape.push(0);
    }
    proof {
        assert(tape@ =~= grown(t0, cursor as int));
    }
}

/// Reads the cell at `cursor`, growing the tape first.
fn tape_read(tape: &mut Vec<i64>, cursor: usize) -> (r: i64)
    requires
        cursor < usize::MAX,
    ensures
        final(tape)@ == grown(old(tape)@, cursor as int),
        r == grown(old(tape)@, cursor as int)[cursor as int],
{
    tape_grow(tape, cursor);
    tape[cursor]
}

/// Writes `v` to the cell at `cursor`, growing the tape first.
fn tape_write(tape: &mut Vec<i64>, cursor: usize, v: i64)
    requires
        cursor < usize::MAX,
    ensures
        final(tape)@ == stored(old(tape)@, cursor as int, v),
{
    tape_grow(tape, cursor);
    tape.set(cursor, v);
}

/// Relies on `char::from_u32` from core: `Some` exactly for Unicode scalar
/// values (code points outside the surrogate range and at most 0x10FFFF),
/// and the returned character has exactly the given code.
#[verifier::external_body]
fn char_from_u32(n: u32) -> (r: Option<char>)
    ensures
        match r {
            Some(c) => is_scalar(n as int) && c as u32 == n,
            None => !is_scalar(n as int),
        },
{
    char::from_u32(n)
}

/// Writes the decimal digits of `n` after what `out` already holds.
fn push_dec(n: u32, out: &mut Vec<char>)
    ensures
        final(out)@ == old(out)@ + dec_rep(n as int),
    decreases n,
{
    if n < 10 {
        let d = digit_char_x(n);
        out.push(d);
        proof {
            assert(final(out)@ =~= old(out)@ + dec_rep(n as int));
        }
    } else {
        push_dec(n / 10, out);
        let d = digit_char_x(n % 10);
        out.push(d);
        proof {
            assert(final(out)@ =~= old(out)@ + dec_rep(n as int));
        }
    }
}

/// The character for digit `d`.
fn digit_char_x(d: u32) -> (r: char)
    requires
        d <= 9,
    ensures
        r == digit_char(d as int),
{
    if d == 0 { '0' }
    else if d == 1 { '1' }
    else if d == 2 { '2' }
    else if d == 3 { '3' }
    else if d == 4 { '4' }
    else if d == 5 { '5' }
    else if d == 6 { '6' }
    else if d == 7 { '7' }
    else if d == 8 { '8' }
    else { '9' }
}

/// The exact text `out` emits for the cell value `n` and its character `c`.
fn render_out(n: u32, c: char) -> (r: String)
    ensures
        r@ == out_text(n as int, c),
{
    let mut v: Vec<char> = Vec::new();
    v.push('(');
    push_dec(n, &mut v);
    v.push(':');
    v.push(' ');
    v.push(c);
    v.push(')');
    proof {
        assert(v@ =~= out_text(n as int, c));
    }
    chars_to_string(&v)
}

impl View for State {
    type V = VmV;

    open spec fn view(&self) -> VmV {
        VmV {
            x: self.x,
            acc: self.acc,
            tape: self.tape@,
            cursor: self.cursor as int,
            ip: self.instr_ptr as int,
            ibuf: self.input_buf@,
            icur: self.input_cursor as int,
        }
    }
}

impl State {
    /// The program as mathematical instruction values.
    pub open spec fn progv(&self) -> Seq<InstrV> {
        self.program@.map_values(|i: Instr| i@)
    }

    /// Well-formedness: the machine's bookkeeping is consistent and every
    /// jump in the program names a label of the table. Constructed from a
    /// resolved program, this holds and every step preserves it.
    pub open spec fn wf(&self) -> bool {
        &&& self.cursor < usize::MAX
        &&& self.input_cursor <= self.input_buf@.len()
        &&& self.program@.len() <= i64::MAX
        &&& self.labels.wf()
        &&& forall|i: int|
            0 <= i < self.progv().len() ==> match instr_target(#[trigger] self.progv()[i]) {
                Some(t) => self.labels@.contains_key(t.text),
                None => true,
            }
    }

    /// A fresh machine over a resolved program: everything zeroed, the
    /// tape empty, the input buffer empty.
    pub fn new(program: Vec<Instr>, labels: LabelTable) -> (r: Self)
        requires
            program@.len() <= i64::MAX,
        ensures
            r@ == (VmV {
                x: 0,
                acc: 0,
                tape: Seq::<i64>::empty(),
                cursor: 0,
                ip: 0,
                ibuf: Seq::<u8>::empty(),
                icur: 0,
            }),
            r.program == program,
            r.labels == labels,
            (labels.wf() && forall|i: int|
                0 <= i < r.progv().len() ==> match instr_target(#[trigger] r.progv()[i]) {
                    Some(t) => labels@.contains_key(t.text),
                    None => true,
                }) ==> r.wf(),
    {
        State {
            x: 0,
            acc: 0,
            tape: Vec::new(),
            cursor: 0,
            program,
            labels,
            instr_ptr: 0,
            input_buf: Vec::new(),
            input_cursor: 0,
        }
    }

    /// Executes one instruction (or reports that the machine has halted,
    /// or that `inp` needs a line of input first).
    pub fn step(&mut self) -> (r: Step)
        requires
            old(self).wf(),
        ensures
            final(self).wf(),
            final(self).program == old(self).program,
            final(self).labels == old(self).labels,
            vm_step(old(self).progv(), old(self).labels@, old(self)@, final(self)@, r),
    {
        if self.instr_ptr >= self.program.len() {
            return Step::Halted;
        }
        let ip = self.instr_ptr;
        let cursor = self.cursor;
        proof {
            assert(old(self).progv()[ip as int] == self.program@[ip as int]@);
        }
        match &self.program[ip] {
            Instr::Gol => {
                self.cursor = if cursor > 0 { cursor - 1 } else { 0 };
                self.instr_ptr = ip + 1;
                Step::Ran
            },
            Instr::Gor => {
                if cursor == usize::MAX - 1 {
                    return Step::Aborted(RunError::CursorOverflow);
                }
                self.cursor = cursor + 1;
                self.instr_ptr = ip + 1;
                Step::Ran
            },
            Instr::Get(rg) => {
                let v = match rg {
                    Reg::X => self.x,
                    Reg::Acc => self.acc,
                };
                tape_write(&mut self.tape, cursor, v);
                self.instr_ptr = ip + 1;
                Step::Ran
            },
            Instr::Put(rg) => {
                let v = tape_read(&mut self.tape, cursor);
                match rg {
                    Reg::X => {
                        self.x = v;
                    },
                    Reg::Acc => {
                        self.acc = v;
                    },
                }
                self.instr_ptr = ip + 1;
                Step::Ran
            },
            Instr::Jmp(t) => {
                match self.labels.get(&t.inner) {
                    Some(idx) => {
                        self.instr_ptr = idx;
                        Step::Ran
                    },
                    None => {
                        proof {
                            assert(false);
                        }
                        Step::Halted
                    },
                }
            },
            Instr::Jnz(rg, t) => {
                let rv = match rg {
                    Reg::X => self.x,
                    Reg::Acc => self.acc,
                };
                if rv != 0 {
                    match self.labels.get(&t.inner) {
                        Some(idx) => {
                            self.instr_ptr = idx;
                            Step::Ran
                        },
                        None => {
                            proof {
                                assert(false);
                            }
                            Step::Halted
                        },
                    }
                } else {
                    self.instr_ptr = ip + 1;
                    Step::Ran
                }
            },
            Instr::Jlz(rg, t) => {
                let rv = match rg {
                    Reg::X => self.x,
                    Reg::Acc => self.acc,
                };
                if rv < 0 {
                    match self.labels.get(&t.inner) {
                        Some(idx) => {
                            self.instr_ptr = idx;
                            Step::Ran
                        },
                        None => {
                            proof {
                                assert(false);
                            }
                            Step::Halted
                        },
                    }
                } else {
                    self.instr_ptr = ip + 1;
                    Step::Ran
                }
            },
            Instr::Sav => {
                tape_write(&mut self.tape, cursor, ip as i64);
                self.instr_ptr = ip + 1;
                Step::Ran
            },
            Instr::Ret => {
                let cell = tape_read(&mut self.tape, cursor);
                if cell < 0 {
                    return Step::Aborted(RunError::RetInvalid);
                }
                if cell as u64 > usize::MAX as u64 {
                    return Step::Aborted(RunError::RetInvalid);
                }
                self.instr_ptr = cell as usize;
                Step::Ran
            },
            Instr::Inp => {
                if self.input_cursor == self.input_buf.len() {
                    return Step::InputNeeded;
                }
                let b = self.input_buf[self.input_cursor];
                tape_write(&mut self.tape, cursor, b as i64);
                self.input_cursor = self.input_cursor + 1;
                self.instr_ptr = ip + 1;
                Step::Ran
            },
            Instr::Out => {
                let cell = tape_read(&mut self.tape, cursor);
                self.instr_ptr = ip + 1;
                if 0 <= cell && cell <= u32::MAX as i64 {
                    match char_from_u32(cell as u32) {
                        Some(c) => Step::Printed(render_out(cell as u32, c)),
                        None => Step::Ran,
                    }
                } else {
                    Step::Ran
                }
            },
            Instr::Sto(v) => {
                let value = match v {
                    Val::Num(n) => *n,
                    Val::X => self.x,
                };
                tape_write(&mut self.tape, cursor, value);
                self.instr_ptr = ip + 1;
                Step::Ran
            },
            Instr::Add(v) => {
                let value = match v {
                    Val::Num(n) => *n,
                    Val::X => self.x,
                };
                let cell = tape_read(&mut self.tape, cursor);
                tape_write(&mut self.tape, cursor, cell.wrapping_add(value));
                self.instr_ptr = ip + 1;
                Step::Ran
            },
            Instr::Mul(v) => {
                let value = match v {
                    Val::Num(n) => *n,
                    Val::X => self.x,
                };
                let cell = tape_read(&mut self.tape, cursor);
                tape_write(&mut self.tape, cursor, cell.wrapping_mul(value));
                self.instr_ptr = ip + 1;
                Step::Ran
            },
            Instr::Div(v) => {
                let value = match v {
                    Val::Num(n) => *n,
                    Val::X => self.x,
                };
                let cell = tape_read(&mut self.tape, cursor);
                if value == 0 {
                    return Step::Aborted(RunError::DivByZero);
                }
                tape_write(&mut self.tape, cursor, div_wrapping(cell, value));
                self.instr_ptr = ip + 1;
                Step::Ran
            },
            Instr::Dec => {
                self.acc = self.acc.wrapping_sub(1);
                self.instr_ptr = ip + 1;
                Step::Ran
            },
        }
    }

    /// Pumps [`State::step`] until the machine halts, needs the outside
    /// world, aborts, or has taken `fuel` quiet steps. A program may
    /// legitimately run forever, so the pump takes a step budget;
    /// [`Step::Ran`] reports that the budget ran out with the machine still
    /// quiet, and the caller may simply pump again.
    pub fn run(&mut self, fuel: u64) -> (r: Step)
        requires
            old(self).wf(),
        ensures
            final(self).wf(),
            final(self).program == old(self).program,
            final(self).labels == old(self).labels,
            r is Ran ==> vm_runs(
                old(self).progv(),
                old(self).labels@,
                old(self)@,
                final(self)@,
                fuel as nat,
            ),
            !(r is Ran) ==> exists|n: nat, mid: VmV|
                n <= fuel && vm_runs(old(self).progv(), old(self).labels@, old(self)@, mid, n)
                    && vm_step(old(self).progv(), old(self).labels@, mid, final(self)@, r),
    {
        let ghost prog = old(self).progv();
        let ghost labels = old(self).labels@;
        let ghost start = old(self)@;
        let mut left: u64 = fuel;
        while left > 0
            invariant
                self.wf(),
                self.program == old(self).program,
                self.labels == old(self).labels,
                prog == old(self).progv(),
                labels == old(self).labels@,
                start == old(self)@,
                self.progv() == prog,
                self.labels@ == labels,
                left <= fuel,
                vm_runs(prog, labels, start, self@, (fuel - left) as nat),
            decreases left,
        {
            let ghost pre = self@;
            let s = self.step();
            match s {
                Step::Ran => {
                    proof {
                        lemma_vm_runs_snoc(prog, labels, start, pre, self@, (fuel - left) as nat);
                    }
                },
                _ => {
                    proof {
                        let n0 = (fuel - left) as nat;
                        assert(vm_runs(old(self).progv(), old(self).labels@, old(self)@, pre, n0));
                        assert(vm_step(old(self).progv(), old(self).labels@, pre, self@, s));
                        assert(exists|n: nat, mid: VmV|
                            n <= fuel && vm_runs(
                                old(self).progv(),
                                old(self).labels@,
                                old(self)@,
                                mid,
                                n,
                            ) && vm_step(old(self).progv(), old(self).labels@, mid, self@, s)) by {
                            assert(n0 <= fuel && vm_runs(
                                old(self).progv(),
                                old(self).labels@,
                                old(self)@,
                                pre,
                                n0,
                            ) && vm_step(old(self).progv(), old(self).labels@, pre, self@, s));
                        }
                    }
                    return s;
                },
            }
            left = left - 1;
        }
        Step::Ran
    }

    /// Hands the machine the line of input it asked for (after
    /// [`State::step`] returned [`Step::InputNeeded`]): exactly the
    /// original refill rule. If bytes of an earlier line had been consumed,
    /// the pending `inp` completes by writing the newline code into the
    /// cell at the cursor; otherwise the buffer is refilled and the next
    /// step delivers its first byte — unless the line is empty, in which
    /// case another line must be read and fed.
    pub fn feed_line(&mut self, line: Vec<u8>) -> (r: Feed)
        requires
            old(self).wf(),
            old(self).input_cursor == old(self).input_buf@.len(),
            old(self).instr_ptr < old(self).program@.len(),
        ensures
            final(self).wf(),
            final(self).program == old(self).program,
            final(self).labels == old(self).labels,
            ({
                let s0 = old(self)@;
                let s1 = final(self)@;
                if s0.icur != 0 {
                    r == Feed::Done && s1 == VmV {
                        tape: stored(s0.tape, s0.cursor, 10),
                        ibuf: line@,
                        icur: 0,
                        ip: s0.ip + 1,
                        ..s0
                    }
                } else if line@.len() == 0 {
                    r == Feed::Again && s1 == VmV { ibuf: line@, ..s0 }
                } else {
                    r == Feed::Ready && s1 == VmV { ibuf: line@, ..s0 }
                }
            }),
    {
        if self.input_cursor != 0 {
            let cursor = self.cursor;
            tape_write(&mut self.tape, cursor, 10);
            self.input_buf = line;
            self.input_cursor = 0;
            let n = self.program.len();
            proof {
                assert(self.instr_ptr < n);
            }
            self.instr_ptr = self.instr_ptr + 1;
            Feed::Done
        } else {
            let empty = line.len() == 0;
            self.input_buf = line;
            if empty {
                Feed::Again
            } else {
                Feed::Ready
            }
        }
    }
}

/// Truncating 64-bit division as the machine performs it: the quotient of
/// the magnitudes with the sign of the true quotient, the one
/// unrepresentable case wrapping.
fn div_wrapping(a: i64, b: i64) -> (r: i64)
    requires
        b != 0,
    ensures
        r as int == spec_div_wrapped(a as int, b as int),
{
    if a == i64::MIN && b == -1 {
        return i64::MIN;
    }
    let ua = abs_u64(a);
    let ub = abs_u64(b);
    let q = ua / ub;
    proof {
        vstd::arithmetic::div_mod::lemma_fundamental_div_mod(ua as int, ub as int);
        assert(q * ub <= ua) by (nonlinear_arith)
            requires
                ua as int == ub as int * (q as int) + (ua as int % ub as int),
                0 <= ua as int % ub as int,
        ;
        assert(q <= q * ub) by (nonlinear_arith)
            requires
                ub >= 1,
                q >= 0,
        ;
        if q >= 0x8000_0000_0000_0000u64 {
            assert(ua == 0x8000_0000_0000_0000u64);
            assert(q == 0x8000_0000_0000_0000u64);
            assert(ub == 1) by (nonlinear_arith)
                requires
                    ua as int == ub as int * (q as int) + (ua as int % ub as int),
                    0 <= ua as int % ub as int,
                    q == 0x8000_0000_0000_0000u64,
                    ua == 0x8000_0000_0000_0000u64,
                    ub >= 1,
            ;
            assert(a == i64::MIN);
        }
    }
    if (a < 0) == (b < 0) {
        proof {
            if q > i64::MAX as u64 {
                assert(a == i64::MIN && b == -1);
                assert(false);
            }
        }
        q as i64
    } else {
        if q >= 0x8000_0000_0000_0000u64 {
            proof {
                assert(a == i64::MIN && b == 1);
            }
            i64::MIN
        } else {
            -(q as i64)
        }
    }
}

/// The magnitude of a 64-bit value, exactly representable unsigned.
fn abs_u64(a: i64) -> (r: u64)
    ensures
        r as int == abs_int(a as int),
{
    if a == i64::MIN {
        0x8000_0000_0000_0000u64
    } else if a < 0 {
        (-a) as u64
    } else {
        a as u64
    }
}


/// Law: the first access to a tape cell at or past the end extends the
/// tape to exactly one cell past it, the new cells (the accessed one
/// included) read 0, and the cells already written are kept.
pub proof fn lemma_grown(t: Seq<i64>, k: int)
    requires
        0 <= k,
        t.len() <= k,
    ensures
        grown(t, k).len() == k + 1,
        forall|j: int| t.len() <= j <= k ==> grown(t, k)[j] == 0i64,
        forall|j: int| 0 <= j < t.len() ==> grown(t, k)[j] == t[j],
{
}

impl State {
    /// Whether the machine is well-formed, decided at run time so that an
    /// unverified caller can test it before stepping.
    pub fn wf_check(&self) -> (r: bool)
        ensures
            r == self.wf(),
    {
        if !(self.cursor < usize::MAX) {
            return false;
        }
        if self.input_cursor > self.input_buf.len() {
            return false;
        }
        if self.program.len() as u64 > i64::MAX as u64 {
            return false;
        }
        if !self.labels.check_unique() {
            return false;
        }
        let n = self.program.len();
        let mut i: usize = 0;
        while i < n
            invariant
                n == self.program@.len(),
                i <= n,
                self.labels.wf(),
                forall|k: int|
                    0 <= k < i ==> match instr_target(#[trigger] self.progv()[k]) {
                        Some(t) => self.labels@.contains_key(t.text),
                        None => true,
                    },
            decreases n - i,
        {
            proof {
                assert(self.progv()[i as int] == self.program@[i as int]@);
            }
            let target: Option<&crate::parse::Token> = match &self.program[i] {
                Instr::Jmp(t) => Some(t),
                Instr::Jnz(_, t) => Some(t),
                Instr::Jlz(_, t) => Some(t),
                _ => None,
            };
            if let Some(t) = target {
                if !self.labels.contains(&t.inner) {
                    return false;
                }
            }
            i = i + 1;
        }
        true
    }
}

} // verus!
