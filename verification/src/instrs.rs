//! The instruction model: registers, operand values, and the opcode set.

use crate::parse::Token;
use vstd::prelude::*;

verus! {

/// One of the two scalar registers of the machine.
#[derive(Copy, Clone, Debug, PartialEq, Eq, Structural)]
pub enum Reg {
    /// The general-purpose register.
    X,
    /// The register dedicated to the `dec` opcode.
    Acc,
}

/// An operand that is either a signed 64-bit immediate or the `x` register.
#[derive(Copy, Clone, Debug, PartialEq, Eq, Structural)]
pub enum Val {
    Num(i64),
    X,
}

/// A single instruction. Control-flow instructions hold the label token
/// they name; the resolver only checks that the label exists, and the
/// execution engine looks the label up at jump time.
#[derive(Debug)]
pub enum Instr {
    /// Move the cursor left; at the start of the tape, do nothing.
    Gol,
    /// Move the cursor right.
    Gor,
    /// Copy the given register into the cell at the cursor.
    Get(Reg),
    /// Copy the cell at the cursor into the given register.
    Put(Reg),
    /// Unconditionally move the instruction pointer to the given label.
    Jmp(Token),
    /// Jump to the label if the given register is not 0.
    Jnz(Reg, Token),
    /// Jump to the label if the given register is less than 0.
    Jlz(Reg, Token),
    /// Store the current instruction pointer in the cell at the cursor.
    Sav,
    /// Set the instruction pointer to the cell at the cursor.
    Ret,
    /// Read one byte of input into the cell at the cursor.
    Inp,
    /// If the cell at the cursor is a Unicode scalar value, print it as
    /// `(N: C)`. Any other value is skipped silently: no output, no error,
    /// and no register is touched.
    Out,
    /// Set the cell at the cursor to the given value.
    Sto(Val),
    /// Add the given value to the cell at the cursor.
    Add(Val),
    /// Multiply the cell at the cursor by the given value.
    Mul(Val),
    /// Divide (truncating) the cell at the cursor by the given value.
    Div(Val),
    /// Decrement `acc`.
    Dec,
}

impl Clone for Instr {
    fn clone(&self) -> (r: Self)
        ensures
            r@ == self@,
    {
        match self {
            Instr::Gol => Instr::Gol,
            Instr::Gor => Instr::Gor,
            Instr::Get(r) => Instr::Get(*r),
            Instr::Put(r) => Instr::Put(*r),
            Instr::Jmp(t) => Instr::Jmp(t.clone()),
            Instr::Jnz(r, t) => Instr::Jnz(*r, t.clone()),
            Instr::Jlz(r, t) => Instr::Jlz(*r, t.clone()),
            Instr::Sav => Instr::Sav,
            Instr::Ret => Instr::Ret,
            Instr::Inp => Instr::Inp,
            Instr::Out => Instr::Out,
            Instr::Sto(v) => Instr::Sto(*v),
            Instr::Add(v) => Instr::Add(*v),
            Instr::Mul(v) => Instr::Mul(*v),
            Instr::Div(v) => Instr::Div(*v),
            Instr::Dec => Instr::Dec,
        }
    }
}

} // verus!
