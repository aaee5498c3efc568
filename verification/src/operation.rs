//! The decoded instruction set of the machine.

use vstd::prelude::*;

verus! {

/// One decoded machine instruction.
#[derive(Debug, Clone, Copy, PartialEq, Eq, Structural)]
pub enum Operation {
    /// Builds a fresh structure on the heap and stores its pointer in the
    /// register: identifier, arity, register.
    PutStructure(usize, usize, usize),
    /// Pushes a fresh variable and stores it in the register.
    SetVariable(usize),
    /// Pushes a copy of the register's cell.
    SetValue(usize),
    /// Matches a structure against the dereferenced register, switching to
    /// read mode, or builds one for an unbound variable, switching to write
    /// mode: identifier, arity, register.
    GetStructure(usize, usize, usize),
    /// Read mode: copies the cell under the structure cursor into the
    /// register. Write mode: pushes a fresh variable into the register.
    UnifyVariable(usize),
    /// Read mode: unifies the register with the structure cursor. Write
    /// mode: pushes a copy of the register's cell.
    UnifyValue(usize),
}

impl Operation {
    /// The number of machine words to advance past this instruction: the
    /// opcode word plus one word per operand.
    pub fn advance(&self) -> (r: usize)
        ensures
            r == self.spec_advance(),
    {
        match self {
            Operation::PutStructure(_, _, _) => 4,
            Operation::SetVariable(_) => 2,
            Operation::SetValue(_) => 2,
            Operation::GetStructure(_, _, _) => 4,
            Operation::UnifyVariable(_) => 2,
            Operation::UnifyValue(_) => 2,
        }
    }

    pub open spec fn spec_advance(self) -> nat {
        match self {
            Operation::PutStructure(_, _, _) => 4,
            Operation::SetVariable(_) => 2,
            Operation::SetValue(_) => 2,
            Operation::GetStructure(_, _, _) => 4,
            Operation::UnifyVariable(_) => 2,
            Operation::UnifyValue(_) => 2,
        }
    }
}

} // verus!
