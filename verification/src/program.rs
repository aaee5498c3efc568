//! Immutable flat bytecode: a sequence of machine words holding one opcode
//! word and a fixed number of operand words per instruction, together with
//! the builder that emits it.

use vstd::prelude::*;
use vstd::string::StringExecFns;
use crate::operation::Operation;

verus! {

pub const OP_PUT_STRUCTURE: usize = 0;

pub const OP_SET_VARIABLE: usize = 1;

pub const OP_SET_VALUE: usize = 2;

pub const OP_GET_STRUCTURE: usize = 3;

pub const OP_UNIFY_VARIABLE: usize = 4;

pub const OP_UNIFY_VALUE: usize = 5;

/// The words of one encoded instruction: the opcode, then its operands.
pub open spec fn encode_op(op: Operation) -> Seq<usize> {
    match op {
        Operation::PutStructure(f, n, x) => seq![OP_PUT_STRUCTURE, f, n, x],
        Operation::SetVariable(x) => seq![OP_SET_VARIABLE, x],
        Operation::SetValue(x) => seq![OP_SET_VALUE, x],
        Operation::GetStructure(f, n, x) => seq![OP_GET_STRUCTURE, f, n, x],
        Operation::UnifyVariable(x) => seq![OP_UNIFY_VARIABLE, x],
        Operation::UnifyValue(x) => seq![OP_UNIFY_VALUE, x],
    }
}

/// The words of an instruction sequence, one encoding after the other.
pub open spec fn encode_ops(ops: Seq<Operation>) -> Seq<usize>
    decreases ops.len(),
{
    if ops.len() == 0 {
        Seq::empty()
    } else {
        encode_ops(ops.drop_last()) + encode_op(ops.last())
    }
}

/// The register operand of an instruction.
pub open spec fn op_register(op: Operation) -> nat {
    match op {
        Operation::PutStructure(_, _, x) => x as nat,
        Operation::SetVariable(x) => x as nat,
        Operation::SetValue(x) => x as nat,
        Operation::GetStructure(_, _, x) => x as nat,
        Operation::UnifyVariable(x) => x as nat,
        Operation::UnifyValue(x) => x as nat,
    }
}

/// One more than the highest register an instruction sequence refers to.
pub open spec fn ops_registers(ops: Seq<Operation>) -> nat
    decreases ops.len(),
{
    if ops.len() == 0 {
        0
    } else {
        let prev = ops_registers(ops.drop_last());
        let here = op_register(ops.last()) + 1;
        if here > prev {
            here
        } else {
            prev
        }
    }
}

/// The sum of the strides of an instruction sequence.
pub open spec fn sum_advance(ops: Seq<Operation>) -> nat
    decreases ops.len(),
{
    if ops.len() == 0 {
        0
    } else {
        sum_advance(ops.drop_last()) + ops.last().spec_advance()
    }
}

/// The encoding of an instruction sequence is exactly as long as the sum
/// of the strides of its instructions.
pub proof fn lemma_word_count(ops: Seq<Operation>)
    ensures
        encode_ops(ops).len() == sum_advance(ops),
    decreases ops.len(),
{
    if ops.len() > 0 {
        lemma_word_count(ops.drop_last());
    }
}

/// The instruction decoded at a word index: the opcode word chooses the
/// shape, and a truncated trailing instruction decodes to nothing.
pub open spec fn spec_decode(words: Seq<usize>, i: int) -> Option<Operation> {
    if 0 <= i < words.len() {
        if words[i] == OP_PUT_STRUCTURE {
            if i + 3 < words.len() {
                Some(Operation::PutStructure(words[i + 1], words[i + 2], words[i + 3]))
            } else {
                None
            }
        } else if words[i] == OP_SET_VARIABLE {
            if i + 1 < words.len() {
                Some(Operation::SetVariable(words[i + 1]))
            } else {
                None
            }
        } else if words[i] == OP_SET_VALUE {
            if i + 1 < words.len() {
                Some(Operation::SetValue(words[i + 1]))
            } else {
                None
            }
        } else if words[i] == OP_GET_STRUCTURE {
            if i + 3 < words.len() {
                Some(Operation::GetStructure(words[i + 1], words[i + 2], words[i + 3]))
            } else {
                None
            }
        } else if words[i] == OP_UNIFY_VARIABLE {
            if i + 1 < words.len() {
                Some(Operation::UnifyVariable(words[i + 1]))
            } else {
                None
            }
        } else if words[i] == OP_UNIFY_VALUE {
            if i + 1 < words.len() {
                Some(Operation::UnifyValue(words[i + 1]))
            } else {
                None
            }
        } else {
            None
        }
    } else {
        None
    }
}

/// The decimal digit characters of a number, most significant first.
pub open spec fn spec_digits(n: nat) -> Seq<char>
    decreases n,
{
    if n < 10 {
        seq![digit_char(n)]
    } else {
        spec_digits(n / 10) + seq![digit_char(n % 10)]
    }
}

/// The character of one decimal digit.
pub open spec fn digit_char(d: nat) -> char {
    if d == 0 {
        '0'
    } else if d == 1 {
        '1'
    } else if d == 2 {
        '2'
    } else if d == 3 {
        '3'
    } else if d == 4 {
        '4'
    } else if d == 5 {
        '5'
    } else if d == 6 {
        '6'
    } else if d == 7 {
        '7'
    } else if d == 8 {
        '8'
    } else {
        '9'
    }
}

/// One rendered instruction: its name and its operands.
pub open spec fn spec_op_text(op: Operation) -> Seq<char> {
    match op {
        Operation::PutStructure(f, n, x) => "PutStructure("@ + spec_digits(f as nat) + ", "@
            + spec_digits(n as nat) + ", "@ + spec_digits(x as nat) + ")"@,
        Operation::SetVariable(x) => "SetVariable("@ + spec_digits(x as nat) + ")"@,
        Operation::SetValue(x) => "SetValue("@ + spec_digits(x as nat) + ")"@,
        Operation::GetStructure(f, n, x) => "GetStructure("@ + spec_digits(f as nat) + ", "@
            + spec_digits(n as nat) + ", "@ + spec_digits(x as nat) + ")"@,
        Operation::UnifyVariable(x) => "UnifyVariable("@ + spec_digits(x as nat) + ")"@,
        Operation::UnifyValue(x) => "UnifyValue("@ + spec_digits(x as nat) + ")"@,
    }
}

/// A word index padded with spaces to at least four columns.
pub open spec fn spec_padded_index(i: nat) -> Seq<char> {
    if i < 10 {
        "   "@ + spec_digits(i)
    } else if i < 100 {
        "  "@ + spec_digits(i)
    } else if i < 1000 {
        " "@ + spec_digits(i)
    } else {
        spec_digits(i)
    }
}

/// One listing line: the padded word index, a separator, the instruction.
pub open spec fn spec_line(i: nat, op: Operation) -> Seq<char> {
    spec_padded_index(i) + ": "@ + spec_op_text(op)
}

/// The whole listing from a word position on: one line per decoded
/// instruction, lines separated by line breaks.
pub open spec fn spec_assembly(words: Seq<usize>, pos: nat, first: bool) -> Seq<char>
    decreases words.len() - pos,
{
    match spec_decode(words, pos as int) {
        None => Seq::empty(),
        Some(op) => (if first {
            Seq::<char>::empty()
        } else {
            "\n"@
        }) + spec_line(pos, op) + spec_assembly(words, (pos + op.spec_advance()) as nat, false),
    }
}

/// Mathematical model of a `Program`: its words, its register requirement,
/// and the instruction sequence it was built from.
pub ghost struct ProgramModel {
    pub words: Seq<usize>,
    pub xregs: nat,
    pub ops: Seq<Operation>,
}

/// An immutable, flat bytecode buffer.
pub struct Program {
    words: Vec<usize>,
    xregs: usize,
    ops: Ghost<Seq<Operation>>,
}

impl View for Program {
    type V = ProgramModel;

    closed spec fn view(&self) -> ProgramModel {
        ProgramModel { words: self.words@, xregs: self.xregs as nat, ops: self.ops@ }
    }
}

impl Program {
    /// The words are the encoding of the instructions the builder emitted,
    /// and the register requirement covers every register they refer to.
    pub open spec fn wf(self) -> bool {
        self@.words == encode_ops(self@.ops) && self@.xregs == ops_registers(self@.ops)
    }

    /// Decodes the instruction at the given word index. A decoded
    /// instruction lies wholly within the program.
    pub fn operation(&self, index: usize) -> (r: Option<Operation>)
        ensures
            r == spec_decode(self@.words, index as int),
            r matches Some(op) ==> index + op.spec_advance() <= self@.words.len()
                && self@.words.len() <= usize::MAX,
    {
        if index >= self.words.len() {
            return None;
        }
        let op = self.words[index];
        if op == OP_PUT_STRUCTURE {
            if index < usize::MAX - 3 && index + 3 < self.words.len() {
                Some(Operation::PutStructure(
                    self.words[index + 1],
                    self.words[index + 2],
                    self.words[index + 3],
                ))
            } else {
                None
            }
        } else if op == OP_SET_VARIABLE {
            if index < usize::MAX && index + 1 < self.words.len() {
                Some(Operation::SetVariable(self.words[index + 1]))
            } else {
                None
            }
        } else if op == OP_SET_VALUE {
            if index < usize::MAX && index + 1 < self.words.len() {
                Some(Operation::SetValue(self.words[index + 1]))
            } else {
                None
            }
        } else if op == OP_GET_STRUCTURE {
            if index < usize::MAX - 3 && index + 3 < self.words.len() {
                Some(Operation::GetStructure(
                    self.words[index + 1],
                    self.words[index + 2],
                    self.words[index + 3],
                ))
            } else {
                None
            }
        } else if op == OP_UNIFY_VARIABLE {
            if index < usize::MAX && index + 1 < self.words.len() {
                Some(Operation::UnifyVariable(self.words[index + 1]))
            } else {
                None
            }
        } else if op == OP_UNIFY_VALUE {
            if index < usize::MAX && index + 1 < self.words.len() {
                Some(Operation::UnifyValue(self.words[index + 1]))
            } else {
                None
            }
        } else {
            None
        }
    }

    /// The smallest number of registers that storage must provide before
    /// this program runs: one more than the highest register it refers to.
    pub fn x_registers(&self) -> (r: usize)
        ensures
            r as nat == self@.xregs,
    {
        self.xregs
    }

    /// A two-column listing of the program: `address: Instruction`, one
    /// line per instruction.
    #[verifier::loop_isolation(false)]
    #[verifier::rlimit(50)]
    pub fn assembly(&self) -> (s: String)
        ensures
            s@ == spec_assembly(self@.words, 0, true),
    {
        let mut s = String::new();
        let mut pos: usize = 0;
        let mut first: bool = true;
        loop
            invariant
                spec_assembly(self@.words, 0, true) == s@ + spec_assembly(
                    self@.words,
                    pos as nat,
                    first,
                ),
            decreases self@.words.len() - pos,
        {
            let ghost pre_s = s@;
            let op = match self.operation(pos) {
                Some(op) => op,
                None => {
                    proof {
                        assert(s@ + spec_assembly(self@.words, pos as nat, first) =~= s@);
                    }
                    return s;
                },
            };
            if !first {
                s.append("\n");
            }
            if pos < 10 {
                s.append("   ");
            } else if pos < 100 {
                s.append("  ");
            } else if pos < 1000 {
                s.append(" ");
            }
            let num = render_usize(pos);
            s.append(num.as_str());
            s.append(": ");
            let text = op_text(&op);
            s.append(text.as_str());
            proof {
                assert(s@ =~= pre_s + (if first {
                    Seq::<char>::empty()
                } else {
                    "\n"@
                }) + spec_line(pos as nat, op));
            }
            first = false;
            pos = pos + op.advance();
            proof {
                assert(spec_assembly(self@.words, 0, true) =~= s@ + spec_assembly(
                    self@.words,
                    pos as nat,
                    false,
                ));
            }
        }
    }
}

/// The decimal rendering of a number.
fn render_usize(n: usize) -> (s: String)
    ensures
        s@ == spec_digits(n as nat),
    decreases n,
{
    if n < 10 {
        let s = digit_str(n).to_owned();
        s
    } else {
        let mut s = render_usize(n / 10);
        s.append(digit_str(n % 10));
        s
    }
}

/// The character of one decimal digit, as a string.
fn digit_str(d: usize) -> (s: &'static str)
    requires
        d < 10,
    ensures
        s@ == seq![digit_char(d as nat)],
{
    if d == 0 {
        proof {
            reveal_strlit("0");
            assert("0"@ =~= seq![digit_char(0)]);
        }
        "0"
    } else if d == 1 {
        proof {
            reveal_strlit("1");
            assert("1"@ =~= seq![digit_char(1)]);
        }
        "1"
    } else if d == 2 {
        proof {
            reveal_strlit("2");
            assert("2"@ =~= seq![digit_char(2)]);
        }
        "2"
    } else if d == 3 {
        proof {
            reveal_strlit("3");
            assert("3"@ =~= seq![digit_char(3)]);
        }
        "3"
    } else if d == 4 {
        proof {
            reveal_strlit("4");
            assert("4"@ =~= seq![digit_char(4)]);
        }
        "4"
    } else if d == 5 {
        proof {
            reveal_strlit("5");
            assert("5"@ =~= seq![digit_char(5)]);
        }
        "5"
    } else if d == 6 {
        proof {
            reveal_strlit("6");
            assert("6"@ =~= seq![digit_char(6)]);
        }
        "6"
    } else if d == 7 {
        proof {
            reveal_strlit("7");
            assert("7"@ =~= seq![digit_char(7)]);
        }
        "7"
    } else if d == 8 {
        proof {
            reveal_strlit("8");
            assert("8"@ =~= seq![digit_char(8)]);
        }
        "8"
    } else {
        proof {
            reveal_strlit("9");
            assert("9"@ =~= seq![digit_char(9)]);
        }
        "9"
    }
}

/// One rendered instruction.
fn op_text(op: &Operation) -> (s: String)
    ensures
        s@ == spec_op_text(*op),
{
    let mut s = String::new();
    match op {
        Operation::PutStructure(f, n, x) => {
            s.append("PutStructure(");
            let d = render_usize(*f);
            s.append(d.as_str());
            s.append(", ");
            let d = render_usize(*n);
            s.append(d.as_str());
            s.append(", ");
            let d = render_usize(*x);
            s.append(d.as_str());
            s.append(")");
        },
        Operation::SetVariable(x) => {
            s.append("SetVariable(");
            let d = render_usize(*x);
            s.append(d.as_str());
            s.append(")");
        },
        Operation::SetValue(x) => {
            s.append("SetValue(");
            let d = render_usize(*x);
            s.append(d.as_str());
            s.append(")");
        },
        Operation::GetStructure(f, n, x) => {
            s.append("GetStructure(");
            let d = render_usize(*f);
            s.append(d.as_str());
            s.append(", ");
            let d = render_usize(*n);
            s.append(d.as_str());
            s.append(", ");
            let d = render_usize(*x);
            s.append(d.as_str());
            s.append(")");
        },
        Operation::UnifyVariable(x) => {
            s.append("UnifyVariable(");
            let d = render_usize(*x);
            s.append(d.as_str());
            s.append(")");
        },
        Operation::UnifyValue(x) => {
            s.append("UnifyValue(");
            let d = render_usize(*x);
            s.append(d.as_str());
            s.append(")");
        },
    }
    proof {
        assert(s@ =~= spec_op_text(*op));
    }
    s
}

/// Mathematical model of a `ProgramBuilder`: the same parts as a program.
pub ghost struct ProgramBuilderModel {
    pub words: Seq<usize>,
    pub xregs: nat,
    pub ops: Seq<Operation>,
}

/// Accumulates encoded instructions and their register requirement.
pub struct ProgramBuilder {
    words: Vec<usize>,
    xregs: usize,
    ops: Ghost<Seq<Operation>>,
}

impl View for ProgramBuilder {
    type V = ProgramBuilderModel;

    closed spec fn view(&self) -> ProgramBuilderModel {
        ProgramBuilderModel { words: self.words@, xregs: self.xregs as nat, ops: self.ops@ }
    }
}

impl ProgramBuilder {
    /// The words emitted so far encode the instructions emitted so far.
    pub open spec fn wf(self) -> bool {
        self@.words == encode_ops(self@.ops) && self@.xregs == ops_registers(self@.ops)
    }

    pub fn new() -> (r: Self)
        ensures
            r@.ops == Seq::<Operation>::empty(),
            r.wf(),
    {
        let r = ProgramBuilder { words: Vec::new(), xregs: 0, ops: Ghost(Seq::empty()) };
        proof {
            assert(r@.words =~= encode_ops(r@.ops));
        }
        r
    }

    pub fn put_structure(&mut self, ident: usize, arity: usize, xreg: usize)
        requires
            old(self).wf(),
            xreg < usize::MAX,
        ensures
            final(self)@.ops == old(self)@.ops + seq![Operation::PutStructure(ident, arity, xreg)],
            final(self).wf(),
            final(self)@.xregs == (if xreg + 1 > old(self)@.xregs {
                (xreg + 1) as nat
            } else {
                old(self)@.xregs
            }),
    {
        if xreg + 1 > self.xregs {
            self.xregs = xreg + 1;
        }
        self.words.push(OP_PUT_STRUCTURE);
        self.words.push(ident);
        self.words.push(arity);
        self.words.push(xreg);
        proof {
            let op = Operation::PutStructure(ident, arity, xreg);
            self.ops@ = self.ops@ + seq![op];
            assert(self.ops@.drop_last() =~= old(self)@.ops);
            assert(self.ops@.last() == op);
            assert(self.words@ =~= encode_ops(old(self)@.ops) + encode_op(op));
        }
    }

    pub fn set_variable(&mut self, xreg: usize)
        requires
            old(self).wf(),
            xreg < usize::MAX,
        ensures
            final(self)@.ops == old(self)@.ops + seq![Operation::SetVariable(xreg)],
            final(self).wf(),
            final(self)@.xregs == (if xreg + 1 > old(self)@.xregs {
                (xreg + 1) as nat
            } else {
                old(self)@.xregs
            }),
    {
        if xreg + 1 > self.xregs {
            self.xregs = xreg + 1;
        }
        self.words.push(OP_SET_VARIABLE);
        self.words.push(xreg);
        proof {
            let op = Operation::SetVariable(xreg);
            self.ops@ = self.ops@ + seq![op];
            assert(self.ops@.drop_last() =~= old(self)@.ops);
            assert(self.ops@.last() == op);
            assert(self.words@ =~= encode_ops(old(self)@.ops) + encode_op(op));
        }
    }

    pub fn set_value(&mut self, xreg: usize)
        requires
            old(self).wf(),
            xreg < usize::MAX,
        ensures
            final(self)@.ops == old(self)@.ops + seq![Operation::SetValue(xreg)],
            final(self).wf(),
            final(self)@.xregs == (if xreg + 1 > old(self)@.xregs {
                (xreg + 1) as nat
            } else {
                old(self)@.xregs
            }),
    {
        if xreg + 1 > self.xregs {
            self.xregs = xreg + 1;
        }
        self.words.push(OP_SET_VALUE);
        self.words.push(xreg);
        proof {
            let op = Operation::SetValue(xreg);
            self.ops@ = self.ops@ + seq![op];
            assert(self.ops@.drop_last() =~= old(self)@.ops);
            assert(self.ops@.last() == op);
            assert(self.words@ =~= encode_ops(old(self)@.ops) + encode_op(op));
        }
    }

    pub fn get_structure(&mut self, ident: usize, arity: usize, xreg: usize)
        requires
            old(self).wf(),
            xreg < usize::MAX,
        ensures
            final(self)@.ops == old(self)@.ops + seq![Operation::GetStructure(ident, arity, xreg)],
            final(self).wf(),
            final(self)@.xregs == (if xreg + 1 > old(self)@.xregs {
                (xreg + 1) as nat
            } else {
                old(self)@.xregs
            }),
    {
        if xreg + 1 > self.xregs {
            self.xregs = xreg + 1;
        }
        self.words.push(OP_GET_STRUCTURE);
        self.words.push(ident);
        self.words.push(arity);
        self.words.push(xreg);
        proof {
            let op = Operation::GetStructure(ident, arity, xreg);
            self.ops@ = self.ops@ + seq![op];
            assert(self.ops@.drop_last() =~= old(self)@.ops);
            assert(self.ops@.last() == op);
            assert(self.words@ =~= encode_ops(old(self)@.ops) + encode_op(op));
        }
    }

    pub fn unify_variable(&mut self, xreg: usize)
        requires
            old(self).wf(),
            xreg < usize::MAX,
        ensures
            final(self)@.ops == old(self)@.ops + seq![Operation::UnifyVariable(xreg)],
            final(self).wf(),
            final(self)@.xregs == (if xreg + 1 > old(self)@.xregs {
                (xreg + 1) as nat
            } else {
                old(self)@.xregs
            }),
    {
        if xreg + 1 > self.xregs {
            self.xregs = xreg + 1;
        }
        self.words.push(OP_UNIFY_VARIABLE);
        self.words.push(xreg);
        proof {
            let op = Operation::UnifyVariable(xreg);
            self.ops@ = self.ops@ + seq![op];
            assert(self.ops@.drop_last() =~= old(self)@.ops);
            assert(self.ops@.last() == op);
            assert(self.words@ =~= encode_ops(old(self)@.ops) + encode_op(op));
        }
    }

    pub fn unify_value(&mut self, xreg: usize)
        requires
            old(self).wf(),
            xreg < usize::MAX,
        ensures
            final(self)@.ops == old(self)@.ops + seq![Operation::UnifyValue(xreg)],
            final(self).wf(),
            final(self)@.xregs == (if xreg + 1 > old(self)@.xregs {
                (xreg + 1) as nat
            } else {
                old(self)@.xregs
            }),
    {
        if xreg + 1 > self.xregs {
            self.xregs = xreg + 1;
        }
        self.words.push(OP_UNIFY_VALUE);
        self.words.push(xreg);
        proof {
            let op = Operation::UnifyValue(xreg);
            self.ops@ = self.ops@ + seq![op];
            assert(self.ops@.drop_last() =~= old(self)@.ops);
            assert(self.ops@.last() == op);
            assert(self.words@ =~= encode_ops(old(self)@.ops) + encode_op(op));
        }
    }

    /// Seals the emitted instructions into an immutable program.
    pub fn build(self) -> (r: Program)
        requires
            self.wf(),
        ensures
            r@.words == self@.words,
            r@.xregs == self@.xregs,
            r@.ops == self@.ops,
            r.wf(),
    {
        Program { words: self.words, xregs: self.xregs, ops: self.ops }
    }
}

} // verus!
