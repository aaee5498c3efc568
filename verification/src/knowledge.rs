//! An ordered collection of compiled facts, together with the aggregate
//! register requirement used to size storage before execution.

use vstd::prelude::*;
use crate::program::{Program, ProgramModel};
use crate::statement::{Statement, lemma_statement_view};

verus! {

/// One more than the highest register any of the programs refers to, or
/// zero for none.
pub open spec fn spec_x_registers(progs: Seq<ProgramModel>) -> nat
    decreases progs.len(),
{
    if progs.len() == 0 {
        0
    } else {
        let prev = spec_x_registers(progs.drop_last());
        if progs.last().xregs > prev {
            progs.last().xregs
        } else {
            prev
        }
    }
}

/// The facts consulted by a query, in the order they were added.
pub struct Knowledge {
    programs: Vec<Program>,
}

impl View for Knowledge {
    type V = Seq<ProgramModel>;

    closed spec fn view(&self) -> Seq<ProgramModel> {
        self.programs@.map_values(|p: Program| p@)
    }
}

impl Default for Knowledge {
    fn default() -> (r: Self)
        ensures
            r@ == Seq::<ProgramModel>::empty(),
    {
        Knowledge::new()
    }
}

impl Knowledge {
    pub fn new() -> (r: Self)
        ensures
            r@ == Seq::<ProgramModel>::empty(),
    {
        let r = Knowledge { programs: Vec::new() };
        proof {
            assert(r@ =~= Seq::<ProgramModel>::empty());
        }
        r
    }

    /// Appends a fact to the knowledge base.
    pub fn add(&mut self, fact: Statement)
        ensures
            final(self)@ == old(self)@ + seq![fact@],
    {
        proof {
            lemma_statement_view(fact);
        }
        self.programs.push(fact.program);
        proof {
            assert(self@ =~= old(self)@ + seq![fact@]);
        }
    }

    /// The number of registers that storage must provide before these
    /// facts run: the largest requirement of any of them.
    pub fn x_registers(&self) -> (r: usize)
        ensures
            r as nat == spec_x_registers(self@),
    {
        let mut best: usize = 0;
        let mut i: usize = 0;
        while i < self.programs.len()
            invariant
                i <= self.programs@.len(),
                best as nat == spec_x_registers(self@.subrange(0, i as int)),
            decreases self.programs@.len() - i,
        {
            let here = self.programs[i].x_registers();
            if here > best {
                best = here;
            }
            i = i + 1;
            proof {
                assert(self@.subrange(0, i as int).drop_last() =~= self@.subrange(0, i - 1));
                assert(self@.subrange(0, i as int).last() == self@[i - 1]);
            }
        }
        proof {
            assert(self@.subrange(0, self@.len() as int) =~= self@);
        }
        best
    }

    /// The programs of the facts, in order.
    pub fn programs(&self) -> (r: &Vec<Program>)
        ensures
            r@.map_values(|p: Program| p@) == self@,
    {
        &self.programs
    }
}

} // verus!
