//! The query compiler: lowers a structured term into "put/set" bytecode
//! that builds the term on the heap, and the result handed back after a
//! query has run.

use vstd::prelude::*;
use crate::operation::Operation;
use crate::program::{
    Program, ProgramBuilder, encode_ops, ops_registers, spec_assembly, ProgramModel,
};
use crate::storage::{Cell, Storage};

verus! {

/// Reference to a part of a query under construction, for building
/// structures over it and later for reading the unification result out.
#[derive(Clone, Copy)]
pub struct QueryRef(pub(crate) usize);

impl QueryRef {
    /// The register this reference stands for.
    pub closed spec fn spec_id(self) -> int {
        self.0 as int
    }

    /// The register this reference stands for.
    pub fn id(self) -> (r: usize)
        ensures
            r as int == self.spec_id(),
    {
        self.0
    }
}

/// Mathematical model of a `Query`: its program and the register holding
/// the top-level term.
pub ghost struct QueryModel {
    pub program: ProgramModel,
    pub top_level: nat,
}

/// A compiled query, ready to be executed.
pub struct Query {
    pub(crate) program: Program,
    pub(crate) top_level: usize,
}

impl View for Query {
    type V = QueryModel;

    closed spec fn view(&self) -> QueryModel {
        QueryModel { program: self.program@, top_level: self.top_level as nat }
    }
}

impl Query {
    /// The program encodes the emitted instructions, and the top-level
    /// register is one the program provides for.
    pub open spec fn wf(self) -> bool {
        self@.program.words == encode_ops(self@.program.ops) && self@.program.xregs
            == ops_registers(self@.program.ops) && 1 <= self@.top_level < self@.program.xregs
    }

    /// A two-column listing of the query's program.
    pub fn assembly(&self) -> (s: String)
        ensures
            s@ == spec_assembly(self@.program.words, 0, true),
    {
        self.program.assembly()
    }
}

/// A query's model is built from its parts.
pub(crate) proof fn lemma_query_parts(q: &Query)
    ensures
        q@.program == q.program@,
        q@.top_level == q.top_level as nat,
{
}

/// A query result's model is built from its parts.
pub(crate) proof fn lemma_query_result_view(r: &QueryResult)
    ensures
        r@.cells == r.storage@.cells,
        r@.regs == r.storage@.regs,
        r@.xregs == r.xregs as nat,
{
}

/// Mathematical model of a `QueryBuilder`: the instructions emitted so
/// far and the next free register.
pub ghost struct QueryBuilderModel {
    pub ops: Seq<Operation>,
    pub next: nat,
}

/// Builder for a structured query. Register 0 is reserved for the
/// top-level term; every variable or structure takes the next register.
pub struct QueryBuilder {
    program: ProgramBuilder,
    next_register: usize,
}

impl View for QueryBuilder {
    type V = QueryBuilderModel;

    closed spec fn view(&self) -> QueryBuilderModel {
        QueryBuilderModel { ops: self.program@.ops, next: self.next_register as nat }
    }
}

impl QueryBuilder {
    /// The emitted program stays consistent with the register counter:
    /// every register below the counter has been emitted into place.
    pub closed spec fn wf(self) -> bool {
        self.program.wf() && self.next_register >= 1 && self.program@.xregs == (
        if self.next_register == 1 {
            0nat
        } else {
            self.next_register as nat
        })
    }

    pub fn new() -> (r: Self)
        ensures
            r@.ops == Seq::<Operation>::empty(),
            r@.next == 1,
            r.wf(),
    {
        QueryBuilder { program: ProgramBuilder::new(), next_register: 1 }
    }

    /// Takes the next free register.
    fn next_register(&mut self) -> (r: usize)
        requires
            old(self)@.next < usize::MAX,
        ensures
            r as nat == old(self)@.next,
            final(self)@.next == old(self)@.next + 1,
            final(self)@.ops == old(self)@.ops,
            final(self).program == old(self).program,
    {
        self.next_register = self.next_register + 1;
        self.next_register - 1
    }

    /// Emits a fresh variable in the next register.
    pub fn variable(&mut self) -> (r: QueryRef)
        requires
            old(self).wf(),
            old(self)@.next < usize::MAX,
        ensures
            final(self).wf(),
            final(self)@.next == old(self)@.next + 1,
            final(self)@.ops == old(self)@.ops + seq![
                Operation::SetVariable(old(self)@.next as usize),
            ],
            r.spec_id() == old(self)@.next,
    {
        let register = self.next_register();
        self.program.set_variable(register);
        QueryRef(register)
    }

    /// Emits a structure over previously built subterms in the next
    /// register: the structure itself, then one value reference per
    /// subterm. Subterms are built before their parents.
    #[verifier::loop_isolation(false)]
    pub fn structure(&mut self, ident: usize, subterms: Vec<QueryRef>) -> (r: QueryRef)
        requires
            old(self).wf(),
            old(self)@.next < usize::MAX,
            forall|k: int|
                0 <= k < subterms@.len() ==> 1 <= (#[trigger] subterms@[k]).spec_id() < old(
                    self,
                )@.next,
        ensures
            final(self).wf(),
            final(self)@.next == old(self)@.next + 1,
            final(self)@.ops == old(self)@.ops + seq![
                Operation::PutStructure(
                    ident,
                    subterms@.len() as usize,
                    old(self)@.next as usize,
                ),
            ] + subterms@.map_values(|q: QueryRef| Operation::SetValue(q.spec_id() as usize)),
            r.spec_id() == old(self)@.next,
    {
        let register = self.next_register();
        self.program.put_structure(ident, subterms.len(), register);
        let ghost mid_ops = self.program@.ops;
        let mut k: usize = 0;
        while k < subterms.len()
            invariant
                k <= subterms@.len(),
                self.program.wf(),
                self.program@.xregs == register + 1,
                self.next_register == register + 1,
                self.program@.ops == mid_ops + subterms@.subrange(0, k as int).map_values(
                    |q: QueryRef| Operation::SetValue(q.spec_id() as usize),
                ),
            decreases subterms@.len() - k,
        {
            let QueryRef(sub) = subterms[k];
            self.program.set_value(sub);
            k = k + 1;
            proof {
                assert(self.program@.ops =~= mid_ops + subterms@.subrange(0, k as int).map_values(
                    |q: QueryRef| Operation::SetValue(q.spec_id() as usize),
                ));
            }
        }
        proof {
            assert(subterms@.subrange(0, subterms@.len() as int) =~= subterms@);
            assert(self@.ops =~= old(self)@.ops + seq![
                Operation::PutStructure(
                    ident,
                    subterms@.len() as usize,
                    old(self)@.next as usize,
                ),
            ] + subterms@.map_values(|q: QueryRef| Operation::SetValue(q.spec_id() as usize)));
        }
        QueryRef(register)
    }

    /// Emits a constant: a structure with no subterms.
    pub fn constant(&mut self, ident: usize) -> (r: QueryRef)
        requires
            old(self).wf(),
            old(self)@.next < usize::MAX,
        ensures
            final(self).wf(),
            final(self)@.next == old(self)@.next + 1,
            final(self)@.ops == old(self)@.ops + seq![
                Operation::PutStructure(ident, 0, old(self)@.next as usize),
            ],
            r.spec_id() == old(self)@.next,
    {
        let r = self.structure(ident, Vec::new());
        proof {
            assert(Seq::<QueryRef>::empty().map_values(
                |q: QueryRef| Operation::SetValue(q.spec_id() as usize),
            ) =~= Seq::<Operation>::empty());
            assert(self@.ops =~= old(self)@.ops + seq![
                Operation::PutStructure(ident, 0, old(self)@.next as usize),
            ]);
        }
        r
    }

    /// Seals the emitted program into a query whose top-level term is the
    /// given root.
    pub fn build(self, root: QueryRef) -> (r: Query)
        requires
            self.wf(),
            1 <= root.spec_id() < self@.next,
        ensures
            r@.program.ops == self@.ops,
            r@.program.words == encode_ops(self@.ops),
            r@.program.xregs == ops_registers(self@.ops),
            r@.program.xregs == self@.next,
            r@.top_level == root.spec_id(),
            r.wf(),
    {
        Query { program: self.program.build(), top_level: root.0 }
    }
}

/// Mathematical model of a `QueryResult`: the cells of the machine at the
/// end of the run, its register count, and how many registers belong to
/// the query.
pub ghost struct QueryResultModel {
    pub cells: Seq<Cell>,
    pub regs: nat,
    pub xregs: nat,
}

/// Result of running a query: a snapshot of the machine's storage, from
/// which variable bindings are read out.
pub struct QueryResult {
    pub(crate) storage: Storage,
    pub(crate) xregs: usize,
}

impl View for QueryResult {
    type V = QueryResultModel;

    closed spec fn view(&self) -> QueryResultModel {
        QueryResultModel {
            cells: self.storage@.cells,
            regs: self.storage@.regs,
            xregs: self.xregs as nat,
        }
    }
}

} // verus!
