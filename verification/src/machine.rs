//! The machine: an instruction pointer, the structure cursor, the
//! read/write unification mode, and the storage the programs act on.

use vstd::prelude::*;
use crate::knowledge::{Knowledge, spec_x_registers};
use crate::operation::Operation;
use crate::program::{Program, spec_decode};
use crate::query::{Query, QueryResult, lemma_query_parts, lemma_query_result_view};
use crate::storage::{
    Cell, Storage, spec_bind, spec_deref, spec_unify, unify_fuel, lemma_deref_step_terminal,
    lemma_spec_unify_frame,
};

verus! {

/// Read mode steps through an existing structure; write mode builds a
/// fresh one on the heap.
enum UnificationState {
    Read,
    Write,
}

/// Mathematical model of the machine state an instruction acts on: the
/// storage, the structure cursor, and the unification mode.
pub ghost struct VmModel {
    pub cells: Seq<Cell>,
    pub regs: nat,
    pub sreg: nat,
    pub write: bool,
}

/// Mathematical model of a whole `Machine`, the instruction pointer
/// included.
pub ghost struct MachineModel {
    pub cells: Seq<Cell>,
    pub regs: nat,
    pub sreg: nat,
    pub write: bool,
    pub preg: nat,
}

/// Effect of `PutStructure(f, n, x)`: push a fresh structure and point
/// the register at it.
pub open spec fn spec_put_structure(vm: VmModel, f: usize, n: usize, x: usize) -> (VmModel, bool) {
    if vm.cells.len() + 2 > usize::MAX || x >= vm.cells.len() {
        (vm, false)
    } else {
        let ptr = Cell::Struct((vm.cells.len() + 1) as usize);
        let cells = (vm.cells + seq![ptr, Cell::Funct(f, n)]).update(x as int, ptr);
        (VmModel { cells, ..vm }, true)
    }
}

/// Effect of `SetVariable(x)`: push a fresh variable and copy it into the
/// register.
pub open spec fn spec_set_variable(vm: VmModel, x: usize) -> (VmModel, bool) {
    if x >= vm.cells.len() {
        (vm, false)
    } else {
        let var = Cell::Ref(vm.cells.len() as usize);
        let cells = (vm.cells + seq![var]).update(x as int, var);
        (VmModel { cells, ..vm }, true)
    }
}

/// Effect of `SetValue(x)`: push a copy of the register's cell.
pub open spec fn spec_set_value(vm: VmModel, x: usize) -> (VmModel, bool) {
    if x >= vm.cells.len() {
        (vm, false)
    } else {
        (VmModel { cells: vm.cells + seq![vm.cells[x as int]], ..vm }, true)
    }
}

/// Effect of `GetStructure(f, n, x)`: against an unbound variable, build
/// the structure and bind, entering write mode; against a matching
/// structure, place the cursor on its first argument, entering read mode;
/// anything else fails.
pub open spec fn spec_get_structure(vm: VmModel, f: usize, n: usize, x: usize) -> (VmModel, bool) {
    match spec_deref(vm.cells, x as int) {
        Some(Cell::Ref(r)) => {
            if vm.cells.len() + 2 > usize::MAX {
                (vm, false)
            } else {
                let here = vm.cells.len();
                let ptr = Cell::Struct((here + 1) as usize);
                let cells = spec_bind(vm.cells + seq![ptr, Cell::Funct(f, n)], r as int, here as int);
                (VmModel { cells, write: true, ..vm }, true)
            }
        },
        Some(Cell::Struct(a)) => {
            if a < vm.cells.len() && vm.cells[a as int] == Cell::Funct(f, n) {
                (VmModel { sreg: a as nat + 1, write: false, ..vm }, true)
            } else {
                (vm, false)
            }
        },
        _ => (vm, false),
    }
}

/// Effect of `UnifyVariable(x)`: in read mode, copy the cell under the
/// cursor into the register; in write mode, push a fresh variable into
/// the register. The cursor advances either way.
pub open spec fn spec_unify_variable(vm: VmModel, x: usize) -> (VmModel, bool) {
    if !vm.write {
        if x < vm.cells.len() && vm.sreg < vm.cells.len() {
            (VmModel { cells: vm.cells.update(x as int, vm.cells[vm.sreg as int]), sreg: vm.sreg + 1, ..vm }, true)
        } else {
            (vm, false)
        }
    } else {
        if x < vm.cells.len() && vm.sreg < usize::MAX {
            let var = Cell::Ref(vm.cells.len() as usize);
            let cells = (vm.cells + seq![var]).update(x as int, var);
            (VmModel { cells, sreg: vm.sreg + 1, ..vm }, true)
        } else {
            (vm, false)
        }
    }
}

/// Effect of `UnifyValue(x)`: in read mode, unify the register with the
/// cursor; in write mode, push a copy of the register's cell. The cursor
/// advances either way.
pub open spec fn spec_unify_value(vm: VmModel, x: usize) -> (VmModel, bool) {
    if !vm.write {
        if vm.sreg < usize::MAX {
            let (cells, ok) = spec_unify(vm.cells, seq![(x as int, vm.sreg as int)], unify_fuel());
            (VmModel { cells, sreg: vm.sreg + 1, ..vm }, ok)
        } else {
            (vm, false)
        }
    } else {
        if x < vm.cells.len() && vm.sreg < usize::MAX {
            (VmModel { cells: vm.cells + seq![vm.cells[x as int]], sreg: vm.sreg + 1, ..vm }, true)
        } else {
            (vm, false)
        }
    }
}

/// Effect of one instruction on the machine state, and whether the step
/// succeeded. A failing step leaves the state as it was, except that a
/// failing read-mode `UnifyValue` keeps the bindings its unification
/// attempt made.
pub open spec fn spec_step(vm: VmModel, op: Operation) -> (VmModel, bool) {
    match op {
        Operation::PutStructure(f, n, x) => spec_put_structure(vm, f, n, x),
        Operation::SetVariable(x) => spec_set_variable(vm, x),
        Operation::SetValue(x) => spec_set_value(vm, x),
        Operation::GetStructure(f, n, x) => spec_get_structure(vm, f, n, x),
        Operation::UnifyVariable(x) => spec_unify_variable(vm, x),
        Operation::UnifyValue(x) => spec_unify_value(vm, x),
    }
}

/// Outcome of running a program: the machine state, the final position of
/// the instruction pointer, and whether every step succeeded.
pub ghost struct RunOut {
    pub vm: VmModel,
    pub pos: nat,
    pub ok: bool,
}

/// Runs the program from a word position until decoding stops or a step
/// fails; a failing step still advances the instruction pointer, and the
/// run stops right after it.
pub open spec fn spec_run(vm: VmModel, words: Seq<usize>, pos: nat) -> RunOut
    decreases words.len() - pos,
{
    match spec_decode(words, pos as int) {
        None => RunOut { vm, pos, ok: true },
        Some(op) => {
            let (vm2, ok) = spec_step(vm, op);
            let pos2 = (pos + op.spec_advance()) as nat;
            if !ok {
                RunOut { vm: vm2, pos: pos2, ok: false }
            } else {
                spec_run(vm2, words, pos2)
            }
        },
    }
}

/// A step never shrinks the store and never touches the register count.
pub proof fn lemma_spec_step_grows(vm: VmModel, op: Operation)
    ensures
        spec_step(vm, op).0.cells.len() >= vm.cells.len(),
        spec_step(vm, op).0.regs == vm.regs,
{
    match op {
        Operation::PutStructure(f, n, x) => {
            assert(spec_step(vm, op) == spec_put_structure(vm, f, n, x));
            assert(spec_put_structure(vm, f, n, x).0.cells.len() >= vm.cells.len());
        },
        Operation::SetVariable(x) => {
            assert(spec_step(vm, op) == spec_set_variable(vm, x));
            assert(spec_set_variable(vm, x).0.cells.len() >= vm.cells.len());
        },
        Operation::SetValue(x) => {
            assert(spec_step(vm, op) == spec_set_value(vm, x));
            assert(spec_set_value(vm, x).0.cells.len() >= vm.cells.len());
        },
        Operation::GetStructure(f, n, x) => {
            assert(spec_step(vm, op) == spec_get_structure(vm, f, n, x));
            lemma_deref_step_terminal(vm.cells, x as int, vm.cells.len());
            match spec_deref(vm.cells, x as int) {
                Some(Cell::Ref(r)) => {
                    if vm.cells.len() + 2 <= usize::MAX {
                        let here = vm.cells.len();
                        let ptr = Cell::Struct((here + 1) as usize);
                        let s2 = vm.cells + seq![ptr, Cell::Funct(f, n)];
                        assert(r < vm.cells.len());
                        assert(spec_bind(s2, r as int, here as int).len() == s2.len());
                    }
                },
                _ => {},
            }
            assert(spec_get_structure(vm, f, n, x).0.cells.len() >= vm.cells.len());
        },
        Operation::UnifyVariable(x) => {
            assert(spec_step(vm, op) == spec_unify_variable(vm, x));
            assert(spec_unify_variable(vm, x).0.cells.len() >= vm.cells.len());
        },
        Operation::UnifyValue(x) => {
            assert(spec_step(vm, op) == spec_unify_value(vm, x));
            if !vm.write && vm.sreg < usize::MAX {
                lemma_spec_unify_frame(vm.cells, seq![(x as int, vm.sreg as int)], unify_fuel());
                assert(spec_unify(vm.cells, seq![(x as int, vm.sreg as int)], unify_fuel()).0.len()
                    == vm.cells.len());
                assert(spec_step(vm, op).0.cells == spec_unify(
                    vm.cells,
                    seq![(x as int, vm.sreg as int)],
                    unify_fuel(),
                ).0);
            }
            assert(spec_unify_value(vm, x).0.cells.len() >= vm.cells.len());
        },
    }
}

/// A run never shrinks the store and never touches the register count.
pub proof fn lemma_spec_run_grows(vm: VmModel, words: Seq<usize>, pos: nat)
    ensures
        spec_run(vm, words, pos).vm.cells.len() >= vm.cells.len(),
        spec_run(vm, words, pos).vm.regs == vm.regs,
    decreases words.len() - pos,
{
    match spec_decode(words, pos as int) {
        None => {},
        Some(op) => {
            lemma_spec_step_grows(vm, op);
            let (vm2, ok) = spec_step(vm, op);
            if ok {
                lemma_spec_run_grows(vm2, words, (pos + op.spec_advance()) as nat);
            }
        },
    }
}

/// The abstract machine: storage plus the instruction pointer, the
/// structure cursor and the unification mode.
pub struct Machine {
    storage: Storage,
    preg: usize,
    sreg: usize,
    unification_state: UnificationState,
}

impl View for Machine {
    type V = MachineModel;

    closed spec fn view(&self) -> MachineModel {
        MachineModel {
            cells: self.storage@.cells,
            regs: self.storage@.regs,
            sreg: self.sreg as nat,
            write: match self.unification_state {
                UnificationState::Read => false,
                UnificationState::Write => true,
            },
            preg: self.preg as nat,
        }
    }
}

impl Machine {
    /// The state an instruction acts on, the instruction pointer left out.
    pub open spec fn vm(self) -> VmModel {
        VmModel { cells: self@.cells, regs: self@.regs, sreg: self@.sreg, write: self@.write }
    }

    pub fn new() -> (r: Self)
        ensures
            r@.cells.len() == 0,
            r@.regs == 0,
            r@.sreg == 0,
            r@.write == false,
            r@.preg == 0,
    {
        Machine {
            storage: Storage::new(),
            preg: 0,
            sreg: 0,
            unification_state: UnificationState::Read,
        }
    }

    /// A machine over the given storage, with a fresh instruction pointer,
    /// cursor and mode.
    pub fn with_storage(storage: Storage) -> (r: Self)
        ensures
            r@.cells == storage@.cells,
            r@.regs == storage@.regs,
            r@.sreg == 0,
            r@.write == false,
            r@.preg == 0,
    {
        Machine { storage, preg: 0, sreg: 0, unification_state: UnificationState::Read }
    }

    /// The machine's storage.
    pub fn storage(&self) -> (r: &Storage)
        ensures
            r@.cells == self@.cells,
            r@.regs == self@.regs,
    {
        &self.storage
    }

    pub fn put_structure(&mut self, ident: usize, arity: usize, xreg: usize) -> (r: bool)
        ensures
            ({
                let (vm2, ok) = spec_put_structure(old(self).vm(), ident, arity, xreg);
                final(self).vm() == vm2 && r == ok
            }),
            final(self)@.preg == old(self)@.preg,
    {
        if xreg >= self.storage.len() || self.storage.len() > usize::MAX - 2 {
            return false;
        }
        let cell = self.storage.push_struct(ident, arity);
        self.storage.set(xreg, cell);
        true
    }

    pub fn set_variable(&mut self, xreg: usize) -> (r: bool)
        ensures
            ({
                let (vm2, ok) = spec_set_variable(old(self).vm(), xreg);
                final(self).vm() == vm2 && r == ok
            }),
            final(self)@.preg == old(self)@.preg,
    {
        if xreg >= self.storage.len() {
            return false;
        }
        let cell = self.storage.push_var();
        self.storage.set(xreg, cell);
        true
    }

    pub fn set_value(&mut self, xreg: usize) -> (r: bool)
        ensures
            ({
                let (vm2, ok) = spec_set_value(old(self).vm(), xreg);
                final(self).vm() == vm2 && r == ok
            }),
            final(self)@.preg == old(self)@.preg,
    {
        let cell = match self.storage.get(xreg) {
            Some(c) => c,
            None => {
                return false;
            },
        };
        self.storage.push_cell(cell);
        true
    }

    pub fn get_structure(&mut self, ident: usize, arity: usize, xreg: usize) -> (r: bool)
        ensures
            ({
                let (vm2, ok) = spec_get_structure(old(self).vm(), ident, arity, xreg);
                final(self).vm() == vm2 && r == ok
            }),
            final(self)@.preg == old(self)@.preg,
    {
        let item = match self.storage.deref(xreg) {
            Some(c) => c,
            None => {
                return false;
            },
        };
        match item {
            Cell::Ref(ref_addr) => {
                if self.storage.len() > usize::MAX - 2 {
                    return false;
                }
                proof {
                    lemma_deref_step_terminal(self@.cells, xreg as int, self@.cells.len());
                }
                let idx = self.storage.len();
                self.storage.push_struct(ident, arity);
                self.storage.bind(ref_addr, idx);
                self.unification_state = UnificationState::Write;
                true
            },
            Cell::Struct(a) => {
                if a >= self.storage.len() {
                    return false;
                }
                match self.storage.get(a) {
                    Some(Cell::Funct(f, n)) => {
                        if f == ident && n == arity {
                            self.sreg = a + 1;
                            self.unification_state = UnificationState::Read;
                            true
                        } else {
                            false
                        }
                    },
                    _ => false,
                }
            },
            _ => false,
        }
    }

    pub fn unify_variable(&mut self, xreg: usize) -> (r: bool)
        ensures
            ({
                let (vm2, ok) = spec_unify_variable(old(self).vm(), xreg);
                final(self).vm() == vm2 && r == ok
            }),
            final(self)@.preg == old(self)@.preg,
    {
        match self.unification_state {
            UnificationState::Read => {
                if xreg >= self.storage.len() {
                    return false;
                }
                let cell = match self.storage.get(self.sreg) {
                    Some(c) => c,
                    None => {
                        return false;
                    },
                };
                self.storage.set(xreg, cell);
                self.sreg = self.sreg + 1;
                true
            },
            UnificationState::Write => {
                if xreg >= self.storage.len() || self.sreg == usize::MAX {
                    return false;
                }
                let cell = self.storage.push_var();
                self.storage.set(xreg, cell);
                self.sreg = self.sreg + 1;
                true
            },
        }
    }

    pub fn unify_value(&mut self, xreg: usize) -> (r: bool)
        ensures
            ({
                let (vm2, ok) = spec_unify_value(old(self).vm(), xreg);
                final(self).vm() == vm2 && r == ok
            }),
            final(self)@.preg == old(self)@.preg,
    {
        match self.unification_state {
            UnificationState::Read => {
                if self.sreg == usize::MAX {
                    return false;
                }
                let ok = self.storage.unify(xreg, self.sreg);
                self.sreg = self.sreg + 1;
                ok
            },
            UnificationState::Write => {
                if self.sreg == usize::MAX {
                    return false;
                }
                let cell = match self.storage.get(xreg) {
                    Some(c) => c,
                    None => {
                        return false;
                    },
                };
                self.storage.push_cell(cell);
                self.sreg = self.sreg + 1;
                true
            },
        }
    }

    /// Performs one instruction and advances the instruction pointer by
    /// its stride, whether or not the step succeeded.
    pub fn perform_op(&mut self, op: Operation) -> (r: bool)
        requires
            old(self)@.preg + op.spec_advance() <= usize::MAX,
        ensures
            ({
                let (vm2, ok) = spec_step(old(self).vm(), op);
                final(self).vm() == vm2 && r == ok
            }),
            final(self)@.preg == old(self)@.preg + op.spec_advance(),
    {
        let res = match op {
            Operation::PutStructure(ident, arity, xreg) => self.put_structure(ident, arity, xreg),
            Operation::SetVariable(xreg) => self.set_variable(xreg),
            Operation::SetValue(xreg) => self.set_value(xreg),
            Operation::GetStructure(ident, arity, xreg) => self.get_structure(ident, arity, xreg),
            Operation::UnifyVariable(xreg) => self.unify_variable(xreg),
            Operation::UnifyValue(xreg) => self.unify_value(xreg),
        };
        self.preg = self.preg + op.advance();
        res
    }

    /// Executes a query against the knowledge base: storage is reset to
    /// enough registers for both, the query program builds its term on
    /// the heap, the term is moved to register 0, and the first fact of
    /// the knowledge base is matched against it. The result snapshots
    /// the machine's storage.
    pub fn query(&mut self, query: Query, knowledge: &Knowledge) -> (r: QueryResult)
        requires
            query.wf(),
        ensures
            ({
                let regs = if query@.program.xregs >= spec_x_registers(knowledge@) {
                    query@.program.xregs
                } else {
                    spec_x_registers(knowledge@)
                };
                let vm0 = VmModel {
                    cells: Seq::new(regs, |i: int| Cell::Empty),
                    regs,
                    sreg: old(self)@.sreg,
                    write: old(self)@.write,
                };
                let r1 = spec_run(vm0, query@.program.words, 0);
                let vm2 = if query@.top_level != 0 {
                    VmModel {
                        cells: r1.vm.cells.update(0, r1.vm.cells[query@.top_level as int]),
                        ..r1.vm
                    }
                } else {
                    r1.vm
                };
                let vm3 = if knowledge@.len() > 0 {
                    spec_run(vm2, knowledge@[0].words, 0).vm
                } else {
                    vm2
                };
                final(self).vm() == vm3 && r@.cells == vm3.cells && r@.regs == vm3.regs
                    && r@.xregs == query@.program.xregs
            }),
    {
        proof {
            lemma_query_parts(&query);
        }
        let q_regs = query.program.x_registers();
        let k_regs = knowledge.x_registers();
        let regs = if q_regs >= k_regs {
            q_regs
        } else {
            k_regs
        };
        self.storage.reset(regs);
        let ghost vm0 = self.vm();
        proof {
            assert(vm0.cells =~= Seq::new(regs as nat, |i: int| Cell::Empty));
        }
        self.run(&query.program);
        let ghost run1 = self.vm();
        if query.top_level != 0 {
            proof {
                lemma_spec_run_grows(vm0, query@.program.words, 0);
                assert(run1 == spec_run(vm0, query@.program.words, 0).vm);
                assert(run1.cells.len() >= regs);
                assert(query@.top_level < self@.cells.len());
            }
            let cell = match self.storage.get(query.top_level) {
                Some(c) => c,
                None => vstd::pervasive::unreached(),
            };
            self.storage.set(0, cell);
        }
        let programs = knowledge.programs();
        if programs.len() > 0 {
            let fact = &programs[0];
            proof {
                assert(fact@ == knowledge@[0]);
            }
            self.run(fact);
        }
        let snapshot = self.storage.snapshot();
        let result = QueryResult { storage: snapshot, xregs: q_regs };
        proof {
            lemma_query_result_view(&result);
        }
        result
    }

    /// Runs the program from its first word; a failing step aborts the
    /// rest of the run. True exactly if every step succeeded.
    #[verifier::loop_isolation(false)]
    pub fn run(&mut self, program: &Program) -> (r: bool)
        ensures
            ({
                let out = spec_run(old(self).vm(), program@.words, 0);
                final(self).vm() == out.vm && r == out.ok && final(self)@.preg == out.pos
            }),
    {
        self.preg = 0;
        loop
            invariant
                self@.preg <= program@.words.len() || self@.preg == 0,
                spec_run(old(self).vm(), program@.words, 0) == spec_run(
                    self.vm(),
                    program@.words,
                    self@.preg,
                ),
            decreases program@.words.len() - self@.preg,
        {
            match program.operation(self.preg) {
                None => {
                    return true;
                },
                Some(op) => {
                    proof {
                        assert(self@.preg + op.spec_advance() <= program@.words.len());
                    }
                    let ghost pre_vm = self.vm();
                    let ghost pre_pos = self@.preg;
                    let ok = self.perform_op(op);
                    proof {
                        assert(spec_run(pre_vm, program@.words, pre_pos) == (if ok {
                            spec_run(self.vm(), program@.words, self@.preg)
                        } else {
                            RunOut { vm: self.vm(), pos: self@.preg, ok: false }
                        }));
                    }
                    if !ok {
                        return false;
                    }
                },
            }
        }
    }
}

} // verus!
