//! The fact compiler: lowers a structured term into "get/unify" bytecode
//! that matches against the term already present on the heap, the root in
//! register 0.

use vstd::prelude::*;
use crate::operation::Operation;
use crate::program::{
    Program, ProgramBuilder, ProgramModel, encode_ops, ops_registers, spec_assembly,
};

verus! {

/// Reference to a part of a statement under construction, for building
/// structures over it.
#[derive(Clone, Copy)]
pub struct StatementRef(pub(crate) usize);

impl StatementRef {
    /// The register this reference stands for.
    pub closed spec fn spec_id(self) -> int {
        self.0 as int
    }
}

/// A compiled fact, ready to be added to a knowledge base.
pub struct Statement {
    pub(crate) program: Program,
}

impl View for Statement {
    type V = ProgramModel;

    closed spec fn view(&self) -> ProgramModel {
        self.program@
    }
}

impl Statement {
    /// A two-column listing of the statement's program.
    pub fn assembly(&self) -> (s: String)
        ensures
            s@ == spec_assembly(self@.words, 0, true),
    {
        self.program.assembly()
    }
}

/// A statement's model is its program's model.
pub(crate) proof fn lemma_statement_view(s: Statement)
    ensures
        s@ == s.program@,
{
}

/// Mathematical model of one register allocation of the builder: a bare
/// variable, or a structure with its functor identifier and the registers
/// of its subterms.
pub ghost enum AllocModel {
    Var,
    Struct(usize, Seq<usize>),
}

enum RegisterAllocation {
    Var,
    Struct(usize, Vec<usize>),
}

impl View for RegisterAllocation {
    type V = AllocModel;

    closed spec fn view(&self) -> AllocModel {
        match self {
            RegisterAllocation::Var => AllocModel::Var,
            RegisterAllocation::Struct(ident, subterms) => AllocModel::Struct(*ident, subterms@),
        }
    }
}

/// Whether an allocation's subterm registers all lie in `1 .. bound`.
pub open spec fn alloc_children_ok(a: AllocModel, bound: int) -> bool {
    match a {
        AllocModel::Var => true,
        AllocModel::Struct(_, cs) => forall|k: int|
            0 <= k < cs.len() ==> 1 <= #[trigger] cs[k] < bound,
    }
}

/// Registers other than the top-level slot only refer to smaller,
/// non-zero registers: subterms are allocated before their parents.
pub open spec fn stmt_tail_wf(allocs: Seq<AllocModel>) -> bool {
    forall|i: int| 1 <= i < allocs.len() ==> alloc_children_ok(#[trigger] allocs[i], i)
}

/// The top-level slot only refers to registers of the builder.
pub open spec fn stmt_head_ok(allocs: Seq<AllocModel>) -> bool {
    allocs.len() >= 1 && alloc_children_ok(allocs[0], allocs.len() as int)
}

/// Well-formedness of a builder's allocations: the reserved top-level
/// slot is a variable and every structure refers only to earlier,
/// non-zero registers.
pub open spec fn allocs_wf(allocs: Seq<AllocModel>) -> bool {
    allocs.len() >= 1 && allocs[0] == AllocModel::Var && stmt_tail_wf(allocs)
}

/// The allocations with the top-level slot and the root's slot exchanged.
pub open spec fn swap_allocs(allocs: Seq<AllocModel>, r: int) -> Seq<AllocModel> {
    allocs.update(0, allocs[r]).update(r, allocs[0])
}

/// The size of the register tree rooted at `i`: every occurrence of a
/// subterm register counts once more.
pub open spec fn alloc_weight(allocs: Seq<AllocModel>, i: int) -> nat
    decreases i, 1int, 0int,
        when 1 <= i && stmt_tail_wf(allocs)
{
    if i < allocs.len() {
        match allocs[i] {
            AllocModel::Var => 1,
            AllocModel::Struct(_, cs) => 1 + weight_sum(allocs, cs, i),
        }
    } else {
        1
    }
}

/// The summed weights of a list of registers, all below `bound`.
pub open spec fn weight_sum(allocs: Seq<AllocModel>, cs: Seq<usize>, bound: int) -> nat
    decreases bound, 0int, cs.len(),
        when (forall|k: int| 0 <= k < cs.len() ==> 1 <= #[trigger] cs[k] < bound) && stmt_tail_wf(
            allocs,
        )
{
    if cs.len() == 0 {
        0
    } else {
        alloc_weight(allocs, cs[0] as int) + weight_sum(allocs, cs.drop_first(), bound)
    }
}

/// The summed weights of a whole work stack.
pub open spec fn stack_weight(allocs: Seq<AllocModel>, stack: Seq<int>) -> nat
    decreases stack.len(),
{
    if stack.len() == 0 {
        0
    } else {
        stack_weight(allocs, stack.drop_last()) + alloc_weight(allocs, stack.last())
    }
}

/// How many entries of the work stack are the top-level register.
pub open spec fn count_zeros(stack: Seq<int>) -> nat
    decreases stack.len(),
{
    if stack.len() == 0 {
        0
    } else {
        count_zeros(stack.drop_last()) + if stack.last() == 0 {
            1nat
        } else {
            0nat
        }
    }
}

/// The unify instructions for the subterm registers of one structure, in
/// order, together with the visited set they leave behind: a register's
/// first occurrence declares it, later occurrences unify against it.
pub open spec fn emit_children(cs: Seq<usize>, visited: Seq<bool>) -> (Seq<Operation>, Seq<bool>)
    decreases cs.len(),
{
    if cs.len() == 0 {
        (Seq::empty(), visited)
    } else {
        let c = cs[0];
        let seen = c < visited.len() && visited[c as int];
        let (op, v2) = if seen {
            (Operation::UnifyValue(c), visited)
        } else {
            (
                Operation::UnifyVariable(c),
                if c < visited.len() {
                    visited.update(c as int, true)
                } else {
                    visited
                },
            )
        };
        let (rest_ops, v3) = emit_children(cs.drop_first(), v2);
        (seq![op] + rest_ops, v3)
    }
}

/// The instructions emitted from a work stack: each popped structure
/// yields one `GetStructure` and one unify instruction per subterm, and
/// its subterms are pushed in order.
pub open spec fn compile_from(
    allocs: Seq<AllocModel>,
    stack: Seq<int>,
    visited: Seq<bool>,
) -> Seq<Operation>
    decreases count_zeros(stack), stack_weight(allocs, stack),
        when stack_elems_ok(allocs, stack) && stmt_tail_wf(allocs) && stmt_head_ok(allocs)
        via compile_from_decreases
{
    if stack.len() == 0 {
        Seq::empty()
    } else {
        let r = stack.last();
        let rest = stack.drop_last();
        match allocs[r] {
            AllocModel::Var => compile_from(allocs, rest, visited),
            AllocModel::Struct(ident, cs) => {
                let (cops, v2) = emit_children(cs, visited);
                seq![Operation::GetStructure(ident, cs.len() as usize, r as usize)] + cops
                    + compile_from(allocs, rest + cs.map_values(|c: usize| c as int), v2)
            },
        }
    }
}

/// Whether every entry of the work stack is a register of the builder.
pub open spec fn stack_elems_ok(allocs: Seq<AllocModel>, stack: Seq<int>) -> bool {
    forall|j: int| 0 <= j < stack.len() ==> 0 <= #[trigger] stack[j] < allocs.len()
}

/// Splitting a stack splits its weight.
pub proof fn lemma_stack_weight_concat(allocs: Seq<AllocModel>, s1: Seq<int>, s2: Seq<int>)
    ensures
        stack_weight(allocs, s1 + s2) == stack_weight(allocs, s1) + stack_weight(allocs, s2),
    decreases s2.len(),
{
    if s2.len() == 0 {
        assert(s1 + s2 =~= s1);
    } else {
        assert((s1 + s2).drop_last() =~= s1 + s2.drop_last());
        assert((s1 + s2).last() == s2.last());
        lemma_stack_weight_concat(allocs, s1, s2.drop_last());
    }
}

/// Splitting a stack splits its count of top-level entries.
pub proof fn lemma_count_zeros_concat(s1: Seq<int>, s2: Seq<int>)
    ensures
        count_zeros(s1 + s2) == count_zeros(s1) + count_zeros(s2),
    decreases s2.len(),
{
    if s2.len() == 0 {
        assert(s1 + s2 =~= s1);
    } else {
        assert((s1 + s2).drop_last() =~= s1 + s2.drop_last());
        assert((s1 + s2).last() == s2.last());
        lemma_count_zeros_concat(s1, s2.drop_last());
    }
}

/// A register list of positive registers below `bound` adds no top-level
/// entries to the stack, and its stack weight is its summed weight.
pub proof fn lemma_children_on_stack(allocs: Seq<AllocModel>, cs: Seq<usize>, bound: int)
    requires
        forall|k: int| 0 <= k < cs.len() ==> 1 <= #[trigger] cs[k] < bound,
        stmt_tail_wf(allocs),
    ensures
        count_zeros(cs.map_values(|c: usize| c as int)) == 0,
        stack_weight(allocs, cs.map_values(|c: usize| c as int)) == weight_sum(allocs, cs, bound),
    decreases cs.len(),
{
    let m = cs.map_values(|c: usize| c as int);
    if cs.len() == 0 {
    } else {
        let front = cs.drop_last();
        lemma_children_on_stack(allocs, front, bound);
        assert(m.drop_last() =~= front.map_values(|c: usize| c as int));
        assert(m.last() == cs.last() as int);
        lemma_weight_sum_drop_last(allocs, cs, bound);
    }
}

/// The summed weight of a register list, taken from either end.
pub proof fn lemma_weight_sum_drop_last(allocs: Seq<AllocModel>, cs: Seq<usize>, bound: int)
    requires
        cs.len() > 0,
        forall|k: int| 0 <= k < cs.len() ==> 1 <= #[trigger] cs[k] < bound,
        stmt_tail_wf(allocs),
    ensures
        weight_sum(allocs, cs, bound) == weight_sum(allocs, cs.drop_last(), bound) + alloc_weight(
            allocs,
            cs.last() as int,
        ),
    decreases cs.len(),
{
    if cs.len() == 1 {
        assert(cs.drop_first() =~= cs.drop_last());
        assert(weight_sum(allocs, cs.drop_last(), bound) == 0);
    } else {
        lemma_weight_sum_drop_last(allocs, cs.drop_first(), bound);
        assert(cs.drop_first().drop_last() =~= cs.drop_last().drop_first());
        assert(cs.drop_first().last() == cs.last());
        assert(cs.drop_last()[0] == cs[0]);
    }
}

/// Every register tree has at least one node.
pub proof fn lemma_alloc_weight_pos(allocs: Seq<AllocModel>, i: int)
    requires
        1 <= i,
        stmt_tail_wf(allocs),
    ensures
        alloc_weight(allocs, i) >= 1,
{
}

/// The visited set of the lowering loop, held as a bit-vector. Verus
/// sees this struct as opaque; its contents are reached through
/// `bits_of` and the trusted accessors below.
#[verifier::external_body]
pub struct VisitedBits {
    bits: bitvec::vec::BitVec<usize, bitvec::order::Lsb0>,
}

/// The bits held by a visited set.
pub uninterp spec fn bits_of(v: VisitedBits) -> Seq<bool>;

/// Relies on bitvec's `BitVec::repeat`: a bit-vector of `len` cleared bits.
#[verifier::external_body]
fn bits_repeat(len: usize) -> (r: VisitedBits)
    ensures
        bits_of(r) == Seq::new(len as nat, |i: int| false),
{
    VisitedBits { bits: bitvec::vec::BitVec::repeat(false, len) }
}

/// Relies on bitvec's `BitSlice::get`: the bit at `i`, or cleared when
/// `i` is out of bounds.
#[verifier::external_body]
fn bits_get(v: &VisitedBits, i: usize) -> (r: bool)
    ensures
        r == (i < bits_of(*v).len() && bits_of(*v)[i as int]),
{
    match v.bits.get(i) {
        Some(b) => *b,
        None => false,
    }
}

/// Relies on bitvec's `BitSlice::set`: writes the bit at `i`, which must
/// be in bounds.
#[verifier::external_body]
fn bits_set(v: &mut VisitedBits, i: usize, value: bool)
    requires
        i < bits_of(*old(v)).len(),
    ensures
        bits_of(*final(v)) == bits_of(*old(v)).update(i as int, value),
{
    v.bits.set(i, value);
}

/// Builder for a structured statement: registers are allocated for each
/// variable and structure, the top-level slot reserved first.
pub struct StatementBuilder {
    registers: Vec<RegisterAllocation>,
}

impl View for StatementBuilder {
    type V = Seq<AllocModel>;

    closed spec fn view(&self) -> Seq<AllocModel> {
        self.registers@.map_values(|a: RegisterAllocation| a@)
    }
}

impl StatementBuilder {
    pub fn new() -> (r: Self)
        ensures
            r@ == seq![AllocModel::Var],
            allocs_wf(r@),
    {
        let mut registers: Vec<RegisterAllocation> = Vec::new();
        registers.push(RegisterAllocation::Var);
        let r = StatementBuilder { registers };
        proof {
            assert(r@ =~= seq![AllocModel::Var]);
        }
        r
    }

    /// Allocates a register for a fresh variable.
    pub fn variable(&mut self) -> (r: StatementRef)
        requires
            allocs_wf(old(self)@),
        ensures
            final(self)@ == old(self)@ + seq![AllocModel::Var],
            r.spec_id() == old(self)@.len(),
            allocs_wf(final(self)@),
    {
        self.registers.push(RegisterAllocation::Var);
        let r = StatementRef(self.registers.len() - 1);
        proof {
            assert(self@ =~= old(self)@ + seq![AllocModel::Var]);
            assert forall|i: int| 1 <= i < self@.len() implies alloc_children_ok(
                #[trigger] self@[i],
                i,
            ) by {
                if i < old(self)@.len() {
                    assert(alloc_children_ok(old(self)@[i], i));
                }
            }
        }
        r
    }

    /// Allocates a register for a structure over previously allocated
    /// subterms.
    pub fn structure(&mut self, ident: usize, subterms: Vec<StatementRef>) -> (r: StatementRef)
        requires
            allocs_wf(old(self)@),
            forall|k: int|
                0 <= k < subterms@.len() ==> 1 <= (#[trigger] subterms@[k]).spec_id() < old(
                    self,
                )@.len(),
        ensures
            final(self)@ == old(self)@ + seq![
                AllocModel::Struct(
                    ident,
                    subterms@.map_values(|s: StatementRef| (s.spec_id() as usize)),
                ),
            ],
            r.spec_id() == old(self)@.len(),
            allocs_wf(final(self)@),
    {
        let mut regs: Vec<usize> = Vec::new();
        let mut k: usize = 0;
        while k < subterms.len()
            invariant
                k <= subterms@.len(),
                regs@ == subterms@.subrange(0, k as int).map_values(
                    |s: StatementRef| (s.spec_id() as usize),
                ),
            decreases subterms@.len() - k,
        {
            regs.push(subterms[k].0);
            k = k + 1;
            proof {
                assert(regs@ =~= subterms@.subrange(0, k as int).map_values(
                    |s: StatementRef| (s.spec_id() as usize),
                ));
            }
        }
        proof {
            assert(subterms@.subrange(0, subterms@.len() as int) =~= subterms@);
        }
        self.registers.push(RegisterAllocation::Struct(ident, regs));
        let r = StatementRef(self.registers.len() - 1);
        proof {
            let added = AllocModel::Struct(
                ident,
                subterms@.map_values(|s: StatementRef| (s.spec_id() as usize)),
            );
            assert(self@ =~= old(self)@ + seq![added]);
            assert forall|i: int| 1 <= i < self@.len() implies alloc_children_ok(
                #[trigger] self@[i],
                i,
            ) by {
                if i < old(self)@.len() {
                    assert(alloc_children_ok(old(self)@[i], i));
                } else {
                    assert(self@[i] == added);
                }
            }
        }
        r
    }

    /// Lowers the statement into the program that matches it against the
    /// term already on the heap. The root is exchanged with the reserved
    /// top-level slot; a work stack then walks the register tree from the
    /// top, emitting one `GetStructure` per structure and one unify
    /// instruction per subterm, where a register's first occurrence
    /// declares it and later occurrences unify against it.
    #[verifier::loop_isolation(false)]
    #[verifier::rlimit(100)]
    pub fn build(self, root: StatementRef) -> (r: Statement)
        requires
            allocs_wf(self@),
            1 <= root.spec_id() < self@.len(),
        ensures
            r@.ops == compile_from(
                swap_allocs(self@, root.spec_id()),
                seq![0int],
                Seq::new(self@.len(), |j: int| false),
            ),
            r@.words == encode_ops(r@.ops),
            r@.xregs == ops_registers(r@.ops),
    {
        let ghost orig = self@;
        let mut registers = self.registers;
        let rt = root.0;

        let mut tmp = RegisterAllocation::Var;
        registers.set_and_swap(rt, &mut tmp);
        registers.set_and_swap(0, &mut tmp);
        registers.set(rt, tmp);
        let ghost allocs = registers@.map_values(|a: RegisterAllocation| a@);
        proof {
            assert(allocs =~= swap_allocs(orig, root.spec_id()));
            assert forall|i: int| 1 <= i < allocs.len() implies alloc_children_ok(
                #[trigger] allocs[i],
                i,
            ) by {
                if i != root.spec_id() {
                    assert(alloc_children_ok(orig[i], i));
                }
            }
            assert(alloc_children_ok(allocs[0], allocs.len() as int)) by {
                assert(allocs[0] == orig[root.spec_id()]);
                assert(alloc_children_ok(orig[root.spec_id()], root.spec_id()));
            }
        }

        let n = registers.len();
        let mut stack: Vec<usize> = Vec::new();
        stack.push(0);
        let mut visited = bits_repeat(n);
        let mut program = ProgramBuilder::new();
        let ghost total = compile_from(allocs, seq![0int], Seq::new(orig.len(), |j: int| false));
        proof {
            assert(stack@.map_values(|x: usize| x as int) =~= seq![0int]);
        }

        while stack.len() > 0
            invariant
                registers@.map_values(|a: RegisterAllocation| a@) == allocs,
                bits_of(visited).len() == allocs.len(),
                stack_elems_ok(allocs, stack@.map_values(|x: usize| x as int)),
                program.wf(),
                program@.ops + compile_from(
                    allocs,
                    stack@.map_values(|x: usize| x as int),
                    bits_of(visited),
                ) == total,
            decreases count_zeros(stack@.map_values(|x: usize| x as int)),
                stack_weight(allocs, stack@.map_values(|x: usize| x as int)),
        {
            let ghost pre_stack = stack@.map_values(|x: usize| x as int);
            let ghost pre_visited = bits_of(visited);
            let ghost pre_ops = program@.ops;
            let reg = match stack.pop() {
                Some(x) => x,
                None => vstd::pervasive::unreached(),
            };
            proof {
                assert(pre_stack.last() == reg as int);
                assert(stack@.map_values(|x: usize| x as int) =~= pre_stack.drop_last());
            }
            let ghost rest = pre_stack.drop_last();
            let alloc = &registers[reg];
            match alloc {
                RegisterAllocation::Var => {
                    proof {
                        assert(allocs[reg as int] == AllocModel::Var);
                        assert(compile_from(allocs, pre_stack, pre_visited) == compile_from(
                            allocs,
                            rest,
                            pre_visited,
                        ));
                        if reg != 0 {
                            lemma_alloc_weight_pos(allocs, reg as int);
                        }
                    }
                },
                RegisterAllocation::Struct(ident, st) => {
                    let ident_v = *ident;
                    let arity = st.len();
                    let ghost st_seq = st@;
                    let ghost bound = if reg == 0 {
                        allocs.len() as int
                    } else {
                        reg as int
                    };
                    proof {
                        assert(allocs[reg as int] == AllocModel::Struct(ident_v, st_seq));
                        assert(alloc_children_ok(allocs[reg as int], bound));
                    }
                    program.get_structure(ident_v, arity, reg);
                    let ghost full = emit_children(st_seq, pre_visited);
                    let ghost gs = seq![
                        Operation::GetStructure(ident_v, st_seq.len() as usize, reg as usize),
                    ];
                    proof {
                        assert(st_seq.skip(0) =~= st_seq);
                    }
                    let mut k: usize = 0;
                    while k < st.len()
                        invariant
                            k <= st_seq.len(),
                            st@ == st_seq,
                            program.wf(),
                            bits_of(visited).len() == allocs.len(),
                            program@.ops + emit_children(
                                st_seq.skip(k as int),
                                bits_of(visited),
                            ).0 == pre_ops + gs + full.0,
                            emit_children(st_seq.skip(k as int), bits_of(visited)).1 == full.1,
                            stack@.map_values(|x: usize| x as int) == rest + st_seq.subrange(
                                0,
                                k as int,
                            ).map_values(|c: usize| c as int),
                        decreases st_seq.len() - k,
                    {
                        let ghost loop_visited = bits_of(visited);
                        let ghost loop_stack = stack@.map_values(|x: usize| x as int);
                        let c = st[k];
                        proof {
                            assert(1 <= c < allocs.len());
                            assert(st_seq.skip(k as int)[0] == c);
                            assert(st_seq.skip(k as int).drop_first() =~= st_seq.skip(k as int + 1));
                        }
                        if bits_get(&visited, c) {
                            program.unify_value(c);
                        } else {
                            program.unify_variable(c);
                            bits_set(&mut visited, c, true);
                        }
                        stack.push(c);
                        k = k + 1;
                        proof {
                            assert(emit_children(st_seq.skip(k as int - 1), loop_visited)
                                == (seq![program@.ops.last()] + emit_children(
                                    st_seq.skip(k as int),
                                    bits_of(visited),
                                ).0, emit_children(st_seq.skip(k as int), bits_of(visited)).1));
                            assert(program@.ops + emit_children(
                                st_seq.skip(k as int),
                                bits_of(visited),
                            ).0 =~= pre_ops + gs + full.0);
                            let m_new = stack@.map_values(|x: usize| x as int);
                            let tgt = rest + st_seq.subrange(0, k as int).map_values(
                                |c0: usize| c0 as int,
                            );
                            assert(m_new.len() == tgt.len());
                            assert forall|j: int| 0 <= j < m_new.len() implies m_new[j] == tgt[j] by {
                                if j < loop_stack.len() {
                                    assert(m_new[j] == loop_stack[j]);
                                } else {
                                    assert(m_new[j] == c as int);
                                    assert(tgt[j] == st_seq.subrange(0, k as int).map_values(
                                        |c0: usize| c0 as int,
                                    )[j - rest.len()]);
                                }
                            }
                            assert(m_new =~= tgt);
                        }
                    }
                    proof {
                        assert(st_seq.skip(st_seq.len() as int) =~= Seq::<usize>::empty());
                        assert(program@.ops =~= pre_ops + gs + full.0);
                        assert(bits_of(visited) == full.1);
                        assert(st_seq.subrange(0, st_seq.len() as int) =~= st_seq);
                        let m = st_seq.map_values(|c: usize| c as int);
                        assert(stack@.map_values(|x: usize| x as int) =~= rest + m);
                        assert(compile_from(allocs, pre_stack, pre_visited) == gs + full.0
                            + compile_from(allocs, rest + m, full.1));
                        assert(program@.ops + compile_from(
                            allocs,
                            stack@.map_values(|x: usize| x as int),
                            bits_of(visited),
                        ) =~= total);
                        lemma_children_on_stack(allocs, st_seq, bound);
                        lemma_count_zeros_concat(rest, m);
                        if reg != 0 {
                            lemma_stack_weight_concat(allocs, rest, m);
                            lemma_alloc_weight_pos(allocs, reg as int);
                        }
                    }
                },
            }
        }
        proof {
            assert(stack@.map_values(|x: usize| x as int).len() == 0);
            assert(compile_from(
                allocs,
                stack@.map_values(|x: usize| x as int),
                bits_of(visited),
            ) =~= Seq::<Operation>::empty());
            assert(program@.ops =~= total);
        }
        Statement { program: program.build() }
    }

    /// Allocates a register for a constant: a structure with no subterms.
    pub fn constant(&mut self, ident: usize) -> (r: StatementRef)
        requires
            allocs_wf(old(self)@),
        ensures
            final(self)@ == old(self)@ + seq![AllocModel::Struct(ident, Seq::empty())],
            r.spec_id() == old(self)@.len(),
            allocs_wf(final(self)@),
    {
        let r = self.structure(ident, Vec::new());
        proof {
            assert(Seq::<StatementRef>::empty().map_values(
                |s: StatementRef| (s.spec_id() as usize),
            ) =~= Seq::<usize>::empty());
        }
        r
    }
}

#[via_fn]
proof fn compile_from_decreases(allocs: Seq<AllocModel>, stack: Seq<int>, visited: Seq<bool>) {
    if stack.len() > 0 {
        let r = stack.last();
        let rest = stack.drop_last();
        match allocs[r] {
            AllocModel::Var => {
                if r != 0 {
                    lemma_alloc_weight_pos(allocs, r);
                }
            },
            AllocModel::Struct(ident, cs) => {
                let m = cs.map_values(|c: usize| c as int);
                let bound = if r == 0 {
                    allocs.len() as int
                } else {
                    r
                };
                assert(alloc_children_ok(allocs[r], bound));
                lemma_children_on_stack(allocs, cs, bound);
                lemma_count_zeros_concat(rest, m);
                if r != 0 {
                    lemma_stack_weight_concat(allocs, rest, m);
                    lemma_alloc_weight_pos(allocs, r);
                }
            },
        }
    }
}

} // verus!
