//! Tagged-cell address space of the machine: a register prefix followed by
//! an append-only heap, with binding, dereferencing and unification.

use vstd::prelude::*;
use vstd::pervasive::VecAdditionalExecFns;

verus! {

/// A single cell of storage.
#[derive(Debug, Clone, Copy, PartialEq, Eq, Structural)]
pub enum Cell {
    /// Reference to another cell; a reference to its own address is a free
    /// variable.
    Ref(usize),
    /// Pointer to a structure header.
    Struct(usize),
    /// Structure header: functor identifier and arity, immediately followed
    /// by one cell per argument.
    Funct(usize, usize),
    /// Uninitialized; the state of registers after a reset.
    Empty,
}

impl Default for Cell {
    fn default() -> (r: Self)
        ensures
            r == Cell::Empty,
    {
        Cell::Empty
    }
}

impl Cell {
    /// The address held by a `Ref` cell, if this is one.
    pub fn to_ref(self) -> (r: Option<usize>)
        ensures
            r == (match self {
                Cell::Ref(a) => Some(a),
                _ => None::<usize>,
            }),
    {
        if let Cell::Ref(a) = self {
            Some(a)
        } else {
            None
        }
    }

    /// The header address held by a `Struct` cell, if this is one.
    pub fn to_struct(self) -> (r: Option<usize>)
        ensures
            r == (match self {
                Cell::Struct(a) => Some(a),
                _ => None::<usize>,
            }),
    {
        if let Cell::Struct(a) = self {
            Some(a)
        } else {
            None
        }
    }

    /// The functor identifier and arity held by a `Funct` cell, if this is
    /// one.
    pub fn to_funct(self) -> (r: Option<(usize, usize)>)
        ensures
            r == (match self {
                Cell::Funct(f, n) => Some((f, n)),
                _ => None::<(usize, usize)>,
            }),
    {
        if let Cell::Funct(f, n) = self {
            Some((f, n))
        } else {
            None
        }
    }
}

/// Whether one cell is internally consistent with the store it sits in:
/// references stay in bounds, and a structure pointer leads to a header
/// whose argument block is in bounds.
pub open spec fn cell_ok(s: Seq<Cell>, c: Cell) -> bool {
    match c {
        Cell::Ref(a) => a < s.len(),
        Cell::Struct(a) => a < s.len() && (s[a as int] matches Cell::Funct(_, n) && a + n < s.len()),
        Cell::Funct(_, _) => true,
        Cell::Empty => true,
    }
}

/// Well-formedness of a whole store: every cell is consistent with it.
pub open spec fn store_ok(s: Seq<Cell>) -> bool {
    forall|i: int| 0 <= i < s.len() ==> cell_ok(s, #[trigger] s[i])
}

/// Whether the chain from `addr` may stop there: the cell is not a
/// reference, or refers to itself (a free variable).
pub open spec fn is_terminal(s: Seq<Cell>, addr: int) -> bool {
    0 <= addr < s.len() && match s[addr] {
        Cell::Ref(a) => a as int == addr,
        _ => true,
    }
}

/// A free variable: a self-referencing cell.
pub open spec fn is_free(s: Seq<Cell>, addr: int) -> bool {
    0 <= addr < s.len() && s[addr] == Cell::Ref(addr as usize)
}

/// Walks the reference chain from `addr`, following at most `fuel`
/// proper links, and gives the terminal address, or nothing if the walk
/// leaves the store or does not come to rest.
pub open spec fn deref_step(s: Seq<Cell>, addr: int, fuel: nat) -> Option<int>
    decreases fuel,
{
    if 0 <= addr < s.len() {
        match s[addr] {
            Cell::Ref(a) => {
                if a as int == addr {
                    Some(addr)
                } else if fuel == 0 {
                    None
                } else {
                    deref_step(s, a as int, (fuel - 1) as nat)
                }
            },
            _ => Some(addr),
        }
    } else {
        None
    }
}

/// The terminal address of the reference chain from `addr`. A store of
/// `n` cells cannot hold a longer simple chain, so `n` links suffice for
/// every chain that comes to rest at all.
pub open spec fn spec_deref_idx(s: Seq<Cell>, addr: int) -> Option<int> {
    deref_step(s, addr, s.len())
}

/// The cell at the terminal address of the chain from `addr`.
pub open spec fn spec_deref(s: Seq<Cell>, addr: int) -> Option<Cell> {
    match spec_deref_idx(s, addr) {
        Some(t) => Some(s[t]),
        None => None,
    }
}

/// The store after binding `a1` and `a2`: whichever of the two is a free
/// variable (the first is preferred) is overwritten with a reference to
/// the other; if neither is free, nothing changes.
pub open spec fn spec_bind(s: Seq<Cell>, a1: int, a2: int) -> Seq<Cell> {
    if s[a1] == Cell::Ref(a1 as usize) {
        s.update(a1, Cell::Ref(a2 as usize))
    } else if s[a2] == Cell::Ref(a2 as usize) {
        s.update(a2, Cell::Ref(a1 as usize))
    } else {
        s
    }
}

/// The functor header at address `v`, if that address holds one.
pub open spec fn funct_at(s: Seq<Cell>, v: int) -> Option<(usize, usize)> {
    if 0 <= v < s.len() {
        match s[v] {
            Cell::Funct(f, n) => Some((f, n)),
            _ => None,
        }
    } else {
        None
    }
}

/// The address pairs of the argument blocks of two structure headers,
/// in the order they are put onto the work stack.
pub open spec fn arg_pairs(v1: int, v2: int, n: nat) -> Seq<(int, int)> {
    Seq::new(n, |i: int| (v1 + 1 + i, v2 + 1 + i))
}

/// One run of the unification working loop: pairs are taken from the end
/// of the stack, dereferenced, and either skipped, bound, or expanded
/// into their argument pairs. Each `fuel` unit pays for one loop step.
pub open spec fn spec_unify(s: Seq<Cell>, stack: Seq<(int, int)>, fuel: nat) -> (Seq<Cell>, bool)
    decreases fuel,
{
    if stack.len() == 0 {
        (s, true)
    } else if fuel == 0 {
        (s, false)
    } else {
        let (d1, d2) = stack.last();
        let rest = stack.drop_last();
        match (spec_deref_idx(s, d1), spec_deref_idx(s, d2)) {
            (Some(t1), Some(t2)) => {
                if t1 == t2 {
                    spec_unify(s, rest, (fuel - 1) as nat)
                } else {
                    match (s[t1], s[t2]) {
                        (Cell::Struct(v1), Cell::Struct(v2)) => {
                            match (funct_at(s, v1 as int), funct_at(s, v2 as int)) {
                                (Some((f1, n1)), Some((f2, n2))) => {
                                    if f1 == f2 && n1 == n2 {
                                        if v1 + n1 <= usize::MAX && v2 + n1 <= usize::MAX {
                                            spec_unify(
                                                s,
                                                rest + arg_pairs(v1 as int, v2 as int, n1 as nat),
                                                (fuel - 1) as nat,
                                            )
                                        } else {
                                            (s, false)
                                        }
                                    } else {
                                        (s, false)
                                    }
                                },
                                _ => (s, false),
                            }
                        },
                        (Cell::Ref(_), _) | (_, Cell::Ref(_)) => {
                            spec_unify(spec_bind(s, t1, t2), rest, (fuel - 1) as nat)
                        },
                        _ => (s, false),
                    }
                }
            },
            _ => (s, false),
        }
    }
}

/// The step budget the unification loop starts from; far beyond any run
/// that finishes at all.
pub open spec fn unify_fuel() -> nat {
    u128::MAX as nat
}

/// Mathematical model of a `Storage`: the cell sequence and the size of the
/// register prefix.
pub ghost struct StorageModel {
    pub cells: Seq<Cell>,
    pub regs: nat,
}

/// Address space for the machine.
///
/// The store begins with the registers, followed by the heap, which only
/// grows during a run. Registers and heap share one address space: an
/// address below `regs` is a register, anything else is a heap cell.
pub struct Storage {
    store: Vec<Cell>,
    regs: usize,
}

impl View for Storage {
    type V = StorageModel;

    closed spec fn view(&self) -> StorageModel {
        StorageModel { cells: self.store@, regs: self.regs as nat }
    }
}

impl Storage {
    /// The register prefix never exceeds the store.
    pub open spec fn wf(self) -> bool {
        self@.regs <= self@.cells.len()
    }

    pub fn new() -> (r: Self)
        ensures
            r@.cells.len() == 0,
            r@.regs == 0,
            r.wf(),
    {
        Storage { store: Vec::new(), regs: 0 }
    }

    /// A storage with the given register count over the given cells.
    pub fn from_iter(regs: usize, store: Vec<Cell>) -> (r: Self)
        ensures
            r@.cells == store@,
            r@.regs == regs as nat,
    {
        Storage { regs, store }
    }

    /// Resets the storage before an execution: exactly `regs` registers,
    /// each uninitialized, and an empty heap.
    pub fn reset(&mut self, regs: usize)
        ensures
            final(self)@.cells == Seq::new(regs as nat, |i: int| Cell::Empty),
            final(self)@.regs == regs as nat,
            final(self).wf(),
    {
        self.regs = regs;
        self.store.clear();
        let mut i: usize = 0;
        while i < regs
            invariant
                i <= regs,
                self.store@ == Seq::new(i as nat, |j: int| Cell::Empty),
                self.regs == regs,
            decreases regs - i,
        {
            self.store.push(Cell::Empty);
            i = i + 1;
            proof {
                assert(self.store@ =~= Seq::new(i as nat, |j: int| Cell::Empty));
            }
        }
    }

    /// The cells of the register prefix.
    pub fn registers(&self) -> (r: Vec<Cell>)
        requires
            self.wf(),
        ensures
            r@ == self@.cells.subrange(0, self@.regs as int),
    {
        let mut r: Vec<Cell> = Vec::new();
        let mut i: usize = 0;
        while i < self.regs
            invariant
                i <= self.regs,
                self.regs <= self.store.len(),
                r@ == self.store@.subrange(0, i as int),
            decreases self.regs - i,
        {
            r.push(self.store[i]);
            i = i + 1;
            proof {
                assert(r@ =~= self.store@.subrange(0, i as int));
            }
        }
        r
    }

    /// The number of cells in the store, registers and heap together.
    pub fn len(&self) -> (r: usize)
        ensures
            r == self@.cells.len(),
    {
        self.store.len()
    }

    /// Overwrites the cell at an address.
    pub fn set(&mut self, addr: usize, cell: Cell)
        requires
            addr < old(self)@.cells.len(),
        ensures
            final(self)@.cells == old(self)@.cells.update(addr as int, cell),
            final(self)@.regs == old(self)@.regs,
    {
        self.store.set(addr, cell);
    }

    /// The cell at an address, if the address is in bounds.
    pub fn get(&self, addr: usize) -> (r: Option<Cell>)
        ensures
            r == (if addr < self@.cells.len() {
                Some(self@.cells[addr as int])
            } else {
                None::<Cell>
            }),
    {
        if addr < self.store.len() {
            Some(self.store[addr])
        } else {
            None
        }
    }

    /// Pushes a structure pointer and its header onto the heap and returns
    /// the pointer cell.
    pub fn push_struct(&mut self, ident: usize, arity: usize) -> (r: Cell)
        requires
            old(self)@.cells.len() + 2 <= usize::MAX,
        ensures
            final(self)@.cells == old(self)@.cells
                + seq![Cell::Struct((old(self)@.cells.len() + 1) as usize), Cell::Funct(ident, arity)],
            final(self)@.regs == old(self)@.regs,
            r == Cell::Struct((old(self)@.cells.len() + 1) as usize),
    {
        let here = self.store.len();
        let cell = Cell::Struct(here + 1);
        self.store.push(cell);
        self.store.push(Cell::Funct(ident, arity));
        cell
    }

    /// Pushes a fresh free variable (a self-referencing cell) onto the heap
    /// and returns it.
    pub fn push_var(&mut self) -> (r: Cell)
        ensures
            final(self)@.cells == old(self)@.cells + seq![Cell::Ref(old(self)@.cells.len() as usize)],
            final(self)@.regs == old(self)@.regs,
            r == Cell::Ref(old(self)@.cells.len() as usize),
    {
        let cell = Cell::Ref(self.store.len());
        self.store.push(cell);
        cell
    }

    /// Pushes the given cell verbatim onto the heap and returns it.
    pub fn push_cell(&mut self, cell: Cell) -> (r: Cell)
        ensures
            final(self)@.cells == old(self)@.cells + seq![cell],
            final(self)@.regs == old(self)@.regs,
            r == cell,
    {
        self.store.push(cell);
        cell
    }

    /// A storage holding the same cells and register count.
    pub fn snapshot(&self) -> (r: Storage)
        ensures
            r@ == self@,
    {
        let mut cells: Vec<Cell> = Vec::new();
        let mut i: usize = 0;
        while i < self.store.len()
            invariant
                i <= self.store@.len(),
                cells@ == self.store@.subrange(0, i as int),
            decreases self.store@.len() - i,
        {
            cells.push(self.store[i]);
            i = i + 1;
            proof {
                assert(cells@ =~= self.store@.subrange(0, i as int));
            }
        }
        proof {
            assert(cells@ =~= self.store@);
        }
        Storage { store: cells, regs: self.regs }
    }

    /// Follows reference links from `addr` to the terminal address: a
    /// non-reference cell or a self-reference. Gives nothing if the walk
    /// leaves the store or does not come to rest.
    pub fn deref_idx(&self, addr: usize) -> (r: Option<usize>)
        ensures
            match r {
                Some(t) => spec_deref_idx(self@.cells, addr as int) == Some(t as int),
                None => spec_deref_idx(self@.cells, addr as int) is None,
            },
    {
        let mut cur = addr;
        let mut fuel = self.store.len();
        loop
            invariant
                deref_step(self@.cells, addr as int, self@.cells.len())
                    == deref_step(self@.cells, cur as int, fuel as nat),
            decreases fuel,
        {
            if cur >= self.store.len() {
                return None;
            }
            match self.store[cur] {
                Cell::Ref(a) => {
                    if a == cur {
                        return Some(cur);
                    }
                    if fuel == 0 {
                        return None;
                    }
                    fuel = fuel - 1;
                    cur = a;
                },
                _ => {
                    return Some(cur);
                },
            }
        }
    }

    /// The cell at the terminal address of the chain from `addr`.
    pub fn deref(&self, addr: usize) -> (r: Option<Cell>)
        ensures
            r == spec_deref(self@.cells, addr as int),
    {
        match self.deref_idx(addr) {
            Some(t) => {
                proof {
                    lemma_deref_step_terminal(self@.cells, addr as int, self@.cells.len());
                }
                Some(self.store[t])
            },
            None => None,
        }
    }

    /// Binds a free variable to the other address: the first address is
    /// overwritten if it holds a free variable, else the second, else
    /// nothing changes.
    pub fn bind(&mut self, a1: usize, a2: usize)
        requires
            a1 < old(self)@.cells.len(),
            a2 < old(self)@.cells.len(),
        ensures
            final(self)@.cells == spec_bind(old(self)@.cells, a1 as int, a2 as int),
            final(self)@.regs == old(self)@.regs,
            store_ok(old(self)@.cells) ==> store_ok(final(self)@.cells),
    {
        proof {
            lemma_bind_preserves_ok(self@.cells, a1 as int, a2 as int);
        }
        let free1 = match self.store[a1] {
            Cell::Ref(r1) => r1 == a1,
            _ => false,
        };
        if free1 {
            self.store.set(a1, Cell::Ref(a2));
        } else {
            let free2 = match self.store[a2] {
                Cell::Ref(r2) => r2 == a2,
                _ => false,
            };
            if free2 {
                self.store.set(a2, Cell::Ref(a1));
            }
        }
    }

    /// Unifies the cells at the two addresses, binding free variables as
    /// needed; true exactly if unification succeeded. Only free variables
    /// are ever overwritten, and the store keeps its length.
    #[verifier::loop_isolation(false)]
    pub fn unify(&mut self, a1: usize, a2: usize) -> (r: bool)
        ensures
            ({
                let (cells, ok) = spec_unify(
                    old(self)@.cells,
                    seq![(a1 as int, a2 as int)],
                    unify_fuel(),
                );
                final(self)@.cells == cells && r == ok
            }),
            final(self)@.regs == old(self)@.regs,
            final(self)@.cells.len() == old(self)@.cells.len(),
            forall|i: int|
                0 <= i < old(self)@.cells.len() && final(self)@.cells[i] != old(self)@.cells[i]
                    ==> old(self)@.cells[i] == Cell::Ref(i as usize)
                        && (#[trigger] final(self)@.cells[i] matches Cell::Ref(t)
                            && t < old(self)@.cells.len()),
            store_ok(old(self)@.cells) ==> store_ok(final(self)@.cells),
            r ==> congruent(final(self)@.cells, a1 as int, a2 as int, unify_fuel()),
    {
        let ghost len_bound = self.store.len();
        proof {
            lemma_spec_unify_frame(self@.cells, seq![(a1 as int, a2 as int)], unify_fuel());
            lemma_spec_unify_congruent(self@.cells, seq![(a1 as int, a2 as int)], unify_fuel());
            assert(seq![(a1 as int, a2 as int)][0] == (a1 as int, a2 as int));
        }
        let ghost orig = self@.cells;
        let mut stack: Vec<(usize, usize)> = Vec::new();
        stack.push((a1, a2));
        let mut fuel: u128 = u128::MAX;
        proof {
            assert(stack@.map_values(|p: (usize, usize)| (p.0 as int, p.1 as int))
                =~= seq![(a1 as int, a2 as int)]);
        }
        loop
            invariant
                self@.regs == old(self)@.regs,
                spec_unify(orig, seq![(a1 as int, a2 as int)], unify_fuel())
                    == spec_unify(
                        self@.cells,
                        stack@.map_values(|p: (usize, usize)| (p.0 as int, p.1 as int)),
                        fuel as nat,
                    ),
            decreases fuel,
        {
            let ghost pre_cells = self@.cells;
            let ghost pre_stack = stack@.map_values(|p: (usize, usize)| (p.0 as int, p.1 as int));
            let ghost pre_fuel = fuel as nat;
            let next = stack.pop();
            let (d1, d2) = match next {
                Some(p) => p,
                None => {
                    proof {
                        assert(pre_stack.len() == 0);
                        assert(spec_unify(pre_cells, pre_stack, pre_fuel) == (pre_cells, true));
                    }
                    return true;
                },
            };
            proof {
                assert(pre_stack.len() > 0);
                assert(pre_stack.last() == (d1 as int, d2 as int));
                assert(stack@.map_values(|p: (usize, usize)| (p.0 as int, p.1 as int))
                    =~= pre_stack.drop_last());
            }
            if fuel == 0 {
                proof {
                    assert(spec_unify(pre_cells, pre_stack, pre_fuel) == (pre_cells, false));
                }
                return false;
            }
            fuel = fuel - 1;
            let ghost rest = pre_stack.drop_last();
            let t1o = self.deref_idx(d1);
            let t2o = self.deref_idx(d2);
            let t1 = match t1o {
                Some(t) => t,
                None => {
                    proof {
                        assert(spec_unify(pre_cells, pre_stack, pre_fuel) == (pre_cells, false));
                    }
                    return false;
                },
            };
            let t2 = match t2o {
                Some(t) => t,
                None => {
                    proof {
                        assert(spec_unify(pre_cells, pre_stack, pre_fuel) == (pre_cells, false));
                    }
                    return false;
                },
            };
            if t1 == t2 {
                proof {
                    assert(spec_unify(pre_cells, pre_stack, pre_fuel)
                        == spec_unify(pre_cells, rest, (pre_fuel - 1) as nat));
                }
            } else {
                proof {
                    lemma_deref_step_terminal(self@.cells, d1 as int, self@.cells.len());
                    lemma_deref_step_terminal(self@.cells, d2 as int, self@.cells.len());
                }
                match (self.store[t1], self.store[t2]) {
                    (Cell::Struct(v1), Cell::Struct(v2)) => {
                        let h1 = match self.get(v1) {
                            Some(c) => c.to_funct(),
                            None => None,
                        };
                        let h2 = match self.get(v2) {
                            Some(c) => c.to_funct(),
                            None => None,
                        };
                        proof {
                            assert(h1 == funct_at(pre_cells, v1 as int));
                            assert(h2 == funct_at(pre_cells, v2 as int));
                        }
                        match (h1, h2) {
                            (Some((f1, n1)), Some((f2, n2))) => {
                                if f1 == f2 && n1 == n2 {
                                    if v1 > usize::MAX - n1 || v2 > usize::MAX - n1 {
                                        proof {
                                            assert(spec_unify(pre_cells, pre_stack, pre_fuel)
                                                == (pre_cells, false));
                                        }
                                        return false;
                                    }
                                    let ghost mid_stack = rest
                                        + arg_pairs(v1 as int, v2 as int, n1 as nat);
                                    proof {
                                        assert(stack@.map_values(
                                            |p: (usize, usize)| (p.0 as int, p.1 as int),
                                        ) =~= rest + arg_pairs(v1 as int, v2 as int, 0));
                                    }
                                    let mut i: usize = 0;
                                    while i < n1
                                        invariant
                                            i <= n1,
                                            v1 + n1 <= usize::MAX,
                                            v2 + n1 <= usize::MAX,
                                            stack@.map_values(
                                                |p: (usize, usize)| (p.0 as int, p.1 as int),
                                            ) == rest + arg_pairs(v1 as int, v2 as int, i as nat),
                                        decreases n1 - i,
                                    {
                                        let ghost prev = stack@;
                                        stack.push((v1 + i + 1, v2 + i + 1));
                                        i = i + 1;
                                        proof {
                                            let m_new = stack@.map_values(
                                                |p: (usize, usize)| (p.0 as int, p.1 as int),
                                            );
                                            let m_old = prev.map_values(
                                                |p: (usize, usize)| (p.0 as int, p.1 as int),
                                            );
                                            let tgt = rest + arg_pairs(v1 as int, v2 as int, i as nat);
                                            assert(m_new.len() == tgt.len());
                                            assert forall|j: int|
                                                0 <= j < m_new.len() implies m_new[j] == tgt[j] by {
                                                if j < m_old.len() {
                                                    assert(stack@[j] == prev[j]);
                                                    assert(m_new[j] == m_old[j]);
                                                    assert(m_old[j] == (rest + arg_pairs(
                                                        v1 as int,
                                                        v2 as int,
                                                        (i - 1) as nat,
                                                    ))[j]);
                                                } else {
                                                    assert(stack@[j] == (((v1 + i) as usize), ((v2
                                                        + i) as usize)));
                                                    assert(tgt[j] == (v1 + i as int, v2 + i as int));
                                                }
                                            }
                                            assert(m_new =~= tgt);
                                        }
                                    }
                                    proof {
                                        assert(spec_unify(pre_cells, pre_stack, pre_fuel)
                                            == spec_unify(pre_cells, mid_stack, (pre_fuel - 1) as nat));
                                    }
                                } else {
                                    proof {
                                        assert(spec_unify(pre_cells, pre_stack, pre_fuel)
                                            == (pre_cells, false));
                                    }
                                    return false;
                                }
                            },
                            _ => {
                                proof {
                                    assert(spec_unify(pre_cells, pre_stack, pre_fuel)
                                        == (pre_cells, false));
                                }
                                return false;
                            },
                        }
                    },
                    (Cell::Ref(_), _) | (_, Cell::Ref(_)) => {
                        self.bind(t1, t2);
                        proof {
                            assert(self@.cells == spec_bind(pre_cells, t1 as int, t2 as int));
                            assert(spec_unify(pre_cells, pre_stack, pre_fuel)
                                == spec_unify(self@.cells, rest, (pre_fuel - 1) as nat));
                        }
                    },
                    _ => {
                        proof {
                            assert(spec_unify(pre_cells, pre_stack, pre_fuel)
                                == (pre_cells, false));
                        }
                        return false;
                    },
                }
            }
        }
    }
}

/// A terminal address given by `deref_step` is in bounds and the walk
/// from it stops there at once.
pub proof fn lemma_deref_step_terminal(s: Seq<Cell>, addr: int, fuel: nat)
    ensures
        deref_step(s, addr, fuel) matches Some(t) ==> is_terminal(s, t),
    decreases fuel,
{
    if 0 <= addr < s.len() {
        match s[addr] {
            Cell::Ref(a) => {
                if a as int != addr && fuel > 0 {
                    lemma_deref_step_terminal(s, a as int, (fuel - 1) as nat);
                }
            },
            _ => {},
        }
    }
}

/// Dereferencing is idempotent: the walk from a terminal address gives
/// that address back.
pub proof fn lemma_deref_idx_idempotent(s: Seq<Cell>, addr: int)
    ensures
        spec_deref_idx(s, addr) matches Some(t) ==> spec_deref_idx(s, t) == Some(t),
{
    lemma_deref_step_terminal(s, addr, s.len());
}

/// Binding keeps a well-formed store well-formed: only a free variable
/// is overwritten, with an in-bounds reference.
pub proof fn lemma_bind_preserves_ok(s: Seq<Cell>, a1: int, a2: int)
    requires
        0 <= a1 < s.len(),
        0 <= a2 < s.len(),
    ensures
        store_ok(s) ==> store_ok(spec_bind(s, a1, a2)),
{
    if store_ok(s) {
        let s2 = spec_bind(s, a1, a2);
        assert forall|i: int| 0 <= i < s2.len() implies cell_ok(s2, #[trigger] s2[i]) by {
            assert(cell_ok(s, s[i]));
            match s2[i] {
                Cell::Struct(a) => {
                    assert(cell_ok(s, s[a as int]));
                },
                _ => {},
            }
        }
    }
}

/// After binding two terminal addresses, one of them free, the chains
/// from both come to rest at the same terminal address.
pub proof fn lemma_bind_then_deref(s: Seq<Cell>, a1: int, a2: int)
    requires
        s.len() <= usize::MAX,
        is_terminal(s, a1),
        is_terminal(s, a2),
        a1 != a2,
        is_free(s, a1) || is_free(s, a2),
    ensures
        ({
            let s2 = spec_bind(s, a1, a2);
            spec_deref_idx(s2, a1) == spec_deref_idx(s2, a2)
                && spec_deref_idx(s2, a1) is Some
        }),
{
    let s2 = spec_bind(s, a1, a2);
    if is_free(s, a1) {
        assert(s2 == s.update(a1, Cell::Ref(a2 as usize)));
        assert(s2[a1] == Cell::Ref(a2 as usize));
        assert(s2[a2] == s[a2]);
        assert(deref_step(s2, a2, (s2.len() - 1) as nat) == Some(a2));
        assert(spec_deref_idx(s2, a2) == Some(a2));
        assert(spec_deref_idx(s2, a1) == deref_step(s2, a2, (s2.len() - 1) as nat));
    } else {
        assert(s2 == s.update(a2, Cell::Ref(a1 as usize)));
        assert(s2[a2] == Cell::Ref(a1 as usize));
        assert(s2[a1] == s[a1]);
        assert(!(s[a1] matches Cell::Ref(_)));
        assert(deref_step(s2, a1, (s2.len() - 1) as nat) == Some(a1));
        assert(spec_deref_idx(s2, a1) == Some(a1));
        assert(spec_deref_idx(s2, a2) == deref_step(s2, a1, (s2.len() - 1) as nat));
    }
}

/// The number of proper reference links the walk from `addr` follows
/// before it comes to rest, within `fuel` links.
pub open spec fn chain_steps(s: Seq<Cell>, addr: int, fuel: nat) -> nat
    decreases fuel,
{
    if 0 <= addr < s.len() {
        match s[addr] {
            Cell::Ref(a) => {
                if a as int == addr {
                    0
                } else if fuel == 0 {
                    0
                } else {
                    1 + chain_steps(s, a as int, (fuel - 1) as nat)
                }
            },
            _ => 0,
        }
    } else {
        0
    }
}

/// Whether `x` lies on the walk from `addr`, within `fuel` links.
pub open spec fn on_path(s: Seq<Cell>, addr: int, x: int, fuel: nat) -> bool
    decreases fuel,
{
    0 <= addr < s.len() && (x == addr || (match s[addr] {
        Cell::Ref(a) => a as int != addr && fuel > 0 && on_path(s, a as int, x, (fuel - 1) as nat),
        _ => false,
    }))
}

/// More fuel never changes where a finished walk comes to rest.
pub proof fn lemma_deref_mono(s: Seq<Cell>, addr: int, f1: nat, f2: nat)
    requires
        f1 <= f2,
        deref_step(s, addr, f1) is Some,
    ensures
        deref_step(s, addr, f2) == deref_step(s, addr, f1),
    decreases f1,
{
    if 0 <= addr < s.len() {
        match s[addr] {
            Cell::Ref(a) => {
                if a as int != addr {
                    lemma_deref_mono(s, a as int, (f1 - 1) as nat, (f2 - 1) as nat);
                }
            },
            _ => {},
        }
    }
}

/// A finished walk needs no more fuel than its own step count.
pub proof fn lemma_chain_steps_fuel(s: Seq<Cell>, addr: int, fuel: nat)
    requires
        deref_step(s, addr, fuel) is Some,
    ensures
        chain_steps(s, addr, fuel) <= fuel,
        deref_step(s, addr, chain_steps(s, addr, fuel)) == deref_step(s, addr, fuel),
    decreases fuel,
{
    if 0 <= addr < s.len() {
        match s[addr] {
            Cell::Ref(a) => {
                if a as int != addr {
                    lemma_chain_steps_fuel(s, a as int, (fuel - 1) as nat);
                }
            },
            _ => {},
        }
    }
}

/// The step count of a finished walk does not depend on the fuel.
pub proof fn lemma_chain_steps_agnostic(s: Seq<Cell>, addr: int, f1: nat, f2: nat)
    requires
        deref_step(s, addr, f1) is Some,
        deref_step(s, addr, f2) is Some,
    ensures
        chain_steps(s, addr, f1) == chain_steps(s, addr, f2),
    decreases f1,
{
    if 0 <= addr < s.len() {
        match s[addr] {
            Cell::Ref(a) => {
                if a as int != addr {
                    lemma_chain_steps_agnostic(s, a as int, (f1 - 1) as nat, (f2 - 1) as nat);
                }
            },
            _ => {},
        }
    }
}

/// A finished walk finishes from every address on its path, and in
/// strictly fewer steps from a later address.
pub proof fn lemma_path_suffix(s: Seq<Cell>, addr: int, x: int, fuel: nat)
    requires
        on_path(s, addr, x, fuel),
        deref_step(s, addr, fuel) is Some,
    ensures
        deref_step(s, x, fuel) == deref_step(s, addr, fuel),
        x != addr ==> chain_steps(s, addr, fuel) > chain_steps(s, x, fuel),
    decreases fuel,
{
    if x != addr {
        match s[addr] {
            Cell::Ref(a) => {
                let b = a as int;
                lemma_path_suffix(s, b, x, (fuel - 1) as nat);
                lemma_deref_mono(s, x, (fuel - 1) as nat, fuel);
                lemma_chain_steps_agnostic(s, x, (fuel - 1) as nat, fuel);
            },
            _ => {},
        }
    }
}

/// The walk never returns to an address it followed a proper link from:
/// it could not come to rest otherwise.
pub proof fn lemma_no_revisit(s: Seq<Cell>, addr: int, b: usize, fuel: nat)
    requires
        0 <= addr < s.len(),
        s[addr] == Cell::Ref(b),
        b as int != addr,
        fuel >= 1,
        deref_step(s, addr, fuel) is Some,
    ensures
        !on_path(s, b as int, addr, (fuel - 1) as nat),
{
    if on_path(s, b as int, addr, (fuel - 1) as nat) {
        lemma_path_suffix(s, b as int, addr, (fuel - 1) as nat);
        assert(deref_step(s, addr, (fuel - 1) as nat) is Some);
        lemma_chain_steps_agnostic(s, addr, (fuel - 1) as nat, fuel);
        assert(chain_steps(s, addr, fuel) == 1 + chain_steps(s, b as int, (fuel - 1) as nat));
        assert(false);
    }
}

/// Adding a fresh in-bounds address to a set of in-bounds addresses
/// keeps it within the store's capacity.
proof fn lemma_banned_capacity(len: int, banned: Set<int>, addr: int)
    requires
        banned.finite(),
        forall|y: int| banned.contains(y) ==> 0 <= y < len,
        0 <= addr < len,
        !banned.contains(addr),
    ensures
        banned.len() + 1 <= len,
{
    let b2 = banned.insert(addr);
    assert(b2.subset_of(vstd::set_lib::set_int_range(0, len)));
    vstd::set_lib::lemma_int_range(0, len);
    vstd::set_lib::lemma_len_subset(b2, vstd::set_lib::set_int_range(0, len));
}

/// A finished walk takes fewer proper links than the store has cells:
/// the addresses it follows links from are pairwise distinct, and so is
/// its resting place.
pub proof fn lemma_chain_bounded(s: Seq<Cell>, addr: int, fuel: nat, banned: Set<int>)
    requires
        deref_step(s, addr, fuel) is Some,
        banned.finite(),
        forall|y: int| banned.contains(y) ==> 0 <= y < s.len() && !on_path(s, addr, y, fuel),
    ensures
        chain_steps(s, addr, fuel) + 1 + banned.len() <= s.len(),
    decreases fuel,
{
    assert(on_path(s, addr, addr, fuel));
    assert(!banned.contains(addr));
    match s[addr] {
        Cell::Ref(a) => {
            let b = a as int;
            if b != addr {
                lemma_no_revisit(s, addr, a, fuel);
                let banned2 = banned.insert(addr);
                assert forall|y: int| banned2.contains(y) implies 0 <= y < s.len() && !on_path(
                    s,
                    b,
                    y,
                    (fuel - 1) as nat,
                ) by {
                    if y != addr {
                        if on_path(s, b, y, (fuel - 1) as nat) {
                            assert(on_path(s, addr, y, fuel));
                        }
                    }
                }
                lemma_chain_bounded(s, b, (fuel - 1) as nat, banned2);
            } else {
                lemma_banned_capacity(s.len() as int, banned, addr);
            }
        },
        _ => {
            lemma_banned_capacity(s.len() as int, banned, addr);
        },
    }
}

/// A walk that comes to rest does so within one link fewer than the
/// store's size.
pub proof fn lemma_deref_headroom(s: Seq<Cell>, addr: int)
    requires
        spec_deref_idx(s, addr) is Some,
    ensures
        s.len() >= 1,
        deref_step(s, addr, (s.len() - 1) as nat) == spec_deref_idx(s, addr),
{
    lemma_chain_bounded(s, addr, s.len(), Set::empty());
    lemma_chain_steps_fuel(s, addr, s.len());
    lemma_deref_mono(s, addr, chain_steps(s, addr, s.len()), (s.len() - 1) as nat);
}

/// Where walks come to rest after binding the free variable `u` to the
/// terminal address `w`: a walk that rested on `u` continues to `w`,
/// every other walk is unmoved.
pub proof fn lemma_deref_after_bind_step(s: Seq<Cell>, u: int, w: int, x: int, fuel: nat)
    requires
        is_free(s, u),
        is_terminal(s, w),
        u != w,
        s.len() <= usize::MAX,
        deref_step(s, x, fuel) is Some,
    ensures
        ({
            let s2 = s.update(u, Cell::Ref(w as usize));
            deref_step(s2, x, (fuel + 1) as nat) == (if deref_step(s, x, fuel) == Some(u) {
                Some(w)
            } else {
                deref_step(s, x, fuel)
            })
        }),
    decreases fuel,
{
    let s2 = s.update(u, Cell::Ref(w as usize));
    match s[x] {
        Cell::Ref(a) => {
            let b = a as int;
            if b == x {
                if x == u {
                    assert(s2[x] == Cell::Ref(w as usize));
                    assert(deref_step(s2, x, (fuel + 1) as nat) == deref_step(s2, w, fuel));
                    assert(s2[w] == s[w]);
                } else {
                    assert(s2[x] == s[x]);
                }
            } else {
                assert(x != u);
                assert(s2[x] == s[x]);
                lemma_deref_after_bind_step(s, u, w, b, (fuel - 1) as nat);
            }
        },
        _ => {
            assert(x != u);
            assert(s2[x] == s[x]);
        },
    }
}

/// The same, stated for the canonical walk over the whole store.
pub proof fn lemma_spec_deref_after_bind(s: Seq<Cell>, u: int, w: int, x: int)
    requires
        is_free(s, u),
        is_terminal(s, w),
        u != w,
        s.len() <= usize::MAX,
        spec_deref_idx(s, x) is Some,
    ensures
        ({
            let s2 = s.update(u, Cell::Ref(w as usize));
            spec_deref_idx(s2, x) == (if spec_deref_idx(s, x) == Some(u) {
                Some(w)
            } else {
                spec_deref_idx(s, x)
            })
        }),
{
    lemma_deref_headroom(s, x);
    lemma_deref_after_bind_step(s, u, w, x, (s.len() - 1) as nat);
}

/// Two addresses hold the same term, up to `fuel` nesting levels: their
/// walks come to rest on the same cell, or on structures with equal
/// functors whose arguments are pairwise congruent.
pub open spec fn congruent(s: Seq<Cell>, d1: int, d2: int, fuel: nat) -> bool
    decreases fuel, 0int, 0int,
{
    match (spec_deref_idx(s, d1), spec_deref_idx(s, d2)) {
        (Some(t1), Some(t2)) => t1 == t2 || (match (s[t1], s[t2]) {
            (Cell::Struct(v1), Cell::Struct(v2)) => match (
                funct_at(s, v1 as int),
                funct_at(s, v2 as int),
            ) {
                (Some((f1, n1)), Some((f2, n2))) => f1 == f2 && n1 == n2 && fuel > 0
                    && congruent_args(s, v1, v2, n1 as int, (fuel - 1) as nat),
                _ => false,
            },
            _ => false,
        }),
        _ => false,
    }
}

/// The first `k` argument slots of two structure blocks are pairwise
/// congruent.
pub open spec fn congruent_args(s: Seq<Cell>, v1: usize, v2: usize, k: int, fuel: nat) -> bool
    decreases fuel, 1int, k,
{
    if k <= 0 {
        true
    } else {
        congruent(s, v1 + k, v2 + k, fuel) && congruent_args(s, v1, v2, k - 1, fuel)
    }
}

/// Pairwise congruence of argument slots, one at a time.
pub proof fn lemma_congruent_args_elim(
    s: Seq<Cell>,
    v1: usize,
    v2: usize,
    k: int,
    fuel: nat,
    i: int,
)
    requires
        congruent_args(s, v1, v2, k, fuel),
        1 <= i <= k,
    ensures
        congruent(s, v1 + i, v2 + i, fuel),
    decreases k,
{
    if i < k {
        lemma_congruent_args_elim(s, v1, v2, k - 1, fuel, i);
    }
}

/// Argument slots that are congruent one at a time are congruent as a
/// block.
pub proof fn lemma_congruent_args_intro(s: Seq<Cell>, v1: usize, v2: usize, k: int, fuel: nat)
    requires
        forall|i: int| 1 <= i <= k ==> #[trigger] congruent(s, v1 + i, v2 + i, fuel),
    ensures
        congruent_args(s, v1, v2, k, fuel),
    decreases k,
{
    if k > 0 {
        assert(congruent(s, v1 + k, v2 + k, fuel));
        lemma_congruent_args_intro(s, v1, v2, k - 1, fuel);
    }
}

/// Congruence to some depth is congruence to every larger depth.
pub proof fn lemma_congruent_mono(s: Seq<Cell>, d1: int, d2: int, f1: nat, f2: nat)
    requires
        f1 <= f2,
        congruent(s, d1, d2, f1),
    ensures
        congruent(s, d1, d2, f2),
    decreases f1, 0int, 0int,
{
    match (spec_deref_idx(s, d1), spec_deref_idx(s, d2)) {
        (Some(t1), Some(t2)) => {
            if t1 != t2 {
                match (s[t1], s[t2]) {
                    (Cell::Struct(v1), Cell::Struct(v2)) => {
                        match (funct_at(s, v1 as int), funct_at(s, v2 as int)) {
                            (Some((f1f, n1)), Some((f2f, n2))) => {
                                lemma_congruent_args_mono(
                                    s,
                                    v1,
                                    v2,
                                    n1 as int,
                                    (f1 - 1) as nat,
                                    (f2 - 1) as nat,
                                );
                            },
                            _ => {},
                        }
                    },
                    _ => {},
                }
            }
        },
        _ => {},
    }
}

/// Congruence of argument blocks is monotone in the depth as well.
pub proof fn lemma_congruent_args_mono(
    s: Seq<Cell>,
    v1: usize,
    v2: usize,
    k: int,
    f1: nat,
    f2: nat,
)
    requires
        f1 <= f2,
        congruent_args(s, v1, v2, k, f1),
    ensures
        congruent_args(s, v1, v2, k, f2),
    decreases f1, 1int, k,
{
    if k > 0 {
        lemma_congruent_mono(s, v1 + k, v2 + k, f1, f2);
        lemma_congruent_args_mono(s, v1, v2, k - 1, f1, f2);
    }
}

/// Binding a free variable to a terminal address preserves congruence.
pub proof fn lemma_congruent_after_bind(s: Seq<Cell>, u: int, w: int, d1: int, d2: int, fuel: nat)
    requires
        is_free(s, u),
        is_terminal(s, w),
        u != w,
        s.len() <= usize::MAX,
        congruent(s, d1, d2, fuel),
    ensures
        congruent(s.update(u, Cell::Ref(w as usize)), d1, d2, fuel),
    decreases fuel, 0int, 0int,
{
    let s2 = s.update(u, Cell::Ref(w as usize));
    lemma_spec_deref_after_bind(s, u, w, d1);
    lemma_spec_deref_after_bind(s, u, w, d2);
    lemma_deref_step_terminal(s, d1, s.len());
    lemma_deref_step_terminal(s, d2, s.len());
    match (spec_deref_idx(s, d1), spec_deref_idx(s, d2)) {
        (Some(t1), Some(t2)) => {
            if t1 == t2 {
            } else {
                match (s[t1], s[t2]) {
                    (Cell::Struct(v1), Cell::Struct(v2)) => {
                        assert(t1 != u && t2 != u);
                        assert(s2[t1] == s[t1] && s2[t2] == s[t2]);
                        match (funct_at(s, v1 as int), funct_at(s, v2 as int)) {
                            (Some((f1, n1)), Some((f2, n2))) => {
                                assert(v1 as int != u && v2 as int != u);
                                assert(funct_at(s2, v1 as int) == funct_at(s, v1 as int));
                                assert(funct_at(s2, v2 as int) == funct_at(s, v2 as int));
                                lemma_congruent_args_after_bind(
                                    s,
                                    u,
                                    w,
                                    v1,
                                    v2,
                                    n1 as int,
                                    (fuel - 1) as nat,
                                );
                                assert(spec_deref_idx(s2, d1) == Some(t1));
                                assert(spec_deref_idx(s2, d2) == Some(t2));
                            },
                            _ => {},
                        }
                    },
                    _ => {},
                }
            }
        },
        _ => {},
    }
}

/// The same, for whole argument blocks.
pub proof fn lemma_congruent_args_after_bind(
    s: Seq<Cell>,
    u: int,
    w: int,
    v1: usize,
    v2: usize,
    k: int,
    fuel: nat,
)
    requires
        is_free(s, u),
        is_terminal(s, w),
        u != w,
        s.len() <= usize::MAX,
        congruent_args(s, v1, v2, k, fuel),
    ensures
        congruent_args(s.update(u, Cell::Ref(w as usize)), v1, v2, k, fuel),
    decreases fuel, 1int, k,
{
    if k > 0 {
        lemma_congruent_after_bind(s, u, w, v1 + k, v2 + k, fuel);
        lemma_congruent_args_after_bind(s, u, w, v1, v2, k - 1, fuel);
    }
}

/// Soundness of the unification loop: when it reports success, every
/// pair it was started on holds congruent terms in the resulting store.
/// Along the way, existing congruences and walks onto bound cells are
/// kept.
pub proof fn lemma_spec_unify_congruent(s: Seq<Cell>, stack: Seq<(int, int)>, fuel: nat)
    requires
        s.len() <= usize::MAX,
    ensures
        ({
            let (s2, ok) = spec_unify(s, stack, fuel);
            ok ==> ((forall|j: int|
                0 <= j < stack.len() ==> congruent(
                    s2,
                    (#[trigger] stack[j]).0,
                    stack[j].1,
                    fuel,
                )) && (forall|d1: int, d2: int, f: nat|
                #[trigger] congruent(s, d1, d2, f) ==> congruent(s2, d1, d2, f)) && (forall|
                x: int,
                t: int,
            |
                #![trigger spec_deref_idx(s, x), s[t]]
                spec_deref_idx(s, x) == Some(t) && !(s[t] is Ref) ==> spec_deref_idx(s2, x) == Some(
                    t,
                )))
        }),
    decreases fuel,
{
    if stack.len() == 0 || fuel == 0 {
    } else {
        let (d1, d2) = stack.last();
        let rest = stack.drop_last();
        let (s2, ok) = spec_unify(s, stack, fuel);
        match (spec_deref_idx(s, d1), spec_deref_idx(s, d2)) {
            (Some(t1), Some(t2)) => {
                lemma_deref_step_terminal(s, d1, s.len());
                lemma_deref_step_terminal(s, d2, s.len());
                if t1 == t2 {
                    lemma_spec_unify_congruent(s, rest, (fuel - 1) as nat);
                    if ok {
                        assert(congruent(s, d1, d2, fuel));
                        assert forall|j: int| 0 <= j < stack.len() implies congruent(
                            s2,
                            (#[trigger] stack[j]).0,
                            stack[j].1,
                            fuel,
                        ) by {
                            if j < rest.len() {
                                assert(congruent(s2, rest[j].0, rest[j].1, (fuel - 1) as nat));
                                lemma_congruent_mono(
                                    s2,
                                    rest[j].0,
                                    rest[j].1,
                                    (fuel - 1) as nat,
                                    fuel,
                                );
                            } else {
                                assert(congruent(s2, d1, d2, fuel));
                            }
                        }
                    }
                } else {
                    match (s[t1], s[t2]) {
                        (Cell::Struct(v1), Cell::Struct(v2)) => {
                            match (funct_at(s, v1 as int), funct_at(s, v2 as int)) {
                                (Some((f1, n1)), Some((f2, n2))) => {
                                    if f1 == f2 && n1 == n2 && v1 + n1 <= usize::MAX && v2 + n1
                                        <= usize::MAX {
                                        let stack2 = rest + arg_pairs(v1 as int, v2 as int, n1 as nat);
                                        lemma_spec_unify_congruent(s, stack2, (fuel - 1) as nat);
                                        lemma_spec_unify_frame(s, stack2, (fuel - 1) as nat);
                                        if ok {
                                            assert(s2[t1] == s[t1] && s2[t2] == s[t2]);
                                            assert(funct_at(s2, v1 as int) == funct_at(
                                                s,
                                                v1 as int,
                                            ));
                                            assert(funct_at(s2, v2 as int) == funct_at(
                                                s,
                                                v2 as int,
                                            ));
                                            assert(spec_deref_idx(s2, d1) == Some(t1));
                                            assert(spec_deref_idx(s2, d2) == Some(t2));
                                            assert forall|i: int| 1 <= i <= n1 implies #[trigger] congruent(
                                                s2,
                                                v1 + i,
                                                v2 + i,
                                                (fuel - 1) as nat,
                                            ) by {
                                                assert(stack2[rest.len() + i - 1] == (
                                                    v1 + i,
                                                    v2 + i,
                                                ));
                                                assert(congruent(
                                                    s2,
                                                    (stack2[rest.len() + i - 1]).0,
                                                    stack2[rest.len() + i - 1].1,
                                                    (fuel - 1) as nat,
                                                ));
                                            }
                                            lemma_congruent_args_intro(
                                                s2,
                                                v1,
                                                v2,
                                                n1 as int,
                                                (fuel - 1) as nat,
                                            );
                                            assert(congruent(s2, d1, d2, fuel));
                                            assert forall|j: int| 0 <= j < stack.len() implies congruent(
                                                s2,
                                                (#[trigger] stack[j]).0,
                                                stack[j].1,
                                                fuel,
                                            ) by {
                                                if j < rest.len() {
                                                    assert(stack2[j] == stack[j]);
                                                    assert(congruent(
                                                        s2,
                                                        stack2[j].0,
                                                        stack2[j].1,
                                                        (fuel - 1) as nat,
                                                    ));
                                                    lemma_congruent_mono(
                                                        s2,
                                                        stack[j].0,
                                                        stack[j].1,
                                                        (fuel - 1) as nat,
                                                        fuel,
                                                    );
                                                }
                                            }
                                        }
                                    }
                                },
                                _ => {},
                            }
                        },
                        (Cell::Ref(_), _) | (_, Cell::Ref(_)) => {
                            let sb = spec_bind(s, t1, t2);
                            let (u, w) = if s[t1] == Cell::Ref(t1 as usize) {
                                (t1, t2)
                            } else {
                                (t2, t1)
                            };
                            assert(is_free(s, u));
                            assert(is_terminal(s, w));
                            assert(sb == s.update(u, Cell::Ref(w as usize)));
                            lemma_spec_unify_congruent(sb, rest, (fuel - 1) as nat);
                            if ok {
                                lemma_spec_deref_after_bind(s, u, w, d1);
                                lemma_spec_deref_after_bind(s, u, w, d2);
                                assert(spec_deref_idx(sb, d1) == spec_deref_idx(sb, d2));
                                assert(congruent(sb, d1, d2, fuel));
                                // the current pair stays congruent through the rest
                                assert(congruent(s2, d1, d2, fuel));
                                assert forall|j: int| 0 <= j < stack.len() implies congruent(
                                    s2,
                                    (#[trigger] stack[j]).0,
                                    stack[j].1,
                                    fuel,
                                ) by {
                                    if j < rest.len() {
                                        assert(congruent(
                                            s2,
                                            rest[j].0,
                                            rest[j].1,
                                            (fuel - 1) as nat,
                                        ));
                                        lemma_congruent_mono(
                                            s2,
                                            stack[j].0,
                                            stack[j].1,
                                            (fuel - 1) as nat,
                                            fuel,
                                        );
                                    }
                                }
                                // congruences over the whole step
                                assert forall|e1: int, e2: int, f: nat| #[trigger] congruent(
                                    s,
                                    e1,
                                    e2,
                                    f,
                                ) implies congruent(s2, e1, e2, f) by {
                                    lemma_congruent_after_bind(s, u, w, e1, e2, f);
                                }
                                // walks onto bound cells over the whole step
                                assert forall|x: int, t: int|
                                    #![trigger spec_deref_idx(s, x), s[t]]
                                    spec_deref_idx(s, x) == Some(t) && !(s[t]
                                        is Ref) implies spec_deref_idx(s2, x) == Some(t) by {
                                    lemma_deref_step_terminal(s, x, s.len());
                                    lemma_spec_deref_after_bind(s, u, w, x);
                                    assert(t != u);
                                    assert(spec_deref_idx(sb, x) == Some(t));
                                    assert(sb[t] == s[t]);
                                }
                            }
                        },
                        _ => {},
                    }
                }
            },
            _ => {},
        }
    }
}

/// What one unification run can change: nothing but free variables, each
/// overwritten with an in-bounds reference; the length is kept and a
/// well-formed store stays well-formed.
pub proof fn lemma_spec_unify_frame(s: Seq<Cell>, stack: Seq<(int, int)>, fuel: nat)
    ensures
        ({
            let (s2, ok) = spec_unify(s, stack, fuel);
            s2.len() == s.len()
                && (forall|i: int|
                    0 <= i < s.len() && s2[i] != s[i]
                        ==> s[i] == Cell::Ref(i as usize)
                            && (#[trigger] s2[i] matches Cell::Ref(t) && t < s.len()))
                && (store_ok(s) ==> store_ok(s2))
        }),
    decreases fuel,
{
    if stack.len() == 0 || fuel == 0 {
    } else {
        let (d1, d2) = stack.last();
        let rest = stack.drop_last();
        match (spec_deref_idx(s, d1), spec_deref_idx(s, d2)) {
            (Some(t1), Some(t2)) => {
                lemma_deref_step_terminal(s, d1, s.len());
                lemma_deref_step_terminal(s, d2, s.len());
                if t1 == t2 {
                    lemma_spec_unify_frame(s, rest, (fuel - 1) as nat);
                } else {
                    match (s[t1], s[t2]) {
                        (Cell::Struct(v1), Cell::Struct(v2)) => {
                            match (funct_at(s, v1 as int), funct_at(s, v2 as int)) {
                                (Some((f1, n1)), Some((f2, n2))) => {
                                    if f1 == f2 && n1 == n2 && v1 + n1 <= usize::MAX && v2 + n1
                                        <= usize::MAX {
                                        lemma_spec_unify_frame(
                                            s,
                                            rest + arg_pairs(v1 as int, v2 as int, n1 as nat),
                                            (fuel - 1) as nat,
                                        );
                                    }
                                },
                                _ => {},
                            }
                        },
                        (Cell::Ref(_), _) | (_, Cell::Ref(_)) => {
                            let sb = spec_bind(s, t1, t2);
                            lemma_bind_preserves_ok(s, t1, t2);
                            lemma_spec_unify_frame(sb, rest, (fuel - 1) as nat);
                            let (s2, ok) = spec_unify(sb, rest, (fuel - 1) as nat);
                            assert forall|i: int|
                                0 <= i < s.len() && s2[i] != s[i] implies s[i] == Cell::Ref(
                                i as usize,
                            ) && (#[trigger] s2[i] matches Cell::Ref(t) && t < s.len()) by {
                                if sb[i] == s[i] {
                                } else {
                                    assert(s[i] == Cell::Ref(i as usize));
                                    assert(sb[i] matches Cell::Ref(t) && t < s.len());
                                    if s2[i] != sb[i] {
                                        assert(sb[i] == Cell::Ref(i as usize));
                                        assert(false);
                                    }
                                }
                            }
                        },
                        _ => {},
                    }
                }
            },
            _ => {},
        }
    }
}

} // verus!
