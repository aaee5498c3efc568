//! The term reifier: walks the heap from a root cell and rebuilds the
//! resolved term through a caller-supplied builder, honoring variable
//! identity.

use vstd::prelude::*;
use crate::machine::Machine;
use crate::query::{QueryRef, QueryResult, lemma_query_result_view};
use crate::storage::{Cell, Storage, funct_at, spec_deref};

verus! {

/// The mathematical shape of a reified term: a free variable named by
/// its heap address, a constant, or a structure over subterms.
pub ghost enum SpecTerm {
    Var(int),
    Const(int),
    Struct(int, Seq<SpecTerm>),
}

/// The mathematical shapes of a builder's terms, in order.
pub open spec fn views_of<B: TermBuilder>(ts: Seq<B::Term>) -> Seq<SpecTerm> {
    ts.map_values(|t: B::Term| B::term_view(t))
}

/// Visitor through which the reifier hands a term back to the caller,
/// so that callers keep their own term representation.
pub trait TermBuilder: Sized {
    type Term;

    /// The mathematical shape of one of this builder's terms.
    open spec fn term_view(t: Self::Term) -> SpecTerm {
        vstd::pervasive::arbitrary()
    }

    /// A free variable, named by its heap address.
    fn variable(&mut self, id: usize) -> (r: Self::Term)
        ensures
            Self::term_view(r) == SpecTerm::Var(id as int),
    ;

    /// A structure over already reified subterms.
    fn structure(&mut self, ident: usize, subterms: Vec<Self::Term>) -> (r: Self::Term)
        ensures
            Self::term_view(r) matches SpecTerm::Struct(f, ts) && f == ident as int && ts.len()
                == subterms@.len() && (forall|i: int|
                0 <= i < subterms@.len() ==> ts[i] == Self::term_view(#[trigger] subterms@[i])),
    ;

    /// A constant: a structure without subterms.
    fn constant(&mut self, ident: usize) -> (r: Self::Term)
        ensures
            Self::term_view(r) == SpecTerm::Const(ident as int),
    ;
}

/// The term rooted at a cell: a reference is dereferenced, and a free
/// variable, a structure or a constant is read off; a functor header or
/// an uninitialized cell roots no term. `fuel` bounds the nesting depth.
pub open spec fn reify_cell(s: Seq<Cell>, c: Cell, fuel: nat) -> Option<SpecTerm>
    decreases fuel, 1int, 0int,
{
    match c {
        Cell::Ref(i) => match spec_deref(s, i as int) {
            Some(Cell::Ref(j)) => Some(SpecTerm::Var(j as int)),
            Some(Cell::Struct(a)) => reify_struct(s, a as int, fuel),
            _ => None,
        },
        Cell::Struct(a) => reify_struct(s, a as int, fuel),
        _ => None,
    }
}

/// The term of the structure whose functor header sits at `a`.
pub open spec fn reify_struct(s: Seq<Cell>, a: int, fuel: nat) -> Option<SpecTerm>
    decreases fuel, 0int, 0int,
{
    match funct_at(s, a) {
        Some((f, n)) => {
            if n == 0 {
                Some(SpecTerm::Const(f as int))
            } else if a + n < s.len() {
                if fuel == 0 {
                    None
                } else {
                    match reify_args(s, a + 1, n as nat, (fuel - 1) as nat) {
                        Some(ts) => Some(SpecTerm::Struct(f as int, ts)),
                        None => None,
                    }
                }
            } else {
                None
            }
        },
        None => None,
    }
}

/// The terms of `n` argument cells starting at `base`.
pub open spec fn reify_args(s: Seq<Cell>, base: int, n: nat, fuel: nat) -> Option<Seq<SpecTerm>>
    decreases fuel, 2int, n,
{
    if n == 0 {
        Some(Seq::empty())
    } else {
        match reify_cell(s, s[base], fuel) {
            Some(t) => match reify_args(s, base + 1, (n - 1) as nat, fuel) {
                Some(ts) => Some(seq![t] + ts),
                None => None,
            },
            None => None,
        }
    }
}

/// Reifies the term rooted at a cell of the given storage.
fn reify_rec<B: TermBuilder>(store: &Storage, cell: Cell, fuel: usize, builder: &mut B) -> (r:
    Option<B::Term>)
    ensures
        match r {
            Some(t) => reify_cell(store@.cells, cell, fuel as nat) == Some(B::term_view(t)),
            None => reify_cell(store@.cells, cell, fuel as nat) is None,
        },
    decreases fuel, 1int,
{
    match cell {
        Cell::Ref(i) => {
            match store.deref(i) {
                Some(Cell::Ref(j)) => Some(builder.variable(j)),
                Some(Cell::Struct(a)) => reify_struct_rec(store, a, fuel, builder),
                _ => None,
            }
        },
        Cell::Struct(a) => reify_struct_rec(store, a, fuel, builder),
        _ => None,
    }
}

/// Reifies the structure whose functor header sits at `a`.
#[verifier::loop_isolation(false)]
fn reify_struct_rec<B: TermBuilder>(store: &Storage, a: usize, fuel: usize, builder: &mut B) -> (r:
    Option<B::Term>)
    ensures
        match r {
            Some(t) => reify_struct(store@.cells, a as int, fuel as nat) == Some(B::term_view(t)),
            None => reify_struct(store@.cells, a as int, fuel as nat) is None,
        },
    decreases fuel, 0int,
{
    let (f, n) = match store.get(a) {
        Some(Cell::Funct(f, n)) => (f, n),
        _ => {
            return None;
        },
    };
    if n == 0 {
        return Some(builder.constant(f));
    }
    let len = store.len();
    if n >= len || a >= len - n {
        return None;
    }
    if fuel == 0 {
        return None;
    }
    let ghost cells = store@.cells;
    let mut ts: Vec<B::Term> = Vec::new();
    let mut k: usize = 0;
    while k < n
        invariant
            k <= n,
            reify_args(cells, a + 1, n as nat, (fuel - 1) as nat) == (match reify_args(
                cells,
                a + 1 + k,
                (n - k) as nat,
                (fuel - 1) as nat,
            ) {
                Some(rest) => Some(views_of::<B>(ts@) + rest),
                None => None::<Seq<SpecTerm>>,
            }),
        decreases n - k,
    {
        let ghost pre_ts = ts@;
        let sub = match store.get(a + 1 + k) {
            Some(c) => c,
            None => vstd::pervasive::unreached(),
        };
        let t = match reify_rec(store, sub, fuel - 1, builder) {
            Some(t) => t,
            None => {
                return None;
            },
        };
        let ghost tv = B::term_view(t);
        ts.push(t);
        k = k + 1;
        proof {
            assert(views_of::<B>(ts@) =~= views_of::<B>(pre_ts) + seq![tv]);
            assert(reify_args(cells, a + 1 + (k - 1), (n - (k - 1)) as nat, (fuel - 1) as nat) == (
            match reify_args(cells, a + 1 + k, (n - k) as nat, (fuel - 1) as nat) {
                Some(rest) => Some(seq![tv] + rest),
                None => None::<Seq<SpecTerm>>,
            }));
            match reify_args(cells, a + 1 + k, (n - k) as nat, (fuel - 1) as nat) {
                Some(rest) => {
                    assert(views_of::<B>(pre_ts) + (seq![tv] + rest) =~= views_of::<B>(ts@)
                        + rest);
                },
                None => {},
            }
        }
    }
    proof {
        assert(reify_args(cells, a + 1 + n, 0, (fuel - 1) as nat) == Some(Seq::<SpecTerm>::empty()));
        assert(views_of::<B>(ts@) + Seq::<SpecTerm>::empty() =~= views_of::<B>(ts@));
    }
    let t = builder.structure(f, ts);
    proof {
        match B::term_view(t) {
            SpecTerm::Struct(f2, ts2) => {
                assert(ts2 =~= views_of::<B>(ts@));
            },
            _ => {
                assert(false);
            },
        }
    }
    Some(t)
}

impl Machine {
    /// Reifies the term rooted at a cell of this machine's storage
    /// through the given builder. The depth budget of a store's own
    /// length is enough for every term a run can build.
    pub fn build_term<B: TermBuilder>(&self, cell: Cell, builder: &mut B) -> (r: Option<B::Term>)
        ensures
            match r {
                Some(t) => reify_cell(self@.cells, cell, self@.cells.len()) == Some(
                    B::term_view(t),
                ),
                None => reify_cell(self@.cells, cell, self@.cells.len()) is None,
            },
    {
        let store = self.storage();
        let fuel = store.len();
        reify_rec(store, cell, fuel, builder)
    }
}

impl QueryResult {
    /// Reifies the binding of a query variable: the term rooted at the
    /// variable's register, or nothing for a handle outside the query's
    /// registers.
    pub fn build_term<B: TermBuilder>(&self, qref: QueryRef, builder: &mut B) -> (r: Option<
        B::Term,
    >)
        ensures
            match r {
                Some(t) => qref.spec_id() < self@.xregs && qref.spec_id() < self@.cells.len()
                    && reify_cell(
                    self@.cells,
                    self@.cells[qref.spec_id()],
                    self@.cells.len(),
                ) == Some(B::term_view(t)),
                None => qref.spec_id() >= self@.xregs || qref.spec_id() >= self@.cells.len()
                    || reify_cell(
                    self@.cells,
                    self@.cells[qref.spec_id()],
                    self@.cells.len(),
                ) is None,
            },
    {
        proof {
            lemma_query_result_view(self);
        }
        let id = qref.id();
        if id >= self.xregs {
            return None;
        }
        let cell = match self.storage.get(id) {
            Some(c) => c,
            None => {
                return None;
            },
        };
        let fuel = self.storage.len();
        reify_rec(&self.storage, cell, fuel, builder)
    }
}

} // verus!
