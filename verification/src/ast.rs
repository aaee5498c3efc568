//! A ready-made term representation and builder: terms compare equal up
//! to a consistent renaming of their variables.

use vstd::prelude::*;
use crate::term_builder::{SpecTerm, TermBuilder};

verus! {

broadcast use vstd::std_specs::vec::axiom_vec_index_decreases;

/// A reified term: a variable named by its heap address, a constant, or
/// a structure over subterms.
#[derive(Debug)]
pub enum Term {
    Var(usize),
    Const(usize),
    Struct(usize, Vec<Term>),
}

/// The mathematical shape of a term.
pub open spec fn term_model(t: Term) -> SpecTerm
    decreases t,
{
    match t {
        Term::Var(v) => SpecTerm::Var(v as int),
        Term::Const(c) => SpecTerm::Const(c as int),
        Term::Struct(f, ts) => SpecTerm::Struct(
            f as int,
            Seq::new(
                ts@.len(),
                |i: int|
                    if 0 <= i < ts@.len() {
                        term_model(ts[i])
                    } else {
                        SpecTerm::Const(0)
                    },
            ),
        ),
    }
}

/// A builder that yields `Term`s.
pub struct Builder;

impl TermBuilder for Builder {
    type Term = Term;

    open spec fn term_view(t: Term) -> SpecTerm {
        term_model(t)
    }

    fn variable(&mut self, id: usize) -> (r: Term) {
        Term::Var(id)
    }

    fn structure(&mut self, ident: usize, subterms: Vec<Term>) -> (r: Term) {
        Term::Struct(ident, subterms)
    }

    fn constant(&mut self, ident: usize) -> (r: Term) {
        Term::Const(ident)
    }
}

/// The value a variable renaming maps a name to, if any: the first
/// binding wins.
pub open spec fn spec_lookup(m: Seq<(usize, usize)>, key: usize) -> Option<usize>
    decreases m.len(),
{
    if m.len() == 0 {
        None
    } else if m[0].0 == key {
        Some(m[0].1)
    } else {
        spec_lookup(m.drop_first(), key)
    }
}

/// One step of matching two terms up to renaming: a variable of the
/// left term must map to the variable of the right one, taking a fresh
/// binding at its first occurrence; constants and functors must agree.
/// Gives the verdict and the renaming built up so far.
pub open spec fn spec_same(a: Term, b: Term, m: Seq<(usize, usize)>) -> (bool, Seq<(usize, usize)>)
    decreases a, 0int, 0int,
{
    match (a, b) {
        (Term::Var(s), Term::Var(o)) => match spec_lookup(m, s) {
            Some(v) => (v == o, m),
            None => (true, m + seq![(s, o)]),
        },
        (Term::Const(s), Term::Const(o)) => (s == o, m),
        (Term::Struct(s, ss), Term::Struct(o, so)) => {
            if s == o {
                spec_same_zip(ss, so, m, 0)
            } else {
                (false, m)
            }
        },
        _ => (false, m),
    }
}

/// Matches paired subterms in order, stopping at the first mismatch;
/// unpaired trailing subterms are ignored.
pub open spec fn spec_same_zip(
    ss: Vec<Term>,
    so: Vec<Term>,
    m: Seq<(usize, usize)>,
    i: int,
) -> (bool, Seq<(usize, usize)>)
    decreases ss, 1int, ss@.len() - i,
{
    if i < 0 || i >= ss@.len() || i >= so@.len() {
        (true, m)
    } else {
        let (ok, m2) = spec_same(ss@[i], so@[i], m);
        if !ok {
            (false, m2)
        } else {
            spec_same_zip(ss, so, m2, i + 1)
        }
    }
}

/// No two variable names are renamed to the same variable.
pub open spec fn values_distinct(m: Seq<(usize, usize)>) -> bool {
    forall|i: int, j: int| 0 <= i < j < m.len() ==> (#[trigger] m[i]).1 != (#[trigger] m[j]).1
}

impl Term {
    /// Matches this term against another up to renaming, extending the
    /// given renaming with the bindings it takes.
    #[verifier::loop_isolation(false)]
    pub fn same(&self, other: &Term, mapping: &mut Vec<(usize, usize)>) -> (r: bool)
        ensures
            ({
                let (ok, m2) = spec_same(*self, *other, old(mapping)@);
                r == ok && final(mapping)@ == m2
            }),
        decreases *self,
    {
        match (self, other) {
            (Term::Var(s), Term::Var(o)) => {
                proof {
                    assert(mapping@.skip(0) =~= mapping@);
                }
                let mut i: usize = 0;
                loop
                    invariant
                        i <= mapping@.len(),
                        mapping@ == old(mapping)@,
                        spec_lookup(mapping@, *s) == spec_lookup(
                            mapping@.skip(i as int),
                            *s,
                        ),
                    decreases mapping@.len() - i,
                {
                    if i >= mapping.len() {
                        proof {
                            assert(mapping@.skip(i as int) =~= Seq::<(usize, usize)>::empty());
                        }
                        mapping.push((*s, *o));
                        return true;
                    }
                    let (key, value) = mapping[i];
                    proof {
                        assert(mapping@.skip(i as int)[0] == (key, value));
                        assert(mapping@.skip(i as int).drop_first() =~= mapping@.skip(i as int + 1));
                    }
                    if key == *s {
                        return value == *o;
                    }
                    i = i + 1;
                }
            },
            (Term::Const(s), Term::Const(o)) => s == o,
            (Term::Struct(s, ss), Term::Struct(o, so)) => {
                if s != o {
                    return false;
                }
                let limit = if ss.len() <= so.len() {
                    ss.len()
                } else {
                    so.len()
                };
                let mut i: usize = 0;
                while i < limit
                    invariant
                        i <= limit,
                        limit == if ss@.len() <= so@.len() {
                            ss@.len()
                        } else {
                            so@.len()
                        },
                        spec_same_zip(*ss, *so, old(mapping)@, 0) == spec_same_zip(
                            *ss,
                            *so,
                            mapping@,
                            i as int,
                        ),
                    decreases limit - i,
                {
                    let ok = ss[i].same(&so[i], mapping);
                    i = i + 1;
                    if !ok {
                        return false;
                    }
                }
                true
            },
            _ => false,
        }
    }
}

impl PartialEq for Term {
    /// Two terms are equal when they match up to an injective renaming
    /// of their variables.
    #[verifier::loop_isolation(false)]
    fn eq(&self, other: &Term) -> (r: bool) {
        let mut mapping: Vec<(usize, usize)> = Vec::new();
        let matched = self.same(other, &mut mapping);
        if !matched {
            return false;
        }
        let mut i: usize = 0;
        while i < mapping.len()
            invariant
                i <= mapping@.len(),
                forall|p: int, q: int|
                    0 <= p < q < mapping@.len() && q < i ==> (#[trigger] mapping@[p]).1 != (
                    #[trigger] mapping@[q]).1,
            decreases mapping@.len() - i,
        {
            let mut j: usize = 0;
            while j < i
                invariant
                    j <= i,
                    i < mapping@.len(),
                    forall|p: int|
                        0 <= p < j ==> (#[trigger] mapping@[p]).1 != mapping@[i as int].1,
                decreases i - j,
            {
                if mapping[j].1 == mapping[i].1 {
                    return false;
                }
                j = j + 1;
            }
            i = i + 1;
        }
        true
    }
}

impl vstd::std_specs::cmp::PartialEqSpecImpl for Term {
    open spec fn obeys_eq_spec() -> bool {
        true
    }

    open spec fn eq_spec(&self, other: &Term) -> bool {
        let (ok, m) = spec_same(*self, *other, Seq::empty());
        ok && values_distinct(m)
    }
}

} // verus!
