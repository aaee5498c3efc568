use warren::{Cell, Machine, Storage};
use warren::ast::{Builder, Term};

#[test]
fn single_const() {
    let storage = Storage::from_iter(0, vec![Cell::Struct(1), Cell::Funct(0, 0)]);

    let machine = Machine::with_storage(storage);

    let term = machine.build_term(Cell::Struct(1), &mut Builder).unwrap();
    let expected = Term::Const(0);

    assert_eq!(expected, term);
}

#[test]
fn single_var() {
    let storage = Storage::from_iter(0, vec![Cell::Ref(0)]);

    let machine = Machine::with_storage(storage);

    let term = machine.build_term(Cell::Ref(0), &mut Builder).unwrap();
    let expected = Term::Var(0);

    assert_eq!(expected, term);
}

#[test]
fn sample_term() {
    let storage = Storage::from_iter(
        0,
        vec![
            Cell::Struct(1),
            Cell::Funct(0, 2),
            Cell::Ref(2),
            Cell::Ref(3),
            Cell::Struct(6),
            Cell::Funct(1, 1),
            Cell::Ref(3),
            Cell::Struct(8),
            Cell::Funct(2, 3),
            Cell::Ref(2),
            Cell::Struct(1),
            Cell::Struct(5),
        ],
    );

    let machine = Machine::with_storage(storage);

    let term = machine.build_term(Cell::Struct(8), &mut Builder).unwrap();

    let expected = Term::Struct(
        2,
        vec![
            Term::Var(2),
            Term::Struct(0, vec![Term::Var(2), Term::Var(3)]),
            Term::Struct(1, vec![Term::Var(3)]),
        ],
    );

    assert_eq!(expected, term);
}

#[test]
fn invalid_roots_yield_no_term() {
    let storage = Storage::from_iter(0, vec![Cell::Struct(1), Cell::Funct(0, 0), Cell::Empty]);
    let machine = Machine::with_storage(storage);

    // A bare functor header, an uninitialized cell, or anything pointing
    // out of the store roots no term.
    assert!(machine.build_term(Cell::Funct(0, 0), &mut Builder).is_none());
    assert!(machine.build_term(Cell::Empty, &mut Builder).is_none());
    assert!(machine.build_term(Cell::Ref(17), &mut Builder).is_none());
    assert!(machine.build_term(Cell::Struct(2), &mut Builder).is_none());
}
