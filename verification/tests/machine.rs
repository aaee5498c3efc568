use warren::Machine;
use warren::Knowledge;
use warren::ast::{Builder, Term};
use warren::query::QueryBuilder;
use warren::statement::StatementBuilder;

#[test]
fn l0_query() {
    // p(Z, h(Z, W), f(W))
    // p/3 := 2
    // h/2 := 1
    // f/1 := 0
    let mut builder = QueryBuilder::new();
    let w = builder.variable();
    let z = builder.variable();
    let h = builder.structure(1, vec![z, w]);
    let f = builder.structure(0, vec![w]);
    let p = builder.structure(2, vec![z, h, f]);

    let query = builder.build(p);

    let mut machine = Machine::new();
    let result = machine.query(query, &Default::default());
    let term = result.build_term(p, &mut Builder).unwrap();

    // _2(?0, _1(?0, ?1), _0(?1))
    let expected_term = Term::Struct(
        2,
        vec![
            Term::Var(0),
            Term::Struct(1, vec![Term::Var(0), Term::Var(1)]),
            Term::Struct(0, vec![Term::Var(1)]),
        ],
    );

    assert_eq!(expected_term, term);
}

#[test]
fn l0_program() {
    // p/3 := 2
    // h/2 := 1
    // f/1 := 0
    // a/0 := 3

    let fact = {
        // p(f(X), h(Y, f(a)), Y)
        let mut builder = StatementBuilder::new();
        let x = builder.variable();
        let f0 = builder.structure(0, vec![x]);
        let y = builder.variable();
        let a = builder.constant(3);
        let f1 = builder.structure(0, vec![a]);
        let h = builder.structure(2, vec![y, f1]);
        let p = builder.structure(3, vec![f0, h, y]);

        builder.build(p)
    };

    let (query, p) = {
        // p(Z, h(Z, W), f(W))
        let mut builder = QueryBuilder::new();
        let w = builder.variable();
        let z = builder.variable();
        let h = builder.structure(1, vec![z, w]);
        let f = builder.structure(0, vec![w]);
        let p = builder.structure(2, vec![z, h, f]);

        (builder.build(p), p)
    };

    // The fact was registered under other functor identifiers than the
    // query uses, so its first instruction fails and the run aborts
    // there: the query term is left untouched.
    let mut machine = Machine::new();
    let mut knowledge = Knowledge::new();
    knowledge.add(fact);
    let result = machine.query(query, &knowledge);
    let term = result.build_term(p, &mut Builder).unwrap();

    // _2(?0, _1(?0, ?1), _0(?1))
    let expected_term = Term::Struct(
        2,
        vec![
            Term::Var(0),
            Term::Struct(1, vec![Term::Var(0), Term::Var(1)]),
            Term::Struct(0, vec![Term::Var(1)]),
        ],
    );

    assert_eq!(expected_term, term);
}

#[test]
fn fact_binds_query_variables() {
    // p/3 := 2, h/2 := 1, f/1 := 0, a/0 := 3
    let fact = {
        // p(f(X), h(Y, f(a)), Y)
        let mut builder = StatementBuilder::new();
        let x = builder.variable();
        let f0 = builder.structure(0, vec![x]);
        let y = builder.variable();
        let a = builder.constant(3);
        let f1 = builder.structure(0, vec![a]);
        let h = builder.structure(1, vec![y, f1]);
        let p = builder.structure(2, vec![f0, h, y]);

        builder.build(p)
    };

    let (query, z, w) = {
        // p(Z, h(Z, W), f(W))
        let mut builder = QueryBuilder::new();
        let w = builder.variable();
        let z = builder.variable();
        let h = builder.structure(1, vec![z, w]);
        let f = builder.structure(0, vec![w]);
        let p = builder.structure(2, vec![z, h, f]);

        (builder.build(p), z, w)
    };

    let mut machine = Machine::new();
    let mut knowledge = Knowledge::new();
    knowledge.add(fact);
    let result = machine.query(query, &knowledge);

    // Z := f(f(a)), W := f(a)
    let z_term = result.build_term(z, &mut Builder).unwrap();
    let w_term = result.build_term(w, &mut Builder).unwrap();

    let f_a = || Term::Struct(0, vec![Term::Const(3)]);
    assert_eq!(Term::Struct(0, vec![f_a()]), z_term);
    assert_eq!(f_a(), w_term);
}

#[test]
fn only_first_fact_is_consulted() {
    // q/0 := 5 as the registered fact; r/0 := 6 queried afterwards.
    let mismatch = {
        let mut builder = StatementBuilder::new();
        let c = builder.constant(5);
        builder.build(c)
    };
    let matching = {
        let mut builder = StatementBuilder::new();
        let c = builder.constant(6);
        builder.build(c)
    };

    let (query, root) = {
        let mut builder = QueryBuilder::new();
        let c = builder.constant(6);
        (builder.build(c), c)
    };

    // The matching fact sits behind a mismatching one; only the first
    // fact is consulted, so the query term keeps its shape and no
    // variable is bound.
    let mut machine = Machine::new();
    let mut knowledge = Knowledge::new();
    knowledge.add(mismatch);
    knowledge.add(matching);
    let result = machine.query(query, &knowledge);

    let term = result.build_term(root, &mut Builder).unwrap();
    assert_eq!(Term::Const(6), term);
}

#[test]
fn ground_query_reifies_to_itself() {
    // p(a, f(b)) with p/2 := 2, f/1 := 0, a/0 := 3, b/0 := 4.
    let mut builder = QueryBuilder::new();
    let a = builder.constant(3);
    let b = builder.constant(4);
    let f = builder.structure(0, vec![b]);
    let p = builder.structure(2, vec![a, f]);
    let query = builder.build(p);

    let mut machine = Machine::new();
    let result = machine.query(query, &Knowledge::new());
    let term = result.build_term(p, &mut Builder).unwrap();

    let expected = Term::Struct(2, vec![Term::Const(3), Term::Struct(0, vec![Term::Const(4)])]);
    assert_eq!(expected, term);
}

#[test]
fn round_trip_of_identical_term() {
    // The same term p(a, f(b)) compiled once as a query and once as a
    // fact: matching it against itself succeeds and leaves it unchanged.
    let fact = {
        let mut builder = StatementBuilder::new();
        let a = builder.constant(3);
        let b = builder.constant(4);
        let f = builder.structure(0, vec![b]);
        let p = builder.structure(2, vec![a, f]);
        builder.build(p)
    };
    let (query, p) = {
        let mut builder = QueryBuilder::new();
        let a = builder.constant(3);
        let b = builder.constant(4);
        let f = builder.structure(0, vec![b]);
        let p = builder.structure(2, vec![a, f]);
        (builder.build(p), p)
    };

    let mut machine = Machine::new();
    let mut knowledge = Knowledge::new();
    knowledge.add(fact);
    let result = machine.query(query, &knowledge);
    let term = result.build_term(p, &mut Builder).unwrap();

    let expected = Term::Struct(2, vec![Term::Const(3), Term::Struct(0, vec![Term::Const(4)])]);
    assert_eq!(expected, term);
}

#[test]
fn query_result_rejects_foreign_handles() {
    let (query, root) = {
        let mut builder = QueryBuilder::new();
        let c = builder.constant(0);
        (builder.build(c), c)
    };
    let far = {
        let mut other = QueryBuilder::new();
        let _ = other.variable();
        let _ = other.variable();
        let _ = other.variable();
        other.variable()
    };

    let mut machine = Machine::new();
    let result = machine.query(query, &Knowledge::new());
    assert!(result.build_term(root, &mut Builder).is_some());
    // A handle past the query's registers yields no term.
    assert!(result.build_term(far, &mut Builder).is_none());
}
