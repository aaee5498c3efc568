use warren::ast::Term;

#[test]
fn equal_up_to_renaming() {
    let left = Term::Struct(1, vec![Term::Var(5), Term::Var(5), Term::Var(9)]);
    let right = Term::Struct(1, vec![Term::Var(0), Term::Var(0), Term::Var(1)]);
    assert_eq!(left, right);
}

#[test]
fn renaming_must_be_injective() {
    let left = Term::Struct(1, vec![Term::Var(0), Term::Var(1)]);
    let right = Term::Struct(1, vec![Term::Var(5), Term::Var(5)]);
    assert_ne!(left, right);
}

#[test]
fn renaming_must_be_consistent() {
    let left = Term::Struct(1, vec![Term::Var(0), Term::Var(0)]);
    let right = Term::Struct(1, vec![Term::Var(5), Term::Var(6)]);
    assert_ne!(left, right);
}

#[test]
fn distinct_constants_differ() {
    assert_ne!(Term::Const(1), Term::Const(2));
    assert_eq!(Term::Const(1), Term::Const(1));
}

#[test]
fn distinct_functors_differ() {
    let left = Term::Struct(1, vec![Term::Const(0)]);
    let right = Term::Struct(2, vec![Term::Const(0)]);
    assert_ne!(left, right);
}

#[test]
fn variables_and_constants_differ() {
    assert_ne!(Term::Var(1), Term::Const(1));
}

#[test]
fn same_collects_bindings() {
    let left = Term::Struct(3, vec![Term::Var(7), Term::Var(8)]);
    let right = Term::Struct(3, vec![Term::Var(1), Term::Var(2)]);
    let mut mapping: Vec<(usize, usize)> = Vec::new();
    assert!(left.same(&right, &mut mapping));
    assert_eq!(vec![(7, 1), (8, 2)], mapping);
}
