use warren::{Cell, Storage};

#[test]
fn pushed_variable_is_self_reference() {
    let mut storage = Storage::new();
    storage.reset(0);
    let cell = storage.push_var();
    assert_eq!(Some(0), cell.to_ref());
    assert_eq!(Some(Cell::Ref(0)), storage.get(0));
    assert_eq!(Some(0), storage.deref_idx(0));
}

#[test]
fn bind_links_two_variables() {
    let mut storage = Storage::new();
    storage.reset(0);
    storage.push_var();
    storage.push_var();
    storage.bind(0, 1);
    assert_eq!(Some(1), storage.deref_idx(0));
    assert_eq!(Some(1), storage.deref_idx(1));
}

#[test]
fn bind_leaves_bound_cells_alone() {
    let cells = vec![Cell::Funct(0, 0), Cell::Funct(1, 0)];
    let mut storage = Storage::from_iter(0, cells);
    storage.bind(0, 1);
    assert_eq!(Some(Cell::Funct(0, 0)), storage.get(0));
    assert_eq!(Some(Cell::Funct(1, 0)), storage.get(1));
}

#[test]
fn unify_mismatched_constants_fails() {
    // f(a) at addresses 0..4 and f(b) at addresses 4..8.
    let cells = vec![
        Cell::Struct(1),
        Cell::Funct(0, 1),
        Cell::Struct(3),
        Cell::Funct(3, 0),
        Cell::Struct(5),
        Cell::Funct(0, 1),
        Cell::Struct(7),
        Cell::Funct(4, 0),
    ];
    let mut storage = Storage::from_iter(0, cells.clone());
    assert!(!storage.unify(0, 4));
    // No cell changed: the constants differ below the shared functor.
    for (addr, cell) in cells.iter().enumerate() {
        assert_eq!(Some(*cell), storage.get(addr));
    }
}

#[test]
fn unify_binds_variable_to_structure() {
    // A free variable at 0 against the constant structure at 1.
    let cells = vec![Cell::Ref(0), Cell::Struct(2), Cell::Funct(7, 0)];
    let mut storage = Storage::from_iter(0, cells);
    assert!(storage.unify(0, 1));
    assert_eq!(Some(1), storage.deref_idx(0));
    assert_eq!(Some(Cell::Struct(2)), storage.deref(0));
}

#[test]
fn unify_equal_structures_succeeds() {
    // f(X) against f(a): X is bound to the inner constant structure.
    let cells = vec![
        Cell::Struct(1),
        Cell::Funct(0, 1),
        Cell::Ref(2),
        Cell::Struct(4),
        Cell::Funct(0, 1),
        Cell::Struct(6),
        Cell::Funct(3, 0),
    ];
    let mut storage = Storage::from_iter(0, cells);
    assert!(storage.unify(0, 3));
    assert_eq!(Some(5), storage.deref_idx(2));
    assert_eq!(Some(Cell::Struct(6)), storage.deref(2));
}

#[test]
fn dereference_out_of_bounds_is_none() {
    let storage = Storage::from_iter(0, vec![Cell::Ref(5)]);
    assert_eq!(None, storage.deref_idx(99));
    // Following a reference out of the store reports none as well.
    assert_eq!(None, storage.deref_idx(0));
}

#[test]
fn dereference_follows_chains() {
    let cells = vec![Cell::Ref(1), Cell::Ref(2), Cell::Funct(9, 0)];
    let storage = Storage::from_iter(0, cells);
    assert_eq!(Some(2), storage.deref_idx(0));
    assert_eq!(Some(Cell::Funct(9, 0)), storage.deref(0));
    // Dereferencing is idempotent: the terminal address maps to itself.
    assert_eq!(Some(2), storage.deref_idx(2));
}

#[test]
fn reset_discards_heap_state() {
    let mut storage = Storage::new();
    storage.reset(2);
    storage.push_var();
    storage.push_cell(Cell::Funct(1, 0));
    assert_eq!(4, storage.len());
    storage.reset(3);
    assert_eq!(3, storage.len());
    assert_eq!(Some(Cell::Empty), storage.get(0));
    assert_eq!(Some(Cell::Empty), storage.get(2));
    assert_eq!(None, storage.get(3));
}

#[test]
fn push_struct_lays_out_pointer_and_header() {
    let mut storage = Storage::new();
    storage.reset(1);
    let cell = storage.push_struct(4, 2);
    assert_eq!(Some(2), cell.to_struct());
    assert_eq!(Some(Cell::Struct(2)), storage.get(1));
    assert_eq!(Some((4, 2)), storage.get(2).unwrap().to_funct());
}

#[test]
fn cell_accessors_tell_variants_apart() {
    assert_eq!(Some(3), Cell::Ref(3).to_ref());
    assert_eq!(None, Cell::Struct(3).to_ref());
    assert_eq!(Some(3), Cell::Struct(3).to_struct());
    assert_eq!(None, Cell::Funct(3, 1).to_struct());
    assert_eq!(Some((3, 1)), Cell::Funct(3, 1).to_funct());
    assert_eq!(None, Cell::Empty.to_funct());
}
