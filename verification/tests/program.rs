use warren::Knowledge;
use warren::Machine;
use warren::Cell;
use warren::ast::{Builder, Term};
use warren::operation::Operation;
use warren::program::ProgramBuilder;
use warren::query::QueryBuilder;
use warren::statement::StatementBuilder;

#[test]
fn builder_emission_decodes_back() {
    let mut builder = ProgramBuilder::new();
    builder.put_structure(3, 0, 1);
    builder.set_variable(2);
    builder.set_value(1);
    builder.get_structure(5, 2, 0);
    builder.unify_variable(4);
    builder.unify_value(4);
    let program = builder.build();

    assert_eq!(Some(Operation::PutStructure(3, 0, 1)), program.operation(0));
    assert_eq!(Some(Operation::SetVariable(2)), program.operation(4));
    assert_eq!(Some(Operation::SetValue(1)), program.operation(6));
    assert_eq!(Some(Operation::GetStructure(5, 2, 0)), program.operation(8));
    assert_eq!(Some(Operation::UnifyVariable(4)), program.operation(12));
    assert_eq!(Some(Operation::UnifyValue(4)), program.operation(14));
    // The word count is the sum of the strides: decoding past the last
    // instruction terminates.
    assert_eq!(None, program.operation(16));
    assert_eq!(5, program.x_registers());
}

#[test]
fn advance_matches_operand_counts() {
    assert_eq!(4, Operation::PutStructure(0, 0, 0).advance());
    assert_eq!(2, Operation::SetVariable(0).advance());
    assert_eq!(2, Operation::SetValue(0).advance());
    assert_eq!(4, Operation::GetStructure(0, 0, 0).advance());
    assert_eq!(2, Operation::UnifyVariable(0).advance());
    assert_eq!(2, Operation::UnifyValue(0).advance());
}

#[test]
fn constant_query_layout() {
    // a/0 := 3 compiled as a query: one PutStructure into register 1,
    // and after the run the heap holds the pointer and the header.
    let mut builder = QueryBuilder::new();
    let a = builder.constant(3);
    let query = builder.build(a);

    assert_eq!("   0: PutStructure(3, 0, 1)", query.assembly());

    let mut machine = Machine::new();
    let result = machine.query(query, &Knowledge::new());

    let storage = machine.storage();
    assert_eq!(Some(Cell::Struct(3)), storage.get(2));
    assert_eq!(Some(Cell::Funct(3, 0)), storage.get(3));

    let term = result.build_term(a, &mut Builder).unwrap();
    assert_eq!(Term::Const(3), term);
}

#[test]
fn query_assembly_lists_instructions() {
    // p(Z, f(Z)) with p/2 := 2, f/1 := 0.
    let mut builder = QueryBuilder::new();
    let z = builder.variable();
    let f = builder.structure(0, vec![z]);
    let p = builder.structure(2, vec![z, f]);
    let query = builder.build(p);

    let expected = "   0: SetVariable(1)\n\
                    \x20  2: PutStructure(0, 1, 2)\n\
                    \x20  6: SetValue(1)\n\
                    \x20  8: PutStructure(2, 2, 3)\n\
                    \x20 12: SetValue(1)\n\
                    \x20 14: SetValue(2)";
    assert_eq!(expected, query.assembly());
}

#[test]
fn statement_assembly_shares_repeated_registers() {
    // p(Y, Y) with p/2 := 7: the first occurrence of Y declares it, the
    // second unifies against it.
    let mut builder = StatementBuilder::new();
    let y = builder.variable();
    let p = builder.structure(7, vec![y, y]);
    let statement = builder.build(p);

    let expected = "   0: GetStructure(7, 2, 0)\n\
                    \x20  4: UnifyVariable(1)\n\
                    \x20  6: UnifyValue(1)";
    assert_eq!(expected, statement.assembly());
}

#[test]
fn nested_statement_assembly() {
    // p(f(X), X) with p/2 := 2, f/1 := 0.
    let mut builder = StatementBuilder::new();
    let x = builder.variable();
    let f = builder.structure(0, vec![x]);
    let p = builder.structure(2, vec![f, x]);
    let statement = builder.build(p);

    let expected = "   0: GetStructure(2, 2, 0)\n\
                    \x20  4: UnifyVariable(2)\n\
                    \x20  6: UnifyVariable(1)\n\
                    \x20  8: GetStructure(0, 1, 2)\n\
                    \x20 12: UnifyValue(1)";
    assert_eq!(expected, statement.assembly());
}
