use zkir::expression::{LinComb, QuadComb};
use zkir::field::FieldElement;
use zkir::prog::{Prog, ProgIterator};
use zkir::statement::Statement;
use zkir::variable::{Parameter, Variable};
use zkir::witness::Witness;

fn elem(v: u8) -> FieldElement {
    FieldElement::from_bytes_le(vec![v])
}

#[test]
fn public_values_ordering() {
    // One public argument bound to 5 and one return wire bound to 7: the
    // visible vector lists the argument first, then the return value.
    let v1 = Variable::public(1);
    let prog: Prog = ProgIterator::new(vec![Parameter::new(v1, false)], vec![], 1);
    let mut witness = Witness::new();
    witness.insert(v1, elem(5));
    witness.insert(Variable::public(0), elem(7));
    let values = prog.public_inputs_values(&witness);
    assert_eq!(values.len(), 2);
    assert_eq!(values[0].bytes_le, vec![5u8]);
    assert_eq!(values[1].bytes_le, vec![7u8]);
}

#[test]
fn private_arguments_are_hidden() {
    let pub_arg = Variable::public(0);
    let prv_arg = Variable::new(0);
    let prog: Prog = ProgIterator::new(
        vec![Parameter::new(prv_arg, true), Parameter::new(pub_arg, false)],
        vec![],
        0,
    );
    let mut witness = Witness::new();
    witness.insert(prv_arg, elem(3));
    witness.insert(pub_arg, elem(9));
    let values = prog.public_inputs_values(&witness);
    assert_eq!(values.len(), 1);
    assert_eq!(values[0].bytes_le, vec![9u8]);
    assert_eq!(prog.public_count(), 1);
    assert_eq!(prog.private_input_count(), 1);
    assert_eq!(prog.public_inputs(), vec![pub_arg]);
}

#[test]
fn return_wires_are_the_first_public_wires() {
    let prog: Prog = ProgIterator::new(vec![], vec![], 3);
    assert_eq!(
        prog.return_wires(),
        vec![Variable::public(0), Variable::public(1), Variable::public(2)]
    );
    assert_eq!(prog.public_count(), 3);
}

#[test]
fn constraint_count_ignores_non_constraints() {
    let statements = vec![
        Statement::Block(vec![Statement::constraint(
            QuadComb::from_lincomb(LinComb::one()),
            LinComb::one(),
        )]),
        Statement::constraint(QuadComb::from_lincomb(LinComb::one()), LinComb::one()),
        Statement::definition(
            Variable::new(1),
            QuadComb::from_lincomb(LinComb::from_variable(Variable::new(0))),
        ),
    ];
    let prog: Prog = ProgIterator::new(vec![], statements, 0);
    // the constraint nested in the block is not counted: top level only.
    assert_eq!(prog.constraint_count(), 2);
}

#[test]
fn collect_keeps_the_program() {
    let statements = vec![Statement::constraint(
        QuadComb::from_lincomb(LinComb::one()),
        LinComb::from_variable(Variable::public(0)),
    )];
    let prog: Prog = ProgIterator::new(vec![], statements, 1);
    let collected = prog.into_prog_iter().collect();
    assert_eq!(collected.return_count, 1);
    assert_eq!(collected.statements.len(), 1);
}

#[test]
fn witness_lookup_finds_latest_binding() {
    let mut w = Witness::new();
    let v = Variable::new(4);
    w.insert(v, elem(1));
    w.insert(v, elem(2));
    assert_eq!(w.get(&v).unwrap().bytes_le, vec![2u8]);
    assert!(w.get(&Variable::new(5)).is_none());
}

#[test]
fn definition_builds_a_tagless_constraint() {
    let quad = QuadComb::from_linear_combinations(
        LinComb::from_variable(Variable::new(2)),
        LinComb::from_variable(Variable::new(3)),
    );
    let s = Statement::definition(Variable::new(1), quad);
    match s {
        Statement::Constraint(_, lin, err) => {
            assert!(err.is_none());
            assert_eq!(lin.0.len(), 1);
            assert_eq!(lin.0[0].0, Variable::new(1));
            assert_eq!(lin.0[0].1.bytes_le, vec![1u8]);
        }
        _ => panic!("definition must build a constraint"),
    }
}

#[test]
fn public_inputs_is_a_set() {
    // A wire declared twice appears once; the set is ascending by wire
    // identifier (public wires by descending index, then local wires).
    let prog: Prog = ProgIterator::new(
        vec![
            Parameter::new(Variable::new(0), false),
            Parameter::new(Variable::public(1), false),
            Parameter::new(Variable::public(1), false),
            Parameter::new(Variable::public(2), false),
            Parameter::new(Variable::new(3), true),
        ],
        vec![],
        0,
    );
    assert_eq!(
        prog.public_inputs(),
        vec![Variable::public(2), Variable::public(1), Variable::new(0)]
    );
}
