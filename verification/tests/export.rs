use zkir::expression::{LinComb, QuadComb};
use zkir::field::{FieldElement, FieldInfo};
use zkir::prog::{Prog, ProgIterator};
use zkir::r1cs::write_r1cs;
use zkir::statement::{Directive, FormatString, Solver, Statement};
use zkir::variable::{Parameter, Variable};

fn bn128_field() -> FieldInfo {
    FieldInfo::new(vec![
        0x01, 0x00, 0x00, 0xf0, 0x93, 0xf5, 0xe1, 0x43, 0x91, 0x70, 0xb9, 0x79, 0x48, 0xe8, 0x33,
        0x28, 0x5d, 0x58, 0x81, 0x81, 0xb6, 0x45, 0x50, 0xb8, 0x29, 0xa0, 0x31, 0xe1, 0x72, 0x4e,
        0x64, 0x30,
    ])
}

fn empty_expected() -> Vec<u8> {
    vec![
        // magic
        0x72, 0x31, 0x63, 0x73, //
        // version
        0x01, 0x00, 0x00, 0x00, //
        // section count
        0x03, 0x00, 0x00, 0x00, //
        // constraints section (empty)
        0x02, 0x00, 0x00, 0x00, 0x00, 0x00, 0x00, 0x00, 0x00, 0x00, 0x00, 0x00, //
        // header section
        0x01, 0x00, 0x00, 0x00, 0x40, 0x00, 0x00, 0x00, 0x00, 0x00, 0x00, 0x00, //
        // modulus size in bytes
        0x20, 0x00, 0x00, 0x00, //
        // modulus
        0x01, 0x00, 0x00, 0xf0, 0x93, 0xf5, 0xe1, 0x43, 0x91, 0x70, 0xb9, 0x79, 0x48, 0xe8, 0x33,
        0x28, 0x5d, 0x58, 0x81, 0x81, 0xb6, 0x45, 0x50, 0xb8, 0x29, 0xa0, 0x31, 0xe1, 0x72, 0x4e,
        0x64, 0x30, //
        // n wires
        0x01, 0x00, 0x00, 0x00, //
        // n public outputs
        0x00, 0x00, 0x00, 0x00, //
        // n public inputs
        0x00, 0x00, 0x00, 0x00, //
        // n private inputs
        0x00, 0x00, 0x00, 0x00, //
        // n labels
        0x01, 0x00, 0x00, 0x00, 0x00, 0x00, 0x00, 0x00, //
        // n constraints
        0x00, 0x00, 0x00, 0x00, //
        // wire-label section: the single wire 0
        0x03, 0x00, 0x00, 0x00, 0x08, 0x00, 0x00, 0x00, 0x00, 0x00, 0x00, 0x00, //
        0x00, 0x00, 0x00, 0x00, 0x00, 0x00, 0x00, 0x00,
    ]
}

fn return_one_prog() -> Prog {
    ProgIterator::new(
        vec![],
        vec![Statement::constraint(
            QuadComb::from_lincomb(LinComb::one()),
            LinComb::from_variable(Variable::public(0)),
        )],
        1,
    )
}

fn return_one_expected() -> Vec<u8> {
    vec![
        0x72, 0x31, 0x63, 0x73, //
        0x01, 0x00, 0x00, 0x00, //
        0x03, 0x00, 0x00, 0x00, //
        // constraints section: 1 constraint, size 3*4 + 3*(4+32) = 120
        0x02, 0x00, 0x00, 0x00, 0x78, 0x00, 0x00, 0x00, 0x00, 0x00, 0x00, 0x00, //
        // left: 1 term, wire 0, coefficient 1
        0x01, 0x00, 0x00, 0x00, //
        0x00, 0x00, 0x00, 0x00, //
        0x01, 0x00, 0x00, 0x00, 0x00, 0x00, 0x00, 0x00, 0x00, 0x00, 0x00, 0x00, 0x00, 0x00, 0x00,
        0x00, 0x00, 0x00, 0x00, 0x00, 0x00, 0x00, 0x00, 0x00, 0x00, 0x00, 0x00, 0x00, 0x00, 0x00,
        0x00, 0x00, //
        // right: 1 term, wire 0, coefficient 1
        0x01, 0x00, 0x00, 0x00, //
        0x00, 0x00, 0x00, 0x00, //
        0x01, 0x00, 0x00, 0x00, 0x00, 0x00, 0x00, 0x00, 0x00, 0x00, 0x00, 0x00, 0x00, 0x00, 0x00,
        0x00, 0x00, 0x00, 0x00, 0x00, 0x00, 0x00, 0x00, 0x00, 0x00, 0x00, 0x00, 0x00, 0x00, 0x00,
        0x00, 0x00, //
        // output: 1 term, wire 1, coefficient 1
        0x01, 0x00, 0x00, 0x00, //
        0x01, 0x00, 0x00, 0x00, //
        0x01, 0x00, 0x00, 0x00, 0x00, 0x00, 0x00, 0x00, 0x00, 0x00, 0x00, 0x00, 0x00, 0x00, 0x00,
        0x00, 0x00, 0x00, 0x00, 0x00, 0x00, 0x00, 0x00, 0x00, 0x00, 0x00, 0x00, 0x00, 0x00, 0x00,
        0x00, 0x00, //
        // header section
        0x01, 0x00, 0x00, 0x00, 0x40, 0x00, 0x00, 0x00, 0x00, 0x00, 0x00, 0x00, //
        0x20, 0x00, 0x00, 0x00, //
        0x01, 0x00, 0x00, 0xf0, 0x93, 0xf5, 0xe1, 0x43, 0x91, 0x70, 0xb9, 0x79, 0x48, 0xe8, 0x33,
        0x28, 0x5d, 0x58, 0x81, 0x81, 0xb6, 0x45, 0x50, 0xb8, 0x29, 0xa0, 0x31, 0xe1, 0x72, 0x4e,
        0x64, 0x30, //
        // n wires
        0x02, 0x00, 0x00, 0x00, //
        // n public outputs
        0x01, 0x00, 0x00, 0x00, //
        // n public inputs
        0x00, 0x00, 0x00, 0x00, //
        // n private inputs
        0x00, 0x00, 0x00, 0x00, //
        // n labels
        0x02, 0x00, 0x00, 0x00, 0x00, 0x00, 0x00, 0x00, //
        // n constraints
        0x01, 0x00, 0x00, 0x00, //
        // wire-label section: wires 0 and 1, ascending
        0x03, 0x00, 0x00, 0x00, 0x10, 0x00, 0x00, 0x00, 0x00, 0x00, 0x00, 0x00, //
        0x00, 0x00, 0x00, 0x00, 0x00, 0x00, 0x00, 0x00, //
        0x01, 0x00, 0x00, 0x00, 0x00, 0x00, 0x00, 0x00,
    ]
}

#[test]
fn empty() {
    let prog: Prog = Prog::default();
    let buf = write_r1cs(&prog, &bn128_field());
    assert_eq!(buf, empty_expected());
}

#[test]
fn return_one() {
    let buf = write_r1cs(&return_one_prog(), &bn128_field());
    assert_eq!(buf, return_one_expected());
}

#[test]
fn export_is_deterministic() {
    let a = write_r1cs(&return_one_prog(), &bn128_field());
    let b = write_r1cs(&return_one_prog(), &bn128_field());
    assert_eq!(a, b);
}

#[test]
fn non_constraints_contribute_nothing() {
    // Blocks, directives and logs are not traversed by the exporter, so a
    // program carrying them beside the one constraint exports byte for byte
    // as the one-constraint program does.
    let statements = vec![
        Statement::Block(vec![]),
        Statement::Directive(Directive {
            inputs: vec![QuadComb::from_lincomb(LinComb::from_variable(Variable::public(0)))],
            outputs: vec![Variable::new(7)],
            solver: Solver { name: String::from("bits") },
        }),
        Statement::constraint(
            QuadComb::from_lincomb(LinComb::one()),
            LinComb::from_variable(Variable::public(0)),
        ),
        Statement::Log(FormatString { text: String::from("value {}") }, vec![]),
    ];
    let prog: Prog = ProgIterator::new(vec![], statements, 1);
    let buf = write_r1cs(&prog, &bn128_field());
    assert_eq!(buf, return_one_expected());
}

#[test]
fn private_wires_are_shifted_past_public_section() {
    // One public argument, one return value: shift = 2, so the local wire 0
    // lands on wire 3 while the public wires keep 1 and 2.
    let statements = vec![Statement::constraint(
        QuadComb::from_linear_combinations(
            LinComb::from_variable(Variable::new(0)),
            LinComb::from_variable(Variable::public(1)),
        ),
        LinComb::from_variable(Variable::public(0)),
    )];
    let prog: Prog = ProgIterator::new(
        vec![Parameter::new(Variable::public(1), false)],
        statements,
        1,
    );
    let buf = write_r1cs(&prog, &bn128_field());
    // constraint section starts at offset 24; first term's wire id comes
    // after the 4-byte term count.
    assert_eq!(&buf[28..32], &[0x03, 0x00, 0x00, 0x00]);
    // n_wires = 4: wires 0, 1, 2, 3.
    let header_wires = 24 + 120 + 12 + 4 + 32;
    assert_eq!(&buf[header_wires..header_wires + 4], &[0x04, 0x00, 0x00, 0x00]);
    // the wire table lists 0, 1, 2, 3 ascending.
    let table = buf.len() - 32;
    assert_eq!(buf[table], 0);
    assert_eq!(buf[table + 8], 1);
    assert_eq!(buf[table + 16], 2);
    assert_eq!(buf[table + 24], 3);
}

#[test]
fn field_element_one_is_one_byte() {
    let one = FieldElement::one();
    assert_eq!(one.bytes_le, vec![1u8]);
}

#[test]
fn wire_set_counts_duplicates_once() {
    // The same wire referenced twice, an empty output combination, and no
    // public section: the wire table holds each referenced wire once, plus
    // the constant wire.
    let one = || FieldElement::from_bytes_le(vec![1]);
    let statements = vec![Statement::Constraint(
        QuadComb::from_linear_combinations(
            LinComb(vec![(Variable::new(0), one()), (Variable::new(0), one())]),
            LinComb(vec![(Variable::new(1), one())]),
        ),
        LinComb(vec![]),
        None,
    )];
    let prog: Prog = ProgIterator::new(vec![], statements, 0);
    let buf = write_r1cs(&prog, &bn128_field());
    // constraint-section size: (4 + 2*36) + (4 + 36) + 4 = 120.
    assert_eq!(&buf[16..24], &[120, 0, 0, 0, 0, 0, 0, 0]);
    // n_wires = 3: the constant wire plus the two locals.
    let header_wires = 24 + 120 + 12 + 4 + 32;
    assert_eq!(&buf[header_wires..header_wires + 4], &[3, 0, 0, 0]);
    // the table lists 0, 1, 2 ascending.
    let table = buf.len() - 24;
    assert_eq!(buf[table], 0);
    assert_eq!(buf[table + 8], 1);
    assert_eq!(buf[table + 16], 2);
}
