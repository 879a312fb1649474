use zkir::expression::{LinComb, QuadComb};
use zkir::field::FieldElement;
use zkir::prog::{Prog, ProgIterator};
use zkir::render::u64_to_decimal;
use zkir::statement::{
    ConcreteType, Directive, FormatString, RuntimeError, Solver, Statement,
};
use zkir::variable::{Parameter, Variable};

#[test]
fn print_constraint() {
    let c = Statement::Constraint(
        QuadComb::from_linear_combinations(
            LinComb::from_variable(Variable::new(42)),
            LinComb::from_variable(Variable::new(42)),
        ),
        LinComb::from_variable(Variable::new(42)),
        None,
    );
    assert_eq!(c.render(), "(1 * _42) * (1 * _42) == 1 * _42");
}

#[test]
fn decimal_rendering() {
    assert_eq!(u64_to_decimal(0), "0");
    assert_eq!(u64_to_decimal(7), "7");
    assert_eq!(u64_to_decimal(1337), "1337");
    assert_eq!(u64_to_decimal(1000000), "1000000");
    // 0x0539 little-endian = 1337
    let f = FieldElement::from_bytes_le(vec![0x39, 0x05]);
    assert_eq!(f.to_decimal_string(), "1337");
    let zero = FieldElement::from_bytes_le(vec![0, 0, 0]);
    assert_eq!(zero.to_decimal_string(), "0");
}

#[test]
fn variable_rendering() {
    assert_eq!(Variable::one().render(), "~one");
    assert_eq!(Variable::public(3).render(), "~out_3");
    assert_eq!(Variable::new(12).render(), "_12");
    assert_eq!(Parameter::new(Variable::new(1), true).render(), "private _1");
    assert_eq!(Parameter::new(Variable::new(1), false).render(), "_1");
}

#[test]
fn constraint_with_tag_renders_comment() {
    let c = Statement::Constraint(
        QuadComb::from_lincomb(LinComb::one()),
        LinComb::from_variable(Variable::new(0)),
        Some(RuntimeError { message: String::from("division by zero") }),
    );
    assert_eq!(c.render(), "(1 * ~one) * (1 * ~one) == 1 * _0 // division by zero");
}

#[test]
fn directive_rendering() {
    let d = Directive {
        inputs: vec![QuadComb::from_lincomb(LinComb::from_variable(Variable::new(0)))],
        outputs: vec![Variable::new(1), Variable::new(2)],
        solver: Solver { name: String::from("bits") },
    };
    assert_eq!(
        Statement::Directive(d).render(),
        "# _1, _2 = bits((1 * ~one) * (1 * _0))"
    );
}

#[test]
fn block_and_log_rendering() {
    let inner = Statement::Constraint(
        QuadComb::from_lincomb(LinComb::one()),
        LinComb::one(),
        None,
    );
    let b = Statement::Block(vec![inner]);
    assert_eq!(b.render(), "{\n(1 * ~one) * (1 * ~one) == 1 * ~one\n}");
    let log = Statement::Log(
        FormatString { text: String::from("x is {}") },
        vec![(
            ConcreteType { name: String::from("field") },
            vec![LinComb::from_variable(Variable::new(5))],
        )],
    );
    assert_eq!(log.render(), "log(\"x is {}\", [1 * _5])");
}

#[test]
fn empty_lincomb_renders_zero() {
    let l = LinComb(vec![]);
    assert_eq!(l.render(), "0");
}

#[test]
fn prog_rendering() {
    let prog: Prog = ProgIterator::new(
        vec![Parameter::new(Variable::new(0), true)],
        vec![Statement::constraint(
            QuadComb::from_lincomb(LinComb::from_variable(Variable::new(0))),
            LinComb::from_variable(Variable::public(0)),
        )],
        1,
    );
    assert_eq!(
        prog.render(),
        "def main(private _0) -> (~out_0) {\n\t(1 * ~one) * (1 * _0) == 1 * ~out_0\n\treturn ~out_0\n}\n"
    );
}

#[test]
fn equality_ignores_diagnostic_tag() {
    let quad = || QuadComb::from_lincomb(LinComb::from_variable(Variable::new(3)));
    let lin = || LinComb::from_variable(Variable::new(4));
    let a = Statement::Constraint(quad(), lin(), None);
    let b = Statement::Constraint(
        quad(),
        lin(),
        Some(RuntimeError { message: String::from("unsatisfied") }),
    );
    assert!(a.equivalent(&b));
    assert!(b.equivalent(&a));
    let c = Statement::Constraint(quad(), LinComb::from_variable(Variable::new(5)), None);
    assert!(!a.equivalent(&c));
}

#[test]
fn equality_is_structural_elsewhere() {
    let one = || FieldElement::from_bytes_le(vec![1]);
    let two = || FieldElement::from_bytes_le(vec![2]);
    let la = LinComb(vec![(Variable::new(1), one())]);
    let lb = LinComb(vec![(Variable::new(1), one())]);
    let lc = LinComb(vec![(Variable::new(1), two())]);
    assert!(la.equivalent(&lb));
    assert!(!la.equivalent(&lc));
    let block_a = Statement::Block(vec![Statement::Constraint(
        QuadComb::from_lincomb(la), lb, None,
    )]);
    let block_b = Statement::Block(vec![Statement::Constraint(
        QuadComb::from_lincomb(LinComb(vec![(Variable::new(1), one())])),
        LinComb(vec![(Variable::new(1), one())]),
        Some(RuntimeError { message: String::from("tag") }),
    )]);
    assert!(block_a.equivalent(&block_b));
    let d1 = Statement::Directive(Directive {
        inputs: vec![],
        outputs: vec![Variable::new(1)],
        solver: Solver { name: String::from("a") },
    });
    let d2 = Statement::Directive(Directive {
        inputs: vec![],
        outputs: vec![Variable::new(1)],
        solver: Solver { name: String::from("b") },
    });
    assert!(!d1.equivalent(&d2));
}
