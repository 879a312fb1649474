//! The constraint language: equality constraints, directives, nested blocks
//! and diagnostic logs.

use vstd::prelude::*;

use crate::expression::{lincomb_equiv, lincomb_of_variable, quad_equiv, LinComb, QuadComb};
use crate::variable::Variable;

verus! {

/// A diagnostic tag attached to a constraint, surfaced only if that
/// constraint is later found unsatisfied during witness computation. It is
/// descriptive metadata: semantic equality of statements ignores it.
#[derive(Clone)]
pub struct RuntimeError {
    pub message: String,
}

/// An external solver capability, addressed by identifier. Only the
/// identifier and the input/output wiring are recorded; solvers are never
/// executed here.
#[derive(Clone)]
pub struct Solver {
    pub name: String,
}

/// The format string of a `Log` statement.
#[derive(Clone)]
pub struct FormatString {
    pub text: String,
}

/// A front-end value type attached to logged expressions; carried through,
/// otherwise uninterpreted here.
#[derive(Clone)]
pub struct ConcreteType {
    pub name: String,
}

/// A non-algebraic hint: evaluate each input combination under the current
/// witness, invoke the external solver by name, and assign its results to
/// the output wires.
#[derive(Clone)]
pub struct Directive {
    pub inputs: Vec<QuadComb>,
    pub outputs: Vec<Variable>,
    pub solver: Solver,
}

/// One statement of a program.
pub enum Statement {
    /// A nested grouping of statements; a structural container only, assumed
    /// to have been flattened by an upstream pass before export.
    Block(Vec<Statement>),
    /// Asserts that a quadratic combination equals a linear combination; the
    /// optional tag is diagnostic only.
    Constraint(QuadComb, LinComb, Option<RuntimeError>),
    /// A non-algebraic computation delegated to an external solver.
    Directive(Directive),
    /// Formatted diagnostic output from evaluated linear combinations;
    /// carries no constraint semantics.
    Log(FormatString, Vec<(ConcreteType, Vec<LinComb>)>),
}

impl Statement {
    /// The constraint `e == 1 * v`, defining the wire `v` by a computed
    /// quadratic expression; no diagnostic tag is attached.
    pub fn definition(v: Variable, e: QuadComb) -> (s: Statement)
        ensures
            ({
                &&& s matches Statement::Constraint(q, l, err)
                &&& q == e
                &&& lincomb_of_variable(l, v)
                &&& err is None
            }),
    {
        Statement::Constraint(e, LinComb::from_variable(v), None)
    }

    /// The general constraint `quad == lin`, with no diagnostic tag.
    pub fn constraint(quad: QuadComb, lin: LinComb) -> (s: Statement)
        ensures
            s == Statement::Constraint(quad, lin, None::<RuntimeError>),
    {
        Statement::Constraint(quad, lin, None)
    }
}

} // verus!

verus! {

broadcast use {vstd::seq::axiom_seq_index_decreases, vstd::std_specs::vec::axiom_vec_decreases_to_view};

/// Semantic equality of directives: same wiring, same solver identifier.
pub open spec fn directive_equiv(a: Directive, b: Directive) -> bool {
    &&& a.inputs@.len() == b.inputs@.len()
    &&& forall|i: int| 0 <= i < a.inputs@.len() ==> quad_equiv(#[trigger] a.inputs@[i], b.inputs@[i])
    &&& a.outputs@ == b.outputs@
    &&& a.solver.name@ == b.solver.name@
}

/// Semantic equality of one logged argument.
pub open spec fn log_arg_equiv(
    a: (ConcreteType, Vec<LinComb>),
    b: (ConcreteType, Vec<LinComb>),
) -> bool {
    &&& a.0.name@ == b.0.name@
    &&& a.1@.len() == b.1@.len()
    &&& forall|i: int| 0 <= i < a.1@.len() ==> lincomb_equiv(#[trigger] a.1@[i], b.1@[i])
}

/// Semantic equality of statements: structural on the algebraic content,
/// with the diagnostic tag of a constraint deliberately excluded.
pub open spec fn stmt_equiv(a: Statement, b: Statement) -> bool
    decreases a,
{
    match (a, b) {
        (Statement::Block(x), Statement::Block(y)) => x@.len() == y@.len() && (forall|i: int|
            0 <= i < x@.len() ==> stmt_equiv(#[trigger] x@[i], y@[i])),
        (Statement::Constraint(qa, la, _), Statement::Constraint(qb, lb, _)) => quad_equiv(qa, qb)
            && lincomb_equiv(la, lb),
        (Statement::Directive(da), Statement::Directive(db)) => directive_equiv(da, db),
        (Statement::Log(fa, aa), Statement::Log(fb, ab)) => fa.text@ == fb.text@ && aa@.len()
            == ab@.len() && (forall|i: int| 0 <= i < aa@.len() ==> log_arg_equiv(
            #[trigger] aa@[i],
            ab@[i],
        )),
        _ => false,
    }
}

impl Directive {
    /// Whether two directives wire the same combinations to the same
    /// outputs through the same solver.
    pub fn equivalent(&self, other: &Directive) -> (r: bool)
        ensures
            r == directive_equiv(*self, *other),
    {
        if self.outputs.len() != other.outputs.len() {
            return false;
        }
        let n_out = self.outputs.len();
        let mut i: usize = 0;
        while i < n_out
            invariant
                n_out == self.outputs@.len(),
                n_out == other.outputs@.len(),
                i <= n_out,
                forall|j: int| 0 <= j < i ==> self.outputs@[j] == other.outputs@[j],
            decreases n_out - i,
        {
            if self.outputs[i] != other.outputs[i] {
                return false;
            }
            i = i + 1;
        }
        proof {
            assert(self.outputs@ =~= other.outputs@);
        }
        if !(self.solver.name == other.solver.name) {
            return false;
        }
        if self.inputs.len() != other.inputs.len() {
            return false;
        }
        let n = self.inputs.len();
        let mut k: usize = 0;
        while k < n
            invariant
                n == self.inputs@.len(),
                n == other.inputs@.len(),
                k <= n,
                forall|j: int| 0 <= j < k ==> quad_equiv(#[trigger] self.inputs@[j], other.inputs@[j]),
            decreases n - k,
        {
            if !self.inputs[k].equivalent(&other.inputs[k]) {
                return false;
            }
            k = k + 1;
        }
        true
    }
}

fn log_arg_equivalent(a: &(ConcreteType, Vec<LinComb>), b: &(ConcreteType, Vec<LinComb>)) -> (r:
    bool)
    ensures
        r == log_arg_equiv(*a, *b),
{
    if !(a.0.name == b.0.name) {
        return false;
    }
    if a.1.len() != b.1.len() {
        return false;
    }
    let n = a.1.len();
    let mut i: usize = 0;
    while i < n
        invariant
            n == a.1@.len(),
            n == b.1@.len(),
            i <= n,
            forall|j: int| 0 <= j < i ==> lincomb_equiv(#[trigger] a.1@[j], b.1@[j]),
        decreases n - i,
    {
        if !a.1[i].equivalent(&b.1[i]) {
            return false;
        }
        i = i + 1;
    }
    true
}

impl Statement {
    /// Whether two statements agree on their algebraic content. Equality of
    /// constraints deliberately ignores the diagnostic tag: it is metadata,
    /// not meaning.
    #[verifier::loop_isolation(false)]
    pub fn equivalent(&self, other: &Statement) -> (r: bool)
        ensures
            r == stmt_equiv(*self, *other),
        decreases *self,
    {
        match (self, other) {
            (Statement::Block(x), Statement::Block(y)) => {
                if x.len() != y.len() {
                    return false;
                }
                let n = x.len();
                let mut i: usize = 0;
                while i < n
                    invariant
                        i <= n,
                        forall|j: int| 0 <= j < i ==> stmt_equiv(#[trigger] x@[j], y@[j]),
                    decreases n - i,
                {
                    if !x[i].equivalent(&y[i]) {
                        return false;
                    }
                    i = i + 1;
                }
                true
            },
            (Statement::Constraint(qa, la, _), Statement::Constraint(qb, lb, _)) => qa.equivalent(
                qb,
            ) && la.equivalent(lb),
            (Statement::Directive(da), Statement::Directive(db)) => da.equivalent(db),
            (Statement::Log(fa, aa), Statement::Log(fb, ab)) => {
                if !(fa.text == fb.text) {
                    return false;
                }
                if aa.len() != ab.len() {
                    return false;
                }
                let n = aa.len();
                let mut i: usize = 0;
                while i < n
                    invariant
                        i <= n,
                        forall|j: int| 0 <= j < i ==> log_arg_equiv(#[trigger] aa@[j], ab@[j]),
                    decreases n - i,
                {
                    if !log_arg_equivalent(&aa[i], &ab[i]) {
                        return false;
                    }
                    i = i + 1;
                }
                true
            },
            _ => false,
        }
    }
}

} // verus!
