//! Sparse polynomial terms over wires: linear and quadratic combinations.

use vstd::prelude::*;

use crate::field::FieldElement;
use crate::variable::Variable;

verus! {

/// A sparse linear combination: an ordered list of `(wire, coefficient)`
/// terms, standing for the weighted sum of the wire values. The same wire
/// may appear in several terms before canonicalization.
#[derive(Clone)]
pub struct LinComb(pub Vec<(Variable, FieldElement)>);

/// Whether `l` is the single term `1 * v`.
pub open spec fn lincomb_of_variable(l: LinComb, v: Variable) -> bool {
    &&& l.0@.len() == 1
    &&& l.0@[0].0 == v
    &&& l.0@[0].1.bytes_le@ == seq![1u8]
}

impl LinComb {
    /// The combination holding the single term `1 * v`.
    pub fn from_variable(v: Variable) -> (r: LinComb)
        ensures
            lincomb_of_variable(r, v),
    {
        let mut terms: Vec<(Variable, FieldElement)> = Vec::new();
        terms.push((v, FieldElement::one()));
        LinComb(terms)
    }

    /// The combination `1 * ~one`, whose value is always one.
    pub fn one() -> (r: LinComb)
        ensures
            lincomb_of_variable(r, Variable::One),
    {
        LinComb::from_variable(Variable::One)
    }
}

/// A quadratic combination: the product of two linear combinations.
#[derive(Clone)]
pub struct QuadComb {
    pub left: LinComb,
    pub right: LinComb,
}

impl QuadComb {
    pub fn from_linear_combinations(left: LinComb, right: LinComb) -> (r: QuadComb)
        ensures
            r.left == left,
            r.right == right,
    {
        QuadComb { left, right }
    }

    /// Lift a linear combination to a quadratic one by multiplying it with
    /// the constant-one combination.
    pub fn from_lincomb(lin: LinComb) -> (r: QuadComb)
        ensures
            lincomb_of_variable(r.left, Variable::One),
            r.right == lin,
    {
        QuadComb { left: LinComb::one(), right: lin }
    }
}

} // verus!

verus! {

/// Semantic equality of terms: same wire, same coefficient encoding.
pub open spec fn term_equiv(a: (Variable, FieldElement), b: (Variable, FieldElement)) -> bool {
    a.0 == b.0 && a.1.bytes_le@ == b.1.bytes_le@
}

/// Semantic equality of linear combinations: the same terms in the same
/// order.
pub open spec fn lincomb_equiv(a: LinComb, b: LinComb) -> bool {
    &&& a.0@.len() == b.0@.len()
    &&& forall|i: int| 0 <= i < a.0@.len() ==> term_equiv(#[trigger] a.0@[i], b.0@[i])
}

/// Semantic equality of quadratic combinations: both factors equal.
pub open spec fn quad_equiv(a: QuadComb, b: QuadComb) -> bool {
    lincomb_equiv(a.left, b.left) && lincomb_equiv(a.right, b.right)
}

impl FieldElement {
    /// Whether two elements have the same canonical encoding.
    pub fn same_encoding(&self, other: &FieldElement) -> (r: bool)
        ensures
            r == (self.bytes_le@ == other.bytes_le@),
    {
        let n = self.bytes_le.len();
        if n != other.bytes_le.len() {
            return false;
        }
        let mut i: usize = 0;
        while i < n
            invariant
                n == self.bytes_le@.len(),
                n == other.bytes_le@.len(),
                i <= n,
                forall|j: int| 0 <= j < i ==> self.bytes_le@[j] == other.bytes_le@[j],
            decreases n - i,
        {
            if self.bytes_le[i] != other.bytes_le[i] {
                return false;
            }
            i = i + 1;
        }
        proof {
            assert(self.bytes_le@ =~= other.bytes_le@);
        }
        true
    }
}

impl LinComb {
    /// Whether two combinations hold the same terms in the same order.
    pub fn equivalent(&self, other: &LinComb) -> (r: bool)
        ensures
            r == lincomb_equiv(*self, *other),
    {
        let n = self.0.len();
        if n != other.0.len() {
            return false;
        }
        let mut i: usize = 0;
        while i < n
            invariant
                n == self.0@.len(),
                n == other.0@.len(),
                i <= n,
                forall|j: int| 0 <= j < i ==> term_equiv(#[trigger] self.0@[j], other.0@[j]),
            decreases n - i,
        {
            if self.0[i].0 != other.0[i].0 {
                return false;
            }
            if !self.0[i].1.same_encoding(&other.0[i].1) {
                return false;
            }
            i = i + 1;
        }
        true
    }
}

impl QuadComb {
    /// Whether two products have equal factors.
    pub fn equivalent(&self, other: &QuadComb) -> (r: bool)
        ensures
            r == quad_equiv(*self, *other),
    {
        self.left.equivalent(&other.left) && self.right.equivalent(&other.right)
    }
}

} // verus!
