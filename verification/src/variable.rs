//! Circuit wires and program arguments.
//!
//! A wire identifier falls in one of three disjoint classes: the reserved
//! constant-one wire, the public wires (return values first, then public
//! arguments), and the private or intermediate wires. The exporter maps this
//! identifier space onto a flat `0..n_wires` wire space; `shifted_wire` is
//! that mapping and `wire_fits` its soundness condition.

use vstd::prelude::*;

verus! {

/// A circuit wire identifier.
#[derive(Clone, Copy, PartialEq, Eq, Structural, Debug)]
pub enum Variable {
    /// The reserved constant-one wire, always present.
    One,
    /// The `k`-th public wire (0-based): return values occupy the first
    /// `return_count` indices, followed by the public arguments in argument
    /// order.
    Public(usize),
    /// The `k`-th private or intermediate wire (0-based), numbered
    /// independently of the public section.
    Local(usize),
}

impl Variable {
    /// The `id`-th private or intermediate wire.
    pub fn new(id: usize) -> (v: Variable)
        ensures
            v == Variable::Local(id),
    {
        Variable::Local(id)
    }

    /// The `id`-th public wire.
    pub fn public(id: usize) -> (v: Variable)
        ensures
            v == Variable::Public(id),
    {
        Variable::Public(id)
    }

    /// The constant-one wire.
    pub fn one() -> (v: Variable)
        ensures
            v == Variable::One,
    {
        Variable::One
    }
}

/// The flat wire id of `v` after renumbering with a public section of width
/// `shift`: the constant wire keeps id 0, the `k`-th public wire gets id
/// `k + 1`, and the `k`-th local wire is placed after the public section at
/// `k + 1 + shift`.
pub open spec fn shifted_wire(v: Variable, shift: int) -> int {
    match v {
        Variable::One => 0,
        Variable::Public(k) => k + 1,
        Variable::Local(k) => k + 1 + shift,
    }
}

/// Soundness of the renumbering of `v`: a public wire must lie inside the
/// public section, and a local wire must not leave the 32-bit wire space.
pub open spec fn wire_fits(v: Variable, shift: int) -> bool {
    match v {
        Variable::One => true,
        Variable::Public(k) => k + 1 <= shift,
        Variable::Local(k) => k + 1 + shift <= u32::MAX,
    }
}

/// Renumber `v` onto the flat wire space.
pub fn shift_variable(v: &Variable, shift: u32) -> (w: u32)
    requires
        wire_fits(*v, shift as int),
    ensures
        w as int == shifted_wire(*v, shift as int),
{
    match v {
        Variable::One => 0u32,
        Variable::Public(k) => (*k as u32) + 1,
        Variable::Local(k) => (*k as u32) + 1 + shift,
    }
}

/// Shift injectivity: distinct wire identifiers never collide after
/// renumbering, since the public ids fill `1..=shift` and the local ids
/// start past them at `shift + 1`.
pub proof fn lemma_shift_injective(a: Variable, b: Variable, shift: int)
    requires
        0 <= shift,
        wire_fits(a, shift),
        wire_fits(b, shift),
        a != b,
    ensures
        shifted_wire(a, shift) != shifted_wire(b, shift),
{
}

/// One program argument: a wire and whether it is hidden from the public
/// interface.
#[derive(Clone, Copy, PartialEq, Eq, Structural, Debug)]
pub struct Parameter {
    pub id: Variable,
    pub private: bool,
}

impl Parameter {
    pub fn new(id: Variable, private: bool) -> (p: Parameter)
        ensures
            p.id == id,
            p.private == private,
    {
        Parameter { id, private }
    }
}

} // verus!

verus! {

/// The signed identifier of a wire: public wires carry the negated 1-based
/// index into the public section, the constant wire carries 0, and local
/// wires carry their 1-based index. It is injective, and it orders wires the
/// way the identifier space does: public wires first (highest index first),
/// then the constant wire, then the local wires.
pub open spec fn variable_id(v: Variable) -> int {
    match v {
        Variable::One => 0,
        Variable::Public(k) => -(k + 1),
        Variable::Local(k) => k + 1,
    }
}

/// Distinct wires have distinct signed identifiers.
pub proof fn lemma_variable_id_injective(a: Variable, b: Variable)
    requires
        variable_id(a) == variable_id(b),
    ensures
        a == b,
{
}

/// Whether `a` comes before `b` in ascending identifier order.
pub fn id_before(a: &Variable, b: &Variable) -> (r: bool)
    ensures
        r == (variable_id(*a) < variable_id(*b)),
{
    match (a, b) {
        (Variable::Public(k1), Variable::Public(k2)) => *k2 < *k1,
        (Variable::Public(_), _) => true,
        (Variable::One, Variable::Local(_)) => true,
        (Variable::One, _) => false,
        (Variable::Local(k1), Variable::Local(k2)) => *k1 < *k2,
        (Variable::Local(_), _) => false,
    }
}

} // verus!
