//! A solved assignment from wires to field values, populated by an external
//! constraint solver and consulted here only to extract the public-facing
//! value vector.

use vstd::prelude::*;

use crate::field::FieldElement;
use crate::variable::Variable;

verus! {

/// First-match lookup in an association list of wire assignments.
pub open spec fn spec_lookup(
    entries: Seq<(Variable, FieldElement)>,
    v: Variable,
) -> Option<FieldElement>
    decreases entries.len(),
{
    if entries.len() == 0 {
        None
    } else if entries[0].0 == v {
        Some(entries[0].1)
    } else {
        spec_lookup(entries.drop_first(), v)
    }
}

/// A witness: a mapping from wires to field values, held as an association
/// list in which the most recently inserted binding of a wire comes first.
pub struct Witness(pub Vec<(Variable, FieldElement)>);

impl Witness {
    /// The value assigned to `v`, if any.
    pub open spec fn spec_get(self, v: Variable) -> Option<FieldElement> {
        spec_lookup(self.0@, v)
    }

    pub fn new() -> (w: Witness)
        ensures
            w.0@.len() == 0,
    {
        Witness(Vec::new())
    }

    /// Bind `v` to `value`, shadowing any earlier binding.
    pub fn insert(&mut self, v: Variable, value: FieldElement)
        ensures
            final(self).spec_get(v) == Some(value),
            forall|u: Variable| u != v ==> final(self).spec_get(u) == old(self).spec_get(u),
    {
        self.0.insert(0, (v, value));
        proof {
            assert(self.0@.drop_first() =~= old(self).0@);
        }
    }

    /// Look the wire `v` up.
    pub fn get(&self, v: &Variable) -> (r: Option<&FieldElement>)
        ensures
            match r {
                Some(f) => self.spec_get(*v) == Some(*f),
                None => self.spec_get(*v) is None,
            },
    {
        let n = self.0.len();
        let mut i: usize = 0;
        proof {
            assert(self.0@.skip(0) =~= self.0@);
        }
        while i < n
            invariant
                n == self.0@.len(),
                i <= n,
                spec_lookup(self.0@, *v) == spec_lookup(self.0@.skip(i as int), *v),
            decreases n - i,
        {
            proof {
                assert(self.0@.skip(i as int)[0] == self.0@[i as int]);
                assert(self.0@.skip(i as int).drop_first() =~= self.0@.skip(i + 1));
            }
            if self.0[i].0 == *v {
                return Some(&self.0[i].1);
            }
            i = i + 1;
        }
        proof {
            assert(self.0@.skip(n as int) =~= Seq::<(Variable, FieldElement)>::empty());
        }
        None
    }
}

} // verus!
