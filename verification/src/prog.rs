//! The program container: an ordered statement sequence plus argument and
//! return metadata, with the derived public input/output views.

use vstd::prelude::*;

use crate::field::FieldElement;
use crate::statement::Statement;
use crate::variable::{lemma_variable_id_injective, variable_id, id_before, Parameter, Variable};
use crate::witness::{spec_lookup, Witness};

verus! {

/// A source of statements: a finite sequence that can be materialized. The
/// program container is generic over it, so that a program can hold either a
/// fully materialized statement list or one produced by another container;
/// the exporter's two passes need a materialized list.
pub trait StatementSource: Sized {
    /// The statements the source holds, in order.
    spec fn stmts(&self) -> Seq<Statement>;

    /// Materialize the source.
    fn into_statements(self) -> (v: Vec<Statement>)
        ensures
            v@ == self.stmts(),
    ;
}

impl StatementSource for Vec<Statement> {
    open spec fn stmts(&self) -> Seq<Statement> {
        self@
    }

    fn into_statements(self) -> (v: Vec<Statement>) {
        self
    }
}

/// How many arguments are public (not private).
pub open spec fn count_public_inputs(args: Seq<Parameter>) -> nat
    decreases args.len(),
{
    if args.len() == 0 {
        0
    } else if args.last().private {
        count_public_inputs(args.drop_last())
    } else {
        count_public_inputs(args.drop_last()) + 1
    }
}

/// How many arguments are private.
pub open spec fn count_private_inputs(args: Seq<Parameter>) -> nat
    decreases args.len(),
{
    if args.len() == 0 {
        0
    } else if args.last().private {
        count_private_inputs(args.drop_last()) + 1
    } else {
        count_private_inputs(args.drop_last())
    }
}

/// The return-value wires of a program with `return_count` returns: the
/// first `return_count` public wires.
pub open spec fn return_variables(return_count: nat) -> Seq<Variable> {
    Seq::new(return_count, |k: int| Variable::Public(k as usize))
}

/// The encodings of a vector of field elements.
pub open spec fn field_views(s: Seq<FieldElement>) -> Seq<Seq<u8>> {
    s.map_values(|f: FieldElement| f@)
}

/// The witness values of the public arguments, in argument order, as
/// canonical encodings.
pub open spec fn argument_values(
    args: Seq<Parameter>,
    w: Seq<(Variable, FieldElement)>,
) -> Seq<Seq<u8>>
    decreases args.len(),
{
    if args.len() == 0 {
        Seq::empty()
    } else if args.last().private {
        argument_values(args.drop_last(), w)
    } else {
        argument_values(args.drop_last(), w).push(spec_lookup(w, args.last().id)->Some_0@)
    }
}

/// The witness values of the return wires, in return order, as canonical
/// encodings.
pub open spec fn return_values(
    return_count: nat,
    w: Seq<(Variable, FieldElement)>,
) -> Seq<Seq<u8>> {
    Seq::new(return_count, |k: int| spec_lookup(w, Variable::Public(k as usize))->Some_0@)
}

/// How many statements are equality constraints, at the top level only:
/// directives, logs and blocks are not constraints.
pub open spec fn count_constraints(stmts: Seq<Statement>) -> nat
    decreases stmts.len(),
{
    if stmts.len() == 0 {
        0
    } else if stmts.last() is Constraint {
        count_constraints(stmts.drop_last()) + 1
    } else {
        count_constraints(stmts.drop_last())
    }
}

/// The set of public argument wires: duplicate-free, ascending by wire
/// identifier.
pub type PublicInputs = Vec<Variable>;

/// An ordered statement sequence plus argument and return metadata, generic
/// over the statement container.
pub struct ProgIterator<S> {
    pub arguments: Vec<Parameter>,
    pub return_count: usize,
    pub statements: S,
}

/// A fully materialized program.
pub type Prog = ProgIterator<Vec<Statement>>;

impl<S> ProgIterator<S> {
    pub fn new(arguments: Vec<Parameter>, statements: S, return_count: usize) -> (r:
        ProgIterator<S>)
        ensures
            r.arguments@ == arguments@,
            r.return_count == return_count,
            r.statements == statements,
    {
        ProgIterator { arguments, return_count, statements }
    }

    /// The return-value wires, as public ids in return order.
    pub fn return_wires(&self) -> (r: Vec<Variable>)
        ensures
            r@ == return_variables(self.return_count as nat),
    {
        let mut r: Vec<Variable> = Vec::new();
        let mut k: usize = 0;
        while k < self.return_count
            invariant
                k <= self.return_count,
                r@ == return_variables(k as nat),
            decreases self.return_count - k,
        {
            r.push(Variable::public(k));
            k = k + 1;
            proof {
                assert(r@ =~= return_variables(k as nat));
            }
        }
        r
    }

    /// How many wires are publicly visible: the public arguments and the
    /// return values.
    pub fn public_count(&self) -> (r: usize)
        requires
            count_public_inputs(self.arguments@) + self.return_count <= usize::MAX,
        ensures
            r == count_public_inputs(self.arguments@) + self.return_count,
    {
        count_public_arguments(&self.arguments) + self.return_count
    }

    /// How many arguments are private.
    pub fn private_input_count(&self) -> (r: usize)
        ensures
            r == count_private_inputs(self.arguments@),
    {
        let n = self.arguments.len();
        let mut count: usize = 0;
        let mut i: usize = 0;
        while i < n
            invariant
                n == self.arguments@.len(),
                i <= n,
                count <= i,
                count == count_private_inputs(self.arguments@.take(i as int)),
            decreases n - i,
        {
            proof {
                assert(self.arguments@.take(i + 1).drop_last() =~= self.arguments@.take(
                    i as int,
                ));
            }
            if self.arguments[i].private {
                count = count + 1;
            }
            i = i + 1;
        }
        proof {
            assert(self.arguments@.take(n as int) =~= self.arguments@);
        }
        count
    }

    /// The set of public argument wires: each wire some non-private argument
    /// declares, exactly once, ascending by wire identifier.
    pub fn public_inputs(&self) -> (r: PublicInputs)
        ensures
            forall|v: Variable|
                r@.contains(v) <==> (exists|i: int|
                    0 <= i < self.arguments@.len() && !(#[trigger] self.arguments@[i]).private
                        && self.arguments@[i].id == v),
            sorted_by_id(r@),
            r@.no_duplicates(),
    {
        let n = self.arguments.len();
        let mut r: Vec<Variable> = Vec::new();
        let mut i: usize = 0;
        proof {
            assert(self.arguments@.skip(0) =~= self.arguments@);
        }
        while i < n
            invariant
                n == self.arguments@.len(),
                i <= n,
                insert_public_ids(r@, self.arguments@.skip(i as int)) == insert_public_ids(
                    Seq::empty(),
                    self.arguments@,
                ),
            decreases n - i,
        {
            proof {
                assert(self.arguments@.skip(i as int)[0] == self.arguments@[i as int]);
                assert(self.arguments@.skip(i as int).drop_first() =~= self.arguments@.skip(
                    i + 1,
                ));
            }
            if !self.arguments[i].private {
                insert_public_wire(&mut r, self.arguments[i].id);
            }
            i = i + 1;
        }
        proof {
            assert(self.arguments@.skip(n as int) =~= Seq::<Parameter>::empty());
            assert(insert_public_ids(r@, self.arguments@.skip(n as int)) == r@);
            assert(r@ == insert_public_ids(Seq::empty(), self.arguments@));
            lemma_insert_public_ids(Seq::empty(), self.arguments@);
            assert forall|v: Variable|
                r@.contains(v) <==> (exists|i: int|
                    0 <= i < self.arguments@.len() && !(#[trigger] self.arguments@[i]).private
                        && self.arguments@[i].id == v) by {
                assert(insert_public_ids(Seq::empty(), self.arguments@).contains(v) <==> (
                Seq::<Variable>::empty().contains(v) || (exists|i: int|
                    0 <= i < self.arguments@.len() && !(#[trigger] self.arguments@[i]).private
                        && self.arguments@[i].id == v)));
                if Seq::<Variable>::empty().contains(v) {
                    let i = choose|i: int|
                        0 <= i < Seq::<Variable>::empty().len() && Seq::<Variable>::empty()[i]
                            == v;
                }
            }
            assert forall|a: int, b: int|
                0 <= a < r@.len() && 0 <= b < r@.len() && a != b implies r@[a] != r@[b] by {
                if a < b {
                    assert(variable_id(r@[a]) < variable_id(r@[b]));
                } else {
                    assert(variable_id(r@[b]) < variable_id(r@[a]));
                }
            }
        }
        r
    }

    /// The externally visible value vector: each public argument's value in
    /// argument order, followed by each return wire's value in return order.
    /// Every such wire must have been assigned by the solver; a missing
    /// assignment is an internal-consistency defect of the upstream stages,
    /// which this precondition excludes.
    pub fn public_inputs_values(&self, witness: &Witness) -> (r: Vec<FieldElement>)
        requires
            forall|i: int|
                0 <= i < self.arguments@.len() && !self.arguments@[i].private
                    ==> spec_lookup(witness.0@, self.arguments@[i].id) is Some,
            forall|k: int|
                0 <= k < self.return_count ==> #[trigger] spec_lookup(
                    witness.0@,
                    Variable::Public(k as usize),
                ) is Some,
        ensures
            field_views(r@) == argument_values(self.arguments@, witness.0@) + return_values(
                self.return_count as nat,
                witness.0@,
            ),
    {
        let n = self.arguments.len();
        let mut r: Vec<FieldElement> = Vec::new();
        let mut i: usize = 0;
        while i < n
            invariant
                n == self.arguments@.len(),
                i <= n,
                field_views(r@) == argument_values(self.arguments@.take(i as int), witness.0@),
                forall|j: int|
                    0 <= j < self.arguments@.len() && !self.arguments@[j].private
                        ==> spec_lookup(witness.0@, self.arguments@[j].id) is Some,
            decreases n - i,
        {
            proof {
                assert(self.arguments@.take(i + 1).drop_last() =~= self.arguments@.take(
                    i as int,
                ));
            }
            if !self.arguments[i].private {
                match witness.get(&self.arguments[i].id) {
                    Some(f) => {
                        let d = f.duplicate();
                        r.push(d);
                        proof {
                            assert(field_views(r@) =~= argument_values(
                                self.arguments@.take(i + 1),
                                witness.0@,
                            ));
                        }
                    },
                    None => {
                        proof {
                            assert(false);
                        }
                    },
                }
            }
            i = i + 1;
        }
        proof {
            assert(self.arguments@.take(n as int) =~= self.arguments@);
        }
        let mut k: usize = 0;
        while k < self.return_count
            invariant
                field_views(r@) == argument_values(self.arguments@, witness.0@) + return_values(
                    k as nat,
                    witness.0@,
                ),
                k <= self.return_count,
                forall|j: int|
                    0 <= j < self.return_count ==> #[trigger] spec_lookup(
                        witness.0@,
                        Variable::Public(j as usize),
                    ) is Some,
            decreases self.return_count - k,
        {
            proof {
                assert(spec_lookup(witness.0@, Variable::Public(k as usize)) is Some);
            }
            let ghost prev = r@;
            match witness.get(&Variable::public(k)) {
                Some(f) => {
                    let d = f.duplicate();
                    r.push(d);
                    proof {
                        assert(d@ == spec_lookup(witness.0@, Variable::Public(k as usize))
                            ->Some_0@);
                        assert(field_views(r@) =~= field_views(prev).push(d@));
                    }
                },
                None => {
                    proof {
                        assert(false);
                    }
                },
            }
            k = k + 1;
            proof {
                assert(return_values(k as nat, witness.0@) =~= return_values(
                    (k - 1) as nat,
                    witness.0@,
                ).push(spec_lookup(witness.0@, Variable::Public((k - 1) as usize))->Some_0@));
                assert(field_views(r@) =~= argument_values(self.arguments@, witness.0@)
                    + return_values(k as nat, witness.0@));
            }
        }
        r
    }
}

impl<S: StatementSource> ProgIterator<S> {
    /// Materialize the statement container.
    pub fn collect(self) -> (r: Prog)
        ensures
            r.arguments@ == self.arguments@,
            r.return_count == self.return_count,
            r.statements@ == self.statements.stmts(),
    {
        ProgIterator {
            statements: self.statements.into_statements(),
            arguments: self.arguments,
            return_count: self.return_count,
        }
    }
}

/// Count the public (non-private) parameters of an argument list.
pub fn count_public_arguments(args: &Vec<Parameter>) -> (r: usize)
    ensures
        r == count_public_inputs(args@),
{
    let n = args.len();
    let mut count: usize = 0;
    let mut i: usize = 0;
    while i < n
        invariant
            n == args@.len(),
            i <= n,
            count <= i,
            count == count_public_inputs(args@.take(i as int)),
        decreases n - i,
    {
        proof {
            assert(args@.take(i + 1).drop_last() =~= args@.take(i as int));
        }
        if !args[i].private {
            count = count + 1;
        }
        i = i + 1;
    }
    proof {
        assert(args@.take(n as int) =~= args@);
    }
    count
}

impl Prog {
    /// How many statements are equality constraints, at the top level.
    pub fn constraint_count(&self) -> (r: usize)
        ensures
            r == count_constraints(self.statements@),
    {
        let n = self.statements.len();
        let mut count: usize = 0;
        let mut i: usize = 0;
        while i < n
            invariant
                n == self.statements@.len(),
                i <= n,
                count <= i,
                count == count_constraints(self.statements@.take(i as int)),
            decreases n - i,
        {
            proof {
                assert(self.statements@.take(i + 1).drop_last() =~= self.statements@.take(
                    i as int,
                ));
            }
            let is_c = match &self.statements[i] {
                Statement::Constraint(..) => true,
                _ => false,
            };
            if is_c {
                count = count + 1;
            }
            i = i + 1;
        }
        proof {
            assert(self.statements@.take(n as int) =~= self.statements@);
        }
        count
    }

    /// Hand the program over in the generic iterator form. The statement
    /// storage is moved, not duplicated; the materialized container already
    /// supports the repeated iteration the exporter needs.
    pub fn into_prog_iter(self) -> (r: ProgIterator<Vec<Statement>>)
        ensures
            r == self,
    {
        self
    }
}

impl Default for Prog {
    /// The empty program: no arguments, no returns, no statements.
    fn default() -> (p: Prog)
        ensures
            p.arguments@.len() == 0,
            p.return_count == 0,
            p.statements@.len() == 0,
    {
        ProgIterator { arguments: Vec::new(), return_count: 0, statements: Vec::new() }
    }
}

} // verus!

verus! {

/// Ascending by wire identifier, hence duplicate-free.
pub open spec fn sorted_by_id(s: Seq<Variable>) -> bool {
    forall|i: int, j: int| 0 <= i < j < s.len() ==> variable_id(s[i]) < variable_id(s[j])
}

/// Insert a wire into an ascending duplicate-free wire list, keeping it so.
pub open spec fn insert_sorted_id(s: Seq<Variable>, v: Variable) -> Seq<Variable>
    decreases s.len(),
{
    if s.len() == 0 {
        seq![v]
    } else if variable_id(v) < variable_id(s[0]) {
        seq![v] + s
    } else if v == s[0] {
        s
    } else {
        seq![s[0]] + insert_sorted_id(s.drop_first(), v)
    }
}

proof fn lemma_var_contains_split(a: Seq<Variable>, b: Seq<Variable>, y: Variable)
    ensures
        (a + b).contains(y) <==> a.contains(y) || b.contains(y),
{
    if a.contains(y) {
        let i = choose|i: int| 0 <= i < a.len() && a[i] == y;
        assert((a + b)[i] == y);
    }
    if b.contains(y) {
        let i = choose|i: int| 0 <= i < b.len() && b[i] == y;
        assert((a + b)[a.len() + i] == y);
    }
    if (a + b).contains(y) {
        let i = choose|i: int| 0 <= i < (a + b).len() && (a + b)[i] == y;
        if i < a.len() {
            assert(a[i] == y);
        } else {
            assert(b[i - a.len()] == y);
        }
    }
}

proof fn lemma_var_contains_first(s: Seq<Variable>, y: Variable)
    requires
        s.len() > 0,
    ensures
        s.contains(y) <==> (s[0] == y || s.drop_first().contains(y)),
{
    assert(s =~= seq![s[0]] + s.drop_first());
    lemma_var_contains_split(seq![s[0]], s.drop_first(), y);
    assert(seq![s[0]].contains(y) <==> s[0] == y) by {
        if seq![s[0]].contains(y) {
            let i = choose|i: int| 0 <= i < 1 && seq![s[0]][i] == y;
        }
        if s[0] == y {
            assert(seq![s[0]][0] == y);
        }
    }
}

proof fn lemma_insert_sorted_id(s: Seq<Variable>, x: Variable)
    requires
        sorted_by_id(s),
    ensures
        sorted_by_id(insert_sorted_id(s, x)),
        forall|y: Variable| insert_sorted_id(s, x).contains(y) <==> (s.contains(y) || y == x),
    decreases s.len(),
{
    let r = insert_sorted_id(s, x);
    if s.len() == 0 {
        assert forall|y: Variable| r.contains(y) <==> (s.contains(y) || y == x) by {
            if r.contains(y) {
                let i = choose|i: int| 0 <= i < r.len() && r[i] == y;
                assert(r[0] == x);
            }
            if y == x {
                assert(r[0] == y);
            }
            if s.contains(y) {
                let i = choose|i: int| 0 <= i < s.len() && s[i] == y;
            }
        }
    } else if variable_id(x) < variable_id(s[0]) {
        assert(r == seq![x] + s);
        assert forall|i: int, j: int| 0 <= i < j < r.len() implies variable_id(r[i])
            < variable_id(r[j]) by {
            if i == 0 {
                assert(r[j] == s[j - 1]);
                if j - 1 > 0 {
                    assert(variable_id(s[0]) < variable_id(s[j - 1]));
                }
            } else {
                assert(r[i] == s[i - 1] && r[j] == s[j - 1]);
            }
        }
        assert forall|y: Variable| r.contains(y) <==> (s.contains(y) || y == x) by {
            lemma_var_contains_split(seq![x], s, y);
            if seq![x].contains(y) {
                let i = choose|i: int| 0 <= i < 1 && seq![x][i] == y;
                assert(seq![x][0] == x);
            }
            if y == x {
                assert(seq![x][0] == y);
            }
        }
    } else if x == s[0] {
        assert forall|y: Variable| r.contains(y) <==> (s.contains(y) || y == x) by {
            if y == x {
                assert(s[0] == y);
            }
        }
    } else {
        if variable_id(x) == variable_id(s[0]) {
            lemma_variable_id_injective(x, s[0]);
        }
        assert(variable_id(s[0]) < variable_id(x));
        let d = s.drop_first();
        assert(sorted_by_id(d)) by {
            assert forall|i: int, j: int| 0 <= i < j < d.len() implies variable_id(d[i])
                < variable_id(d[j]) by {
                assert(d[i] == s[i + 1] && d[j] == s[j + 1]);
            }
        }
        lemma_insert_sorted_id(d, x);
        let rec = insert_sorted_id(d, x);
        assert(r == seq![s[0]] + rec);
        assert forall|k: int| 0 <= k < rec.len() implies variable_id(s[0]) < variable_id(
            rec[k],
        ) by {
            assert(rec.contains(rec[k]));
            if d.contains(rec[k]) {
                let i = choose|i: int| 0 <= i < d.len() && d[i] == rec[k];
                assert(d[i] == s[i + 1]);
                assert(variable_id(s[0]) < variable_id(s[i + 1]));
            }
        }
        assert forall|i: int, j: int| 0 <= i < j < r.len() implies variable_id(r[i])
            < variable_id(r[j]) by {
            if i == 0 {
                assert(r[j] == rec[j - 1]);
            } else {
                assert(r[i] == rec[i - 1] && r[j] == rec[j - 1]);
            }
        }
        assert forall|y: Variable| r.contains(y) <==> (s.contains(y) || y == x) by {
            lemma_var_contains_split(seq![s[0]], rec, y);
            lemma_var_contains_first(s, y);
            assert(seq![s[0]].contains(y) <==> s[0] == y) by {
                if seq![s[0]].contains(y) {
                    let i = choose|i: int| 0 <= i < 1 && seq![s[0]][i] == y;
                }
                if s[0] == y {
                    assert(seq![s[0]][0] == y);
                }
            }
        }
    }
}

proof fn lemma_insert_sorted_id_prefix(s: Seq<Variable>, x: Variable, i: int)
    requires
        0 <= i <= s.len(),
        forall|j: int| 0 <= j < i ==> variable_id(s[j]) < variable_id(x),
    ensures
        insert_sorted_id(s, x) == s.take(i) + insert_sorted_id(s.skip(i), x),
    decreases i,
{
    if i == 0 {
        assert(s.skip(0) =~= s);
        assert(s.take(0) + insert_sorted_id(s, x) =~= insert_sorted_id(s, x));
    } else {
        let d = s.drop_first();
        assert(variable_id(s[0]) < variable_id(x));
        if x == s[0] {
            lemma_variable_id_injective(x, s[0]);
        }
        assert forall|j: int| 0 <= j < i - 1 implies variable_id(d[j]) < variable_id(x) by {
            assert(d[j] == s[j + 1]);
        }
        lemma_insert_sorted_id_prefix(d, x, i - 1);
        assert(d.skip(i - 1) =~= s.skip(i));
        assert(seq![s[0]] + (d.take(i - 1) + insert_sorted_id(d.skip(i - 1), x)) =~= s.take(i)
            + insert_sorted_id(s.skip(i), x));
    }
}

fn insert_position(r: &Vec<Variable>, x: &Variable) -> (i: usize)
    ensures
        i <= r@.len(),
        forall|j: int| 0 <= j < i ==> variable_id(r@[j]) < variable_id(*x),
        i < r@.len() ==> variable_id(r@[i as int]) >= variable_id(*x),
{
    let n = r.len();
    let mut i: usize = 0;
    while i < n
        invariant
            n == r@.len(),
            i <= n,
            forall|j: int| 0 <= j < i ==> variable_id(r@[j]) < variable_id(*x),
        decreases n - i,
    {
        if !id_before(&r[i], x) {
            return i;
        }
        i = i + 1;
    }
    i
}

/// Insert a wire into the ascending public-wire list.
fn insert_public_wire(r: &mut Vec<Variable>, x: Variable)
    ensures
        final(r)@ == insert_sorted_id(old(r)@, x),
{
    let i = insert_position(r, &x);
    proof {
        lemma_insert_sorted_id_prefix(r@, x, i as int);
    }
    let n = r.len();
    if i == n {
        r.push(x);
        proof {
            assert(old(r)@.skip(n as int) =~= Seq::<Variable>::empty());
            assert(r@ =~= old(r)@.take(n as int) + insert_sorted_id(
                old(r)@.skip(n as int),
                x,
            ));
        }
    } else if r[i] == x {
        proof {
            assert(old(r)@.skip(i as int)[0] == x);
            assert(insert_sorted_id(old(r)@.skip(i as int), x) == old(r)@.skip(i as int));
            assert(r@ =~= old(r)@.take(i as int) + old(r)@.skip(i as int));
        }
    } else {
        proof {
            let s0 = old(r)@.skip(i as int)[0];
            assert(s0 == old(r)@[i as int]);
            if variable_id(s0) == variable_id(x) {
                lemma_variable_id_injective(s0, x);
            }
            assert(variable_id(x) < variable_id(s0));
            assert(insert_sorted_id(old(r)@.skip(i as int), x) == seq![x] + old(r)@.skip(
                i as int,
            ));
        }
        r.insert(i, x);
        proof {
            assert(r@ =~= old(r)@.take(i as int) + (seq![x] + old(r)@.skip(i as int)));
        }
    }
}

/// Fold the non-private argument wires into an ascending duplicate-free
/// list.
pub open spec fn insert_public_ids(s: Seq<Variable>, args: Seq<Parameter>) -> Seq<Variable>
    decreases args.len(),
{
    if args.len() == 0 {
        s
    } else if args[0].private {
        insert_public_ids(s, args.drop_first())
    } else {
        insert_public_ids(insert_sorted_id(s, args[0].id), args.drop_first())
    }
}

proof fn lemma_insert_public_ids(s: Seq<Variable>, args: Seq<Parameter>)
    requires
        sorted_by_id(s),
    ensures
        sorted_by_id(insert_public_ids(s, args)),
        forall|y: Variable|
            insert_public_ids(s, args).contains(y) <==> (s.contains(y) || (exists|i: int|
                0 <= i < args.len() && !(#[trigger] args[i]).private && args[i].id == y)),
    decreases args.len(),
{
    if args.len() > 0 {
        let d = args.drop_first();
        let r = insert_public_ids(s, args);
        if args[0].private {
            lemma_insert_public_ids(s, d);
            assert forall|y: Variable|
                r.contains(y) <==> (s.contains(y) || (exists|i: int|
                    0 <= i < args.len() && !(#[trigger] args[i]).private && args[i].id
                        == y)) by {
                assert(r == insert_public_ids(s, d));
                assert(insert_public_ids(s, d).contains(y) <==> (s.contains(y) || (exists|i: int|
                    0 <= i < d.len() && !(#[trigger] d[i]).private && d[i].id == y)));
                if r.contains(y) && !s.contains(y) {
                    let i = choose|i: int|
                        0 <= i < d.len() && !(#[trigger] d[i]).private && d[i].id == y;
                    assert(d[i] == args[i + 1]);
                    assert(!args[i + 1].private && args[i + 1].id == y);
                }
                if exists|i: int|
                    0 <= i < args.len() && !(#[trigger] args[i]).private && args[i].id == y {
                    let i = choose|i: int|
                        0 <= i < args.len() && !(#[trigger] args[i]).private && args[i].id == y;
                    assert(i > 0);
                    assert(d[i - 1] == args[i]);
                    assert(!d[i - 1].private && d[i - 1].id == y);
                }
            }
        } else {
            lemma_insert_sorted_id(s, args[0].id);
            lemma_insert_public_ids(insert_sorted_id(s, args[0].id), d);
            assert forall|y: Variable|
                r.contains(y) <==> (s.contains(y) || (exists|i: int|
                    0 <= i < args.len() && !(#[trigger] args[i]).private && args[i].id
                        == y)) by {
                assert(r == insert_public_ids(insert_sorted_id(s, args[0].id), d));
                assert(insert_sorted_id(s, args[0].id).contains(y) <==> (s.contains(y) || y
                    == args[0].id));
                assert(insert_public_ids(insert_sorted_id(s, args[0].id), d).contains(y) <==> (
                insert_sorted_id(s, args[0].id).contains(y) || (exists|i: int|
                    0 <= i < d.len() && !(#[trigger] d[i]).private && d[i].id == y)));
                if r.contains(y) && !s.contains(y) && y != args[0].id {
                    let i = choose|i: int|
                        0 <= i < d.len() && !(#[trigger] d[i]).private && d[i].id == y;
                    assert(d[i] == args[i + 1]);
                    assert(!args[i + 1].private && args[i + 1].id == y);
                }
                if exists|i: int|
                    0 <= i < args.len() && !(#[trigger] args[i]).private && args[i].id == y {
                    let i = choose|i: int|
                        0 <= i < args.len() && !(#[trigger] args[i]).private && args[i].id == y;
                    if i > 0 {
                        assert(d[i - 1] == args[i]);
                        assert(!d[i - 1].private && d[i - 1].id == y);
                    }
                }
            }
        }
    }
}

} // verus!
