//! Text rendering of the data model, for human debugging only: wires,
//! combinations, statements and whole programs. The text form carries no
//! normative byte format.

use vstd::prelude::*;

use crate::expression::{LinComb, QuadComb};
use crate::field::{le_value, FieldElement};
use crate::prog::{return_variables, Prog};
use crate::statement::{ConcreteType, Directive, Statement};
use crate::variable::{Parameter, Variable};

verus! {

/// The digit character of `d` (for `d` up to 9).
pub open spec fn digit_char(d: nat) -> char {
    if d == 0 {
        '0'
    } else if d == 1 {
        '1'
    } else if d == 2 {
        '2'
    } else if d == 3 {
        '3'
    } else if d == 4 {
        '4'
    } else if d == 5 {
        '5'
    } else if d == 6 {
        '6'
    } else if d == 7 {
        '7'
    } else if d == 8 {
        '8'
    } else {
        '9'
    }
}

/// The decimal rendering of `n`, most significant digit first, without
/// leading zeros.
pub open spec fn decimal_digits(n: nat) -> Seq<char>
    decreases n,
{
    if n < 10 {
        seq![digit_char(n)]
    } else {
        decimal_digits(n / 10).push(digit_char(n % 10))
    }
}

/// The digit characters of a list of digits.
pub open spec fn digits_chars(ds: Seq<u8>) -> Seq<char> {
    ds.map_values(|d: u8| digit_char(d as nat))
}

/// The one-character string of the digit `d`.
fn digit_str(d: u8) -> (s: &'static str)
    requires
        d < 10,
    ensures
        s@ == seq![digit_char(d as nat)],
{
    proof {
        reveal_strlit("0");
        reveal_strlit("1");
        reveal_strlit("2");
        reveal_strlit("3");
        reveal_strlit("4");
        reveal_strlit("5");
        reveal_strlit("6");
        reveal_strlit("7");
        reveal_strlit("8");
        reveal_strlit("9");
    }
    if d == 0 {
        "0"
    } else if d == 1 {
        "1"
    } else if d == 2 {
        "2"
    } else if d == 3 {
        "3"
    } else if d == 4 {
        "4"
    } else if d == 5 {
        "5"
    } else if d == 6 {
        "6"
    } else if d == 7 {
        "7"
    } else if d == 8 {
        "8"
    } else {
        "9"
    }
}

/// Build the string of a digit list collected least significant first.
fn digits_to_string(digits: &Vec<u8>) -> (s: String)
    requires
        forall|i: int| 0 <= i < digits@.len() ==> digits@[i] < 10,
    ensures
        s@ == digits_chars(digits@).reverse(),
{
    let n = digits.len();
    let ghost rev = digits_chars(digits@).reverse();
    let mut s = String::new();
    let mut i: usize = n;
    while i > 0
        invariant
            n == digits@.len(),
            i <= n,
            rev == digits_chars(digits@).reverse(),
            forall|j: int| 0 <= j < digits@.len() ==> digits@[j] < 10,
            s@ == rev.take((n - i) as int),
        decreases i,
    {
        i = i - 1;
        s.append(digit_str(digits[i]));
        proof {
            assert(rev[(n - i - 1) as int] == digits_chars(digits@)[i as int]);
            assert(s@ =~= rev.take((n - i) as int));
        }
    }
    proof {
        assert(rev.take(n as int) =~= rev);
    }
    s
}

/// Render `n` in decimal.
pub fn u64_to_decimal(n: u64) -> (s: String)
    ensures
        s@ == decimal_digits(n as nat),
{
    if n == 0 {
        let s = String::from_str("0");
        proof {
            reveal_strlit("0");
            assert(s@ =~= decimal_digits(0));
        }
        return s;
    }
    let mut digits: Vec<u8> = Vec::new();
    let mut cur = n;
    while cur > 0
        invariant
            forall|i: int| 0 <= i < digits@.len() ==> digits@[i] < 10,
            cur > 0 ==> decimal_digits(n as nat) == decimal_digits(cur as nat) + digits_chars(
                digits@,
            ).reverse(),
            cur == 0 ==> decimal_digits(n as nat) == digits_chars(digits@).reverse(),
        decreases cur,
    {
        let ghost pre = digits@;
        let d = (cur % 10) as u8;
        digits.push(d);
        cur = cur / 10;
        proof {
            assert(digits_chars(digits@) =~= digits_chars(pre).push(digit_char(d as nat)));
            assert(digits_chars(digits@).reverse() =~= seq![digit_char(d as nat)] + digits_chars(
                pre,
            ).reverse());
            if cur > 0 {
                assert(decimal_digits(n as nat) =~= decimal_digits(cur as nat) + digits_chars(
                    digits@,
                ).reverse());
            } else {
                assert(decimal_digits(n as nat) =~= digits_chars(digits@).reverse());
            }
        }
    }
    digits_to_string(&digits)
}

} // verus!

verus! {

proof fn lemma_le_value_zero(s: Seq<u8>)
    ensures
        le_value(s) == 0 <==> (forall|i: int| 0 <= i < s.len() ==> s[i] == 0),
    decreases s.len(),
{
    if s.len() > 0 {
        let d = s.drop_first();
        lemma_le_value_zero(d);
        if le_value(d) > 0 {
            assert(256 * le_value(d) >= 256) by (nonlinear_arith)
                requires
                    le_value(d) >= 1,
            ;
        }
        if forall|i: int| 0 <= i < d.len() ==> d[i] == 0 {
            if forall|i: int| 0 <= i < s.len() ==> s[i] == 0 {
            }
        }
        assert forall|i: int| 0 <= i < s.len() && le_value(s) == 0 implies s[i] == 0 by {
            if i > 0 {
                assert(d[i - 1] == s[i]);
            }
        }
        if forall|i: int| 0 <= i < s.len() ==> s[i] == 0 {
            assert forall|i: int| 0 <= i < d.len() implies d[i] == 0 by {
                assert(d[i] == s[i + 1]);
            }
        }
    }
}

/// Whether a little-endian byte string encodes zero.
fn is_zero_bytes(b: &Vec<u8>) -> (r: bool)
    ensures
        r <==> le_value(b@) == 0,
{
    let n = b.len();
    let mut i: usize = 0;
    proof {
        lemma_le_value_zero(b@);
    }
    while i < n
        invariant
            n == b@.len(),
            i <= n,
            forall|j: int| 0 <= j < i ==> b@[j] == 0,
            le_value(b@) == 0 <==> (forall|j: int| 0 <= j < b@.len() ==> b@[j] == 0),
        decreases n - i,
    {
        if b[i] != 0 {
            return false;
        }
        i = i + 1;
    }
    true
}

/// Divide a little-endian byte string by ten: the quotient, same width, and
/// the remainder.
fn divmod10(b: &Vec<u8>) -> (r: (Vec<u8>, u8))
    ensures
        r.0@.len() == b@.len(),
        le_value(r.0@) * 10 + r.1 == le_value(b@),
        r.1 < 10,
{
    let n = b.len();
    let mut q = b.clone();
    proof {
        assert(q@ =~= b@);
        assert(b@.skip(n as int) =~= Seq::<u8>::empty());
        assert(q@.skip(n as int) =~= Seq::<u8>::empty());
    }
    let mut rem: u8 = 0;
    let mut i: usize = n;
    while i > 0
        invariant
            n == b@.len(),
            n == q@.len(),
            i <= n,
            rem < 10,
            forall|j: int| 0 <= j < i ==> q@[j] == b@[j],
            le_value(b@.skip(i as int)) == le_value(q@.skip(i as int)) * 10 + rem,
        decreases i,
    {
        let ghost q_pre = q@;
        i = i - 1;
        let cur: u32 = (rem as u32) * 256 + (b[i] as u32);
        let qd = (cur / 10) as u8;
        rem = (cur % 10) as u8;
        q.set(i, qd);
        proof {
            assert(q@.skip(i + 1) =~= q_pre.skip(i + 1));
            assert(b@.skip(i as int).drop_first() =~= b@.skip(i + 1));
            assert(q@.skip(i as int).drop_first() =~= q@.skip(i + 1));
            assert(b@.skip(i as int)[0] == b@[i as int]);
            assert(q@.skip(i as int)[0] == qd);
            assert(le_value(b@.skip(i as int)) == b@[i as int] + 256 * le_value(b@.skip(i + 1)));
            assert(le_value(q@.skip(i as int)) == qd + 256 * le_value(q@.skip(i + 1)));
            assert(256 * (le_value(q@.skip(i + 1)) * 10) == (256 * le_value(q@.skip(i + 1)))
                * 10) by (nonlinear_arith);
        }
    }
    proof {
        assert(b@.skip(0) =~= b@);
        assert(q@.skip(0) =~= q@);
    }
    (q, rem)
}

impl FieldElement {
    /// Render the value of the element in decimal.
    pub fn to_decimal_string(&self) -> (s: String)
        ensures
            s@ == decimal_digits(self.value()),
    {
        let ghost n0 = le_value(self.bytes_le@);
        let mut cur = self.bytes_le.clone();
        proof {
            assert(cur@ =~= self.bytes_le@);
        }
        if is_zero_bytes(&cur) {
            let s = String::from_str("0");
            proof {
                reveal_strlit("0");
                assert(s@ =~= decimal_digits(0));
            }
            return s;
        }
        let mut digits: Vec<u8> = Vec::new();
        let mut done = false;
        while !done
            invariant
                forall|i: int| 0 <= i < digits@.len() ==> digits@[i] < 10,
                !done ==> le_value(cur@) > 0,
                done ==> le_value(cur@) == 0,
                le_value(cur@) > 0 ==> decimal_digits(n0) == decimal_digits(le_value(cur@))
                    + digits_chars(digits@).reverse(),
                le_value(cur@) == 0 ==> decimal_digits(n0) == digits_chars(digits@).reverse(),
            decreases le_value(cur@),
        {
            let ghost pre = digits@;
            let ghost v_pre = le_value(cur@);
            let (qv, d) = divmod10(&cur);
            digits.push(d);
            cur = qv;
            done = is_zero_bytes(&cur);
            proof {
                let v_now = le_value(cur@);
                assert(v_now * 10 + d == v_pre);
                assert(v_now < v_pre) by (nonlinear_arith)
                    requires
                        v_now * 10 + d == v_pre,
                        v_pre > 0,
                        d < 10,
                ;
                assert(v_now == v_pre / 10 && d == v_pre % 10) by (nonlinear_arith)
                    requires
                        v_now * 10 + d == v_pre,
                        d < 10,
                ;
                assert(digits_chars(digits@) =~= digits_chars(pre).push(digit_char(d as nat)));
                assert(digits_chars(digits@).reverse() =~= seq![digit_char(d as nat)]
                    + digits_chars(pre).reverse());
                if v_now > 0 {
                    assert(decimal_digits(n0) =~= decimal_digits(v_now) + digits_chars(
                        digits@,
                    ).reverse());
                } else {
                    assert(decimal_digits(n0) =~= digits_chars(digits@).reverse());
                }
            }
        }
        digits_to_string(&digits)
    }
}

} // verus!

verus! {

broadcast use {vstd::seq::axiom_seq_index_decreases, vstd::seq::axiom_seq_subrange_decreases, vstd::std_specs::vec::axiom_vec_decreases_to_view};

/// The rendering of a wire: `~one`, `~out_k` for the `k`-th public wire, or
/// `_k` for the `k`-th local wire.
pub open spec fn variable_text(v: Variable) -> Seq<char> {
    match v {
        Variable::One => "~one"@,
        Variable::Public(k) => "~out_"@ + decimal_digits(k as nat),
        Variable::Local(k) => "_"@ + decimal_digits(k as nat),
    }
}

impl Variable {
    /// Render the wire.
    pub fn render(&self) -> (s: String)
        ensures
            s@ == variable_text(*self),
    {
        match self {
            Variable::One => String::from_str("~one"),
            Variable::Public(k) => {
                let mut s = String::from_str("~out_");
                let d = u64_to_decimal(*k as u64);
                s.append(d.as_str());
                s
            },
            Variable::Local(k) => {
                let mut s = String::from_str("_");
                let d = u64_to_decimal(*k as u64);
                s.append(d.as_str());
                s
            },
        }
    }
}

/// One term, rendered `coefficient * wire`.
pub open spec fn term_text(t: (Variable, FieldElement)) -> Seq<char> {
    decimal_digits(le_value(t.1.bytes_le@)) + " * "@ + variable_text(t.0)
}

/// A term list joined by ` + `.
pub open spec fn terms_text(terms: Seq<(Variable, FieldElement)>) -> Seq<char>
    decreases terms.len(),
{
    if terms.len() == 0 {
        Seq::empty()
    } else if terms.len() == 1 {
        term_text(terms[0])
    } else {
        terms_text(terms.drop_last()) + " + "@ + term_text(terms.last())
    }
}

/// The rendering of a linear combination; an empty one renders as `0`.
pub open spec fn lincomb_text(l: LinComb) -> Seq<char> {
    if l.0@.len() == 0 {
        "0"@
    } else {
        terms_text(l.0@)
    }
}

impl LinComb {
    /// Render the combination, terms joined by ` + `.
    pub fn render(&self) -> (s: String)
        ensures
            s@ == lincomb_text(*self),
    {
        let n = self.0.len();
        if n == 0 {
            return String::from_str("0");
        }
        let mut s = String::new();
        let mut i: usize = 0;
        while i < n
            invariant
                n == self.0@.len(),
                i <= n,
                s@ == terms_text(self.0@.take(i as int)),
            decreases n - i,
        {
            if i > 0 {
                s.append(" + ");
            }
            let c = self.0[i].1.to_decimal_string();
            s.append(c.as_str());
            s.append(" * ");
            let v = self.0[i].0.render();
            s.append(v.as_str());
            i = i + 1;
            proof {
                assert(self.0@.take(i as int).drop_last() =~= self.0@.take(i - 1));
                assert(self.0@.take(i as int).last() == self.0@[i - 1]);
                assert(s@ =~= terms_text(self.0@.take(i as int)));
            }
        }
        proof {
            assert(self.0@.take(n as int) =~= self.0@);
        }
        s
    }
}

/// The rendering of a quadratic combination: the two factors in parentheses.
pub open spec fn quadcomb_text(q: QuadComb) -> Seq<char> {
    "("@ + lincomb_text(q.left) + ") * ("@ + lincomb_text(q.right) + ")"@
}

impl QuadComb {
    /// Render the product.
    pub fn render(&self) -> (s: String)
        ensures
            s@ == quadcomb_text(*self),
    {
        let mut s = String::from_str("(");
        let left = self.left.render();
        s.append(left.as_str());
        s.append(") * (");
        let right = self.right.render();
        s.append(right.as_str());
        s.append(")");
        proof {
            assert(s@ =~= quadcomb_text(*self));
        }
        s
    }
}

} // verus!

verus! {

/// A wire list joined by `, `.
pub open spec fn variables_text(vs: Seq<Variable>) -> Seq<char>
    decreases vs.len(),
{
    if vs.len() == 0 {
        Seq::empty()
    } else if vs.len() == 1 {
        variable_text(vs[0])
    } else {
        variables_text(vs.drop_last()) + ", "@ + variable_text(vs.last())
    }
}

/// Render a wire list, joined by `, `.
pub fn render_variables(vs: &Vec<Variable>) -> (s: String)
    ensures
        s@ == variables_text(vs@),
{
    let n = vs.len();
    let mut s = String::new();
    let mut i: usize = 0;
    while i < n
        invariant
            n == vs@.len(),
            i <= n,
            s@ == variables_text(vs@.take(i as int)),
        decreases n - i,
    {
        if i > 0 {
            s.append(", ");
        }
        let v = vs[i].render();
        s.append(v.as_str());
        i = i + 1;
        proof {
            assert(vs@.take(i as int).drop_last() =~= vs@.take(i - 1));
            assert(vs@.take(i as int).last() == vs@[i - 1]);
            assert(s@ =~= variables_text(vs@.take(i as int)));
        }
    }
    proof {
        assert(vs@.take(n as int) =~= vs@);
    }
    s
}

/// A list of quadratic combinations joined by `, `.
pub open spec fn quads_text(qs: Seq<QuadComb>) -> Seq<char>
    decreases qs.len(),
{
    if qs.len() == 0 {
        Seq::empty()
    } else if qs.len() == 1 {
        quadcomb_text(qs[0])
    } else {
        quads_text(qs.drop_last()) + ", "@ + quadcomb_text(qs.last())
    }
}

/// The rendering of a directive: its outputs, the solver name, its inputs.
pub open spec fn directive_text(d: Directive) -> Seq<char> {
    "# "@ + variables_text(d.outputs@) + " = "@ + d.solver.name@ + "("@ + quads_text(d.inputs@)
        + ")"@
}

impl Directive {
    /// Render the directive.
    pub fn render(&self) -> (s: String)
        ensures
            s@ == directive_text(*self),
    {
        let mut s = String::from_str("# ");
        let outs = render_variables(&self.outputs);
        s.append(outs.as_str());
        s.append(" = ");
        s.append(self.solver.name.as_str());
        s.append("(");
        let n = self.inputs.len();
        let mut i: usize = 0;
        while i < n
            invariant
                n == self.inputs@.len(),
                i <= n,
                s@ == "# "@ + variables_text(self.outputs@) + " = "@ + self.solver.name@ + "("@
                    + quads_text(self.inputs@.take(i as int)),
            decreases n - i,
        {
            if i > 0 {
                s.append(", ");
            }
            let q = self.inputs[i].render();
            s.append(q.as_str());
            i = i + 1;
            proof {
                assert(self.inputs@.take(i as int).drop_last() =~= self.inputs@.take(i - 1));
                assert(self.inputs@.take(i as int).last() == self.inputs@[i - 1]);
                assert(s@ =~= "# "@ + variables_text(self.outputs@) + " = "@ + self.solver.name@
                    + "("@ + quads_text(self.inputs@.take(i as int)));
            }
        }
        s.append(")");
        proof {
            assert(self.inputs@.take(n as int) =~= self.inputs@);
            assert(s@ =~= directive_text(*self));
        }
        s
    }
}

/// A list of linear combinations joined by `, `.
pub open spec fn lincombs_text(ls: Seq<LinComb>) -> Seq<char>
    decreases ls.len(),
{
    if ls.len() == 0 {
        Seq::empty()
    } else if ls.len() == 1 {
        lincomb_text(ls[0])
    } else {
        lincombs_text(ls.drop_last()) + ", "@ + lincomb_text(ls.last())
    }
}

/// One logged argument: its combinations bracketed, the declared type not
/// shown.
pub open spec fn log_arg_text(a: (ConcreteType, Vec<LinComb>)) -> Seq<char> {
    "["@ + lincombs_text(a.1@) + "]"@
}

/// The logged arguments joined by `, `.
pub open spec fn log_args_text(args: Seq<(ConcreteType, Vec<LinComb>)>) -> Seq<char>
    decreases args.len(),
{
    if args.len() == 0 {
        Seq::empty()
    } else if args.len() == 1 {
        log_arg_text(args[0])
    } else {
        log_args_text(args.drop_last()) + ", "@ + log_arg_text(args.last())
    }
}

/// Render the combinations of one logged argument, bracketed.
fn render_log_arg(ls: &Vec<LinComb>) -> (s: String)
    ensures
        s@ == "["@ + lincombs_text(ls@) + "]"@,
{
    let mut s = String::from_str("[");
    let n = ls.len();
    let mut i: usize = 0;
    while i < n
        invariant
            n == ls@.len(),
            i <= n,
            s@ == "["@ + lincombs_text(ls@.take(i as int)),
        decreases n - i,
    {
        if i > 0 {
            s.append(", ");
        }
        let l = ls[i].render();
        s.append(l.as_str());
        i = i + 1;
        proof {
            assert(ls@.take(i as int).drop_last() =~= ls@.take(i - 1));
            assert(ls@.take(i as int).last() == ls@[i - 1]);
            assert(s@ =~= "["@ + lincombs_text(ls@.take(i as int)));
        }
    }
    s.append("]");
    proof {
        assert(ls@.take(n as int) =~= ls@);
        assert(s@ =~= "["@ + lincombs_text(ls@) + "]"@);
    }
    s
}

} // verus!

verus! {


/// The rendering of one statement. A block renders its statements between
/// braces, one per line; a constraint renders as `quad == lin`, suffixed
/// with ` // tag` when a diagnostic tag is present; a log renders its format
/// string and its bracketed arguments.
pub open spec fn statement_text(s: Statement) -> Seq<char>
    decreases s,
{
    match s {
        Statement::Block(stmts) => "{\n"@ + block_body_text(stmts@) + "}"@,
        Statement::Constraint(q, l, err) => quadcomb_text(q) + " == "@ + lincomb_text(l) + (
        match err {
            Some(e) => " // "@ + e.message@,
            None => Seq::<char>::empty(),
        }),
        Statement::Directive(d) => directive_text(d),
        Statement::Log(f, args) => "log(\""@ + f.text@ + "\", "@ + log_args_text(args@) + ")"@,
    }
}

/// The body of a block: each statement on a line of its own.
pub open spec fn block_body_text(stmts: Seq<Statement>) -> Seq<char>
    decreases stmts,
{
    if stmts.len() == 0 {
        Seq::empty()
    } else {
        block_body_text(stmts.drop_last()) + statement_text(stmts.last()) + "\n"@
    }
}

impl Statement {
    /// Render the statement.
    #[verifier::loop_isolation(false)]
    pub fn render(&self) -> (s: String)
        ensures
            s@ == statement_text(*self),
        decreases *self,
    {
        match self {
            Statement::Block(stmts) => {
                let mut s = String::from_str("{\n");
                let n = stmts.len();
                let mut i: usize = 0;
                while i < n
                    invariant
                        i <= n,
                        s@ == "{\n"@ + block_body_text(stmts@.take(i as int)),
                    decreases n - i,
                {
                    let line = stmts[i].render();
                    s.append(line.as_str());
                    s.append("\n");
                    i = i + 1;
                    proof {
                        assert(stmts@.take(i as int).drop_last() =~= stmts@.take(i - 1));
                        assert(stmts@.take(i as int).last() == stmts@[i - 1]);
                        assert(s@ =~= "{\n"@ + block_body_text(stmts@.take(i as int)));
                    }
                }
                s.append("}");
                proof {
                    assert(stmts@.take(n as int) =~= stmts@);
                    assert(s@ =~= statement_text(*self));
                }
                s
            },
            Statement::Constraint(quad, lin, err) => {
                let mut s = quad.render();
                s.append(" == ");
                let l = lin.render();
                s.append(l.as_str());
                match err {
                    Some(e) => {
                        s.append(" // ");
                        s.append(e.message.as_str());
                    },
                    None => {},
                }
                proof {
                    assert(s@ =~= statement_text(*self));
                }
                s
            },
            Statement::Directive(d) => d.render(),
            Statement::Log(f, args) => {
                let mut s = String::from_str("log(\"");
                s.append(f.text.as_str());
                s.append("\", ");
                let n = args.len();
                let mut i: usize = 0;
                while i < n
                    invariant
                        i <= n,
                        s@ == "log(\""@ + f.text@ + "\", "@ + log_args_text(args@.take(i as int)),
                    decreases n - i,
                {
                    if i > 0 {
                        s.append(", ");
                    }
                    let a = render_log_arg(&args[i].1);
                    s.append(a.as_str());
                    i = i + 1;
                    proof {
                        assert(args@.take(i as int).drop_last() =~= args@.take(i - 1));
                        assert(args@.take(i as int).last() == args@[i - 1]);
                        assert(s@ =~= "log(\""@ + f.text@ + "\", "@ + log_args_text(
                            args@.take(i as int),
                        ));
                    }
                }
                s.append(")");
                proof {
                    assert(args@.take(n as int) =~= args@);
                    assert(s@ =~= statement_text(*self));
                }
                s
            },
        }
    }
}

/// The rendering of a parameter: `private ` before its wire when hidden.
pub open spec fn parameter_text(p: Parameter) -> Seq<char> {
    (if p.private {
        "private "@
    } else {
        Seq::<char>::empty()
    }) + variable_text(p.id)
}

/// A parameter list joined by `, `.
pub open spec fn parameters_text(ps: Seq<Parameter>) -> Seq<char>
    decreases ps.len(),
{
    if ps.len() == 0 {
        Seq::empty()
    } else if ps.len() == 1 {
        parameter_text(ps[0])
    } else {
        parameters_text(ps.drop_last()) + ", "@ + parameter_text(ps.last())
    }
}

/// The body of a program: each statement on an indented line of its own.
pub open spec fn prog_body_text(stmts: Seq<Statement>) -> Seq<char>
    decreases stmts.len(),
{
    if stmts.len() == 0 {
        Seq::empty()
    } else {
        prog_body_text(stmts.drop_last()) + "\t"@ + statement_text(stmts.last()) + "\n"@
    }
}

/// The rendering of a whole program: its signature, its statements, and the
/// returned wires.
pub open spec fn prog_text(
    args: Seq<Parameter>,
    return_count: nat,
    stmts: Seq<Statement>,
) -> Seq<char> {
    "def main("@ + parameters_text(args) + ") -> ("@ + variables_text(
        return_variables(return_count),
    ) + ") {\n"@ + prog_body_text(stmts) + "\treturn "@ + variables_text(
        return_variables(return_count),
    ) + "\n"@ + "}\n"@
}

impl Parameter {
    /// Render the parameter.
    pub fn render(&self) -> (s: String)
        ensures
            s@ == parameter_text(*self),
    {
        let mut s = if self.private {
            String::from_str("private ")
        } else {
            String::new()
        };
        let v = self.id.render();
        s.append(v.as_str());
        s
    }
}

impl Prog {
    /// Render the program.
    #[verifier::loop_isolation(false)]
    pub fn render(&self) -> (s: String)
        ensures
            s@ == prog_text(self.arguments@, self.return_count as nat, self.statements@),
    {
        let rets = self.return_wires();
        let rets_s = render_variables(&rets);
        let mut s = String::from_str("def main(");
        let n_args = self.arguments.len();
        let mut i: usize = 0;
        while i < n_args
            invariant
                i <= n_args,
                s@ == "def main("@ + parameters_text(self.arguments@.take(i as int)),
            decreases n_args - i,
        {
            if i > 0 {
                s.append(", ");
            }
            let p = self.arguments[i].render();
            s.append(p.as_str());
            i = i + 1;
            proof {
                assert(self.arguments@.take(i as int).drop_last() =~= self.arguments@.take(i - 1));
                assert(self.arguments@.take(i as int).last() == self.arguments@[i - 1]);
                assert(s@ =~= "def main("@ + parameters_text(self.arguments@.take(i as int)));
            }
        }
        proof {
            assert(self.arguments@.take(n_args as int) =~= self.arguments@);
        }
        s.append(") -> (");
        s.append(rets_s.as_str());
        s.append(") {\n");
        let n = self.statements.len();
        let ghost head = s@;
        let mut j: usize = 0;
        while j < n
            invariant
                j <= n,
                s@ == head + prog_body_text(self.statements@.take(j as int)),
            decreases n - j,
        {
            s.append("\t");
            let line = self.statements[j].render();
            s.append(line.as_str());
            s.append("\n");
            j = j + 1;
            proof {
                assert(self.statements@.take(j as int).drop_last() =~= self.statements@.take(
                    j - 1,
                ));
                assert(self.statements@.take(j as int).last() == self.statements@[j - 1]);
                assert(s@ =~= head + prog_body_text(self.statements@.take(j as int)));
            }
        }
        s.append("\treturn ");
        s.append(rets_s.as_str());
        s.append("\n");
        s.append("}\n");
        proof {
            assert(self.statements@.take(n as int) =~= self.statements@);
            assert(s@ =~= prog_text(self.arguments@, self.return_count as nat, self.statements@));
        }
        s
    }
}

} // verus!
