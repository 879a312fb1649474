//! The binary exporter: serializes a program into a fixed, versioned,
//! section-based constraint-system file. Variables are renumbered onto the
//! flat wire space, a sizing pass computes the constraint-section size and
//! the wire table, and the sections are emitted in a fixed order, all
//! integers little-endian.

use vstd::prelude::*;

use crate::expression::LinComb;
use crate::field::{FieldElement, FieldInfo};
use crate::prog::{
    count_constraints, count_private_inputs, count_public_inputs, count_public_arguments, Prog,
};
use crate::statement::Statement;
use crate::variable::{shift_variable, shifted_wire, wire_fits, Parameter, Variable};

verus! {

/// The four little-endian bytes of a 32-bit integer.
pub open spec fn u32_le_bytes(n: u32) -> Seq<u8> {
    seq![
        (n & 0xff) as u8,
        ((n >> 8) & 0xff) as u8,
        ((n >> 16) & 0xff) as u8,
        ((n >> 24) & 0xff) as u8,
    ]
}

/// The eight little-endian bytes of a 64-bit integer.
pub open spec fn u64_le_bytes(n: u64) -> Seq<u8> {
    seq![
        (n & 0xff) as u8,
        ((n >> 8) & 0xff) as u8,
        ((n >> 16) & 0xff) as u8,
        ((n >> 24) & 0xff) as u8,
        ((n >> 32) & 0xff) as u8,
        ((n >> 40) & 0xff) as u8,
        ((n >> 48) & 0xff) as u8,
        ((n >> 56) & 0xff) as u8,
    ]
}

/// Append the four little-endian bytes of `n`.
fn push_u32_le(out: &mut Vec<u8>, n: u32)
    ensures
        final(out)@ == old(out)@ + u32_le_bytes(n),
{
    out.push((n & 0xff) as u8);
    out.push(((n >> 8) & 0xff) as u8);
    out.push(((n >> 16) & 0xff) as u8);
    out.push(((n >> 24) & 0xff) as u8);
    proof {
        assert(out@ =~= old(out)@ + u32_le_bytes(n));
    }
}

/// Append the eight little-endian bytes of `n`.
fn push_u64_le(out: &mut Vec<u8>, n: u64)
    ensures
        final(out)@ == old(out)@ + u64_le_bytes(n),
{
    out.push((n & 0xff) as u8);
    out.push(((n >> 8) & 0xff) as u8);
    out.push(((n >> 16) & 0xff) as u8);
    out.push(((n >> 24) & 0xff) as u8);
    out.push(((n >> 32) & 0xff) as u8);
    out.push(((n >> 40) & 0xff) as u8);
    out.push(((n >> 48) & 0xff) as u8);
    out.push(((n >> 56) & 0xff) as u8);
    proof {
        assert(out@ =~= old(out)@ + u64_le_bytes(n));
    }
}

/// Append a copy of `bytes`.
fn push_bytes(out: &mut Vec<u8>, bytes: &Vec<u8>)
    ensures
        final(out)@ == old(out)@ + bytes@,
{
    let n = bytes.len();
    let mut i: usize = 0;
    while i < n
        invariant
            n == bytes@.len(),
            i <= n,
            out@ == old(out)@ + bytes@.take(i as int),
        decreases n - i,
    {
        out.push(bytes[i]);
        i = i + 1;
        proof {
            assert(out@ =~= old(out)@ + bytes@.take(i as int));
        }
    }
    proof {
        assert(old(out)@ + bytes@.take(n as int) =~= old(out)@ + bytes@);
    }
}

/// A byte string zero-padded on the high end to width `w`.
pub open spec fn padded_le(bytes: Seq<u8>, w: nat) -> Seq<u8> {
    bytes + Seq::new((w - bytes.len()) as nat, |i: int| 0u8)
}

/// Append `bytes` zero-padded to `w` bytes.
fn push_padded(out: &mut Vec<u8>, bytes: &Vec<u8>, w: usize)
    requires
        bytes@.len() <= w,
    ensures
        final(out)@ == old(out)@ + padded_le(bytes@, w as nat),
{
    push_bytes(out, bytes);
    let n = bytes.len();
    let mut j: usize = n;
    while j < w
        invariant
            n == bytes@.len(),
            n <= j <= w,
            out@ == old(out)@ + bytes@ + Seq::new((j - n) as nat, |i: int| 0u8),
        decreases w - j,
    {
        out.push(0u8);
        j = j + 1;
        proof {
            assert(out@ =~= old(out)@ + bytes@ + Seq::new((j - n) as nat, |i: int| 0u8));
        }
    }
    proof {
        assert(out@ =~= old(out)@ + padded_le(bytes@, w as nat));
    }
}

/// The bytes of one term: the renumbered wire id, then the coefficient
/// zero-padded to the field width.
pub open spec fn term_bytes(t: (Variable, FieldElement), shift: int, w: nat) -> Seq<u8> {
    u32_le_bytes(shifted_wire(t.0, shift) as u32) + padded_le(t.1.bytes_le@, w)
}

/// The bytes of a term list, in order.
pub open spec fn terms_bytes(
    terms: Seq<(Variable, FieldElement)>,
    shift: int,
    w: nat,
) -> Seq<u8>
    decreases terms.len(),
{
    if terms.len() == 0 {
        Seq::empty()
    } else {
        terms_bytes(terms.drop_last(), shift, w) + term_bytes(terms.last(), shift, w)
    }
}

/// A serialized linear combination: a 4-byte term count, then each term.
pub open spec fn lincomb_bytes(l: LinComb, shift: int, w: nat) -> Seq<u8> {
    u32_le_bytes(l.0@.len() as u32) + terms_bytes(l.0@, shift, w)
}

/// Soundness of one linear combination for export: the term count fits its
/// 4-byte field, every wire fits the flat wire space, and every coefficient
/// fits the field width.
pub open spec fn lincomb_exportable(l: LinComb, shift: int, w: nat) -> bool {
    &&& l.0@.len() <= u32::MAX
    &&& forall|i: int| 0 <= i < l.0@.len() ==> wire_fits((#[trigger] l.0@[i]).0, shift)
    &&& forall|i: int| 0 <= i < l.0@.len() ==> (#[trigger] l.0@[i]).1.fits(w)
}

/// Append a serialized linear combination.
fn write_lincomb(out: &mut Vec<u8>, l: &LinComb, shift: u32, w: usize)
    requires
        lincomb_exportable(*l, shift as int, w as nat),
    ensures
        final(out)@ == old(out)@ + lincomb_bytes(*l, shift as int, w as nat),
{
    let n = l.0.len();
    push_u32_le(out, n as u32);
    let mut i: usize = 0;
    while i < n
        invariant
            n == l.0@.len(),
            i <= n,
            lincomb_exportable(*l, shift as int, w as nat),
            out@ == old(out)@ + u32_le_bytes(n as u32) + terms_bytes(
                l.0@.take(i as int),
                shift as int,
                w as nat,
            ),
        decreases n - i,
    {
        proof {
            assert(l.0@.take(i + 1).drop_last() =~= l.0@.take(i as int));
        }
        let wire = shift_variable(&l.0[i].0, shift);
        push_u32_le(out, wire);
        push_padded(out, &l.0[i].1.bytes_le, w);
        i = i + 1;
        proof {
            assert(out@ =~= old(out)@ + u32_le_bytes(n as u32) + terms_bytes(
                l.0@.take(i as int),
                shift as int,
                w as nat,
            ));
        }
    }
    proof {
        assert(l.0@.take(n as int) =~= l.0@);
    }
}

/// The bytes one statement contributes to the constraint section: a
/// constraint writes its left, right and output combinations in that order;
/// other statements contribute nothing.
pub open spec fn statement_bytes(s: Statement, shift: int, w: nat) -> Seq<u8> {
    match s {
        Statement::Constraint(q, l, _) => lincomb_bytes(q.left, shift, w) + lincomb_bytes(
            q.right,
            shift,
            w,
        ) + lincomb_bytes(l, shift, w),
        _ => Seq::empty(),
    }
}

/// The whole constraint section, in program order.
pub open spec fn constraints_bytes(stmts: Seq<Statement>, shift: int, w: nat) -> Seq<u8>
    decreases stmts.len(),
{
    if stmts.len() == 0 {
        Seq::empty()
    } else {
        constraints_bytes(stmts.drop_last(), shift, w) + statement_bytes(stmts.last(), shift, w)
    }
}

/// The size formula of one statement: a constraint contributes three 4-byte
/// term counts plus, per term, a 4-byte wire id and a `w`-byte coefficient;
/// anything else contributes nothing.
pub open spec fn statement_size(s: Statement, w: nat) -> nat {
    match s {
        Statement::Constraint(q, l, _) => 3 * 4 + (q.left.0@.len() + q.right.0@.len()
            + l.0@.len()) * (w + 4),
        _ => 0,
    }
}

/// The size formula of the constraint section: the statement contributions
/// summed over the program.
pub open spec fn constraints_size(stmts: Seq<Statement>, w: nat) -> nat
    decreases stmts.len(),
{
    if stmts.len() == 0 {
        0
    } else {
        constraints_size(stmts.drop_last(), w) + statement_size(stmts.last(), w)
    }
}

/// Soundness of one statement for export.
pub open spec fn stmt_exportable(s: Statement, shift: int, w: nat) -> bool {
    match s {
        Statement::Constraint(q, l, _) => lincomb_exportable(q.left, shift, w)
            && lincomb_exportable(q.right, shift, w) && lincomb_exportable(l, shift, w),
        _ => true,
    }
}

proof fn lemma_terms_bytes_len(terms: Seq<(Variable, FieldElement)>, shift: int, w: nat)
    requires
        forall|i: int| 0 <= i < terms.len() ==> (#[trigger] terms[i]).1.bytes_le@.len() <= w,
    ensures
        terms_bytes(terms, shift, w).len() == terms.len() * (w + 4),
    decreases terms.len(),
{
    if terms.len() > 0 {
        lemma_terms_bytes_len(terms.drop_last(), shift, w);
        assert(term_bytes(terms.last(), shift, w).len() == w + 4);
        assert(terms.len() * (w + 4) == (terms.len() - 1) * (w + 4) + (w + 4))
            by (nonlinear_arith);
    }
}

proof fn lemma_lincomb_bytes_len(l: LinComb, shift: int, w: nat)
    requires
        lincomb_exportable(l, shift, w),
    ensures
        lincomb_bytes(l, shift, w).len() == 4 + l.0@.len() * (w + 4),
{
    lemma_terms_bytes_len(l.0@, shift, w);
}

/// Size formula exactness: the constraint-section size formula equals the
/// length of the emitted constraint section, computed independently from the
/// statement list.
pub proof fn lemma_constraints_size_exact(stmts: Seq<Statement>, shift: int, w: nat)
    requires
        forall|i: int| 0 <= i < stmts.len() ==> stmt_exportable(#[trigger] stmts[i], shift, w),
    ensures
        constraints_bytes(stmts, shift, w).len() == constraints_size(stmts, w),
    decreases stmts.len(),
{
    if stmts.len() > 0 {
        assert(forall|i: int|
            0 <= i < stmts.drop_last().len() ==> stmt_exportable(
                #[trigger] stmts.drop_last()[i],
                shift,
                w,
            ));
        lemma_constraints_size_exact(stmts.drop_last(), shift, w);
        let s = stmts.last();
        match s {
            Statement::Constraint(q, l, _) => {
                lemma_lincomb_bytes_len(q.left, shift, w);
                lemma_lincomb_bytes_len(q.right, shift, w);
                lemma_lincomb_bytes_len(l, shift, w);
                assert((q.left.0@.len() + q.right.0@.len() + l.0@.len()) * (w + 4) == q.left.0@.len()
                    * (w + 4) + q.right.0@.len() * (w + 4) + l.0@.len() * (w + 4))
                    by (nonlinear_arith);
            },
            _ => {},
        }
    }
}

/// Append the bytes one statement contributes to the constraint section.
fn write_statement(out: &mut Vec<u8>, s: &Statement, shift: u32, w: usize)
    requires
        stmt_exportable(*s, shift as int, w as nat),
    ensures
        final(out)@ == old(out)@ + statement_bytes(*s, shift as int, w as nat),
{
    match s {
        Statement::Constraint(quad, lin, _) => {
            write_lincomb(out, &quad.left, shift, w);
            write_lincomb(out, &quad.right, shift, w);
            write_lincomb(out, lin, shift, w);
            proof {
                assert(out@ =~= old(out)@ + statement_bytes(*s, shift as int, w as nat));
            }
        },
        _ => {},
    }
}

/// Append the whole constraint section.
fn write_constraints(out: &mut Vec<u8>, stmts: &Vec<Statement>, shift: u32, w: usize)
    requires
        forall|i: int|
            0 <= i < stmts@.len() ==> stmt_exportable(
                #[trigger] stmts@[i],
                shift as int,
                w as nat,
            ),
    ensures
        final(out)@ == old(out)@ + constraints_bytes(stmts@, shift as int, w as nat),
{
    let n = stmts.len();
    let mut i: usize = 0;
    while i < n
        invariant
            n == stmts@.len(),
            i <= n,
            forall|j: int|
                0 <= j < stmts@.len() ==> stmt_exportable(
                    #[trigger] stmts@[j],
                    shift as int,
                    w as nat,
                ),
            out@ == old(out)@ + constraints_bytes(stmts@.take(i as int), shift as int, w as nat),
        decreases n - i,
    {
        proof {
            assert(stmts@.take(i + 1).drop_last() =~= stmts@.take(i as int));
        }
        write_statement(out, &stmts[i], shift, w);
        i = i + 1;
    }
    proof {
        assert(stmts@.take(n as int) =~= stmts@);
    }
}

} // verus!

verus! {

/// Ascending and duplicate-free.
pub open spec fn strictly_sorted(s: Seq<u32>) -> bool {
    forall|i: int, j: int| 0 <= i < j < s.len() ==> s[i] < s[j]
}

/// Insert a wire id into an ascending duplicate-free list, keeping it so.
pub open spec fn sorted_insert(s: Seq<u32>, x: u32) -> Seq<u32>
    decreases s.len(),
{
    if s.len() == 0 {
        seq![x]
    } else if x < s[0] {
        seq![x] + s
    } else if x == s[0] {
        s
    } else {
        seq![s[0]] + sorted_insert(s.drop_first(), x)
    }
}

proof fn lemma_contains_split(a: Seq<u32>, b: Seq<u32>, y: u32)
    ensures
        (a + b).contains(y) <==> a.contains(y) || b.contains(y),
{
    if a.contains(y) {
        let i = choose|i: int| 0 <= i < a.len() && a[i] == y;
        assert((a + b)[i] == y);
    }
    if b.contains(y) {
        let i = choose|i: int| 0 <= i < b.len() && b[i] == y;
        assert((a + b)[a.len() + i] == y);
    }
    if (a + b).contains(y) {
        let i = choose|i: int| 0 <= i < (a + b).len() && (a + b)[i] == y;
        if i < a.len() {
            assert(a[i] == y);
        } else {
            assert(b[i - a.len()] == y);
        }
    }
}

proof fn lemma_contains_first(s: Seq<u32>, y: u32)
    requires
        s.len() > 0,
    ensures
        s.contains(y) <==> (s[0] == y || s.drop_first().contains(y)),
{
    assert(s =~= seq![s[0]] + s.drop_first());
    lemma_contains_split(seq![s[0]], s.drop_first(), y);
    assert(seq![s[0]].contains(y) <==> s[0] == y) by {
        if seq![s[0]].contains(y) {
            let i = choose|i: int| 0 <= i < 1 && seq![s[0]][i] == y;
            assert(seq![s[0]][0] == s[0]);
        }
        if s[0] == y {
            assert(seq![s[0]][0] == y);
        }
    }
}

proof fn lemma_sorted_insert(s: Seq<u32>, x: u32)
    requires
        strictly_sorted(s),
    ensures
        strictly_sorted(sorted_insert(s, x)),
        forall|y: u32| sorted_insert(s, x).contains(y) <==> (s.contains(y) || y == x),
    decreases s.len(),
{
    let r = sorted_insert(s, x);
    if s.len() == 0 {
        assert forall|y: u32| r.contains(y) <==> (s.contains(y) || y == x) by {
            if r.contains(y) {
                let i = choose|i: int| 0 <= i < r.len() && r[i] == y;
                assert(r[0] == x);
            }
            if y == x {
                assert(r[0] == y);
            }
            if s.contains(y) {
                let i = choose|i: int| 0 <= i < s.len() && s[i] == y;
            }
        }
    } else if x < s[0] {
        assert(r == seq![x] + s);
        assert forall|i: int, j: int| 0 <= i < j < r.len() implies r[i] < r[j] by {
            if i == 0 {
                assert(r[j] == s[j - 1]);
                if j - 1 > 0 {
                    assert(s[0] < s[j - 1]);
                }
            } else {
                assert(r[i] == s[i - 1] && r[j] == s[j - 1]);
            }
        }
        assert forall|y: u32| r.contains(y) <==> (s.contains(y) || y == x) by {
            lemma_contains_split(seq![x], s, y);
            if seq![x].contains(y) {
                let i = choose|i: int| 0 <= i < 1 && seq![x][i] == y;
                assert(seq![x][0] == x);
            }
            if y == x {
                assert(seq![x][0] == y);
            }
        }
    } else if x == s[0] {
        assert forall|y: u32| r.contains(y) <==> (s.contains(y) || y == x) by {
            if y == x {
                assert(s[0] == y);
            }
        }
    } else {
        let d = s.drop_first();
        assert(strictly_sorted(d)) by {
            assert forall|i: int, j: int| 0 <= i < j < d.len() implies d[i] < d[j] by {
                assert(d[i] == s[i + 1] && d[j] == s[j + 1]);
            }
        }
        lemma_sorted_insert(d, x);
        let rec = sorted_insert(d, x);
        assert(r == seq![s[0]] + rec);
        assert forall|k: int| 0 <= k < rec.len() implies s[0] < rec[k] by {
            assert(rec.contains(rec[k]));
            if d.contains(rec[k]) {
                let i = choose|i: int| 0 <= i < d.len() && d[i] == rec[k];
                assert(d[i] == s[i + 1]);
                assert(s[0] < s[i + 1]);
            }
        }
        assert forall|i: int, j: int| 0 <= i < j < r.len() implies r[i] < r[j] by {
            if i == 0 {
                assert(r[j] == rec[j - 1]);
            } else {
                assert(r[i] == rec[i - 1] && r[j] == rec[j - 1]);
            }
        }
        assert forall|y: u32| r.contains(y) <==> (s.contains(y) || y == x) by {
            lemma_contains_split(seq![s[0]], rec, y);
            lemma_contains_first(s, y);
            assert(seq![s[0]].contains(y) <==> s[0] == y) by {
                if seq![s[0]].contains(y) {
                    let i = choose|i: int| 0 <= i < 1 && seq![s[0]][i] == y;
                }
                if s[0] == y {
                    assert(seq![s[0]][0] == y);
                }
            }
        }
    }
}

} // verus!

verus! {

/// Fold the renumbered wires of a term list into an ascending list.
pub open spec fn insert_term_wires(
    s: Seq<u32>,
    terms: Seq<(Variable, FieldElement)>,
    shift: int,
) -> Seq<u32>
    decreases terms.len(),
{
    if terms.len() == 0 {
        s
    } else {
        insert_term_wires(
            sorted_insert(s, shifted_wire(terms[0].0, shift) as u32),
            terms.drop_first(),
            shift,
        )
    }
}

/// Fold the wires of one statement into an ascending list: a constraint
/// contributes the wires of its left, right and output combinations; other
/// statements contribute nothing.
pub open spec fn insert_statement_wires(s: Seq<u32>, stmt: Statement, shift: int) -> Seq<u32> {
    match stmt {
        Statement::Constraint(q, l, _) => insert_term_wires(
            insert_term_wires(insert_term_wires(s, q.left.0@, shift), q.right.0@, shift),
            l.0@,
            shift,
        ),
        _ => s,
    }
}

/// Fold the wires of a statement list into an ascending list.
pub open spec fn insert_wires(s: Seq<u32>, stmts: Seq<Statement>, shift: int) -> Seq<u32>
    decreases stmts.len(),
{
    if stmts.len() == 0 {
        s
    } else {
        insert_wires(insert_statement_wires(s, stmts[0], shift), stmts.drop_first(), shift)
    }
}

/// The wire table of a program: every renumbered wire referenced by a
/// constraint, together with the constant wire 0, ascending and without
/// duplicates.
pub open spec fn wire_list(stmts: Seq<Statement>, shift: int) -> Seq<u32> {
    insert_wires(seq![0u32], stmts, shift)
}

/// Whether `y` is the renumbered id of a wire referenced by `l`.
pub open spec fn lincomb_references(l: LinComb, shift: int, y: u32) -> bool {
    exists|i: int| 0 <= i < l.0@.len() && y == shifted_wire(l.0@[i].0, shift) as u32
}

/// Whether `y` is the renumbered id of a wire referenced by `s`.
pub open spec fn stmt_references(s: Statement, shift: int, y: u32) -> bool {
    match s {
        Statement::Constraint(q, l, _) => lincomb_references(q.left, shift, y)
            || lincomb_references(q.right, shift, y) || lincomb_references(l, shift, y),
        _ => false,
    }
}

proof fn lemma_insert_term_wires(s: Seq<u32>, terms: Seq<(Variable, FieldElement)>, shift: int)
    requires
        strictly_sorted(s),
    ensures
        strictly_sorted(insert_term_wires(s, terms, shift)),
        forall|y: u32|
            insert_term_wires(s, terms, shift).contains(y) <==> (s.contains(y) || (exists|i: int|
                0 <= i < terms.len() && y == shifted_wire((#[trigger] terms[i]).0, shift) as u32)),
    decreases terms.len(),
{
    if terms.len() > 0 {
        let x = shifted_wire(terms[0].0, shift) as u32;
        lemma_sorted_insert(s, x);
        lemma_insert_term_wires(sorted_insert(s, x), terms.drop_first(), shift);
        let r = insert_term_wires(s, terms, shift);
        let d = terms.drop_first();
        assert forall|y: u32|
            r.contains(y) <==> (s.contains(y) || (exists|i: int|
                0 <= i < terms.len() && y == shifted_wire((#[trigger] terms[i]).0, shift)
                    as u32)) by {
            if r.contains(y) {
                if !s.contains(y) {
                    if y == x {
                        assert(y == shifted_wire(terms[0].0, shift) as u32);
                    } else {
                        let i = choose|i: int|
                            0 <= i < d.len() && y == shifted_wire((#[trigger] d[i]).0, shift)
                                as u32;
                        assert(d[i] == terms[i + 1]);
                        assert(y == shifted_wire(terms[i + 1].0, shift) as u32);
                    }
                }
            }
            if exists|i: int|
                0 <= i < terms.len() && y == shifted_wire((#[trigger] terms[i]).0, shift) as u32 {
                let i = choose|i: int|
                    0 <= i < terms.len() && y == shifted_wire((#[trigger] terms[i]).0, shift)
                        as u32;
                if i == 0 {
                    assert(sorted_insert(s, x).contains(y));
                } else {
                    assert(d[i - 1] == terms[i]);
                    assert(y == shifted_wire((d[i - 1]).0, shift) as u32);
                }
            }
            if s.contains(y) {
                assert(sorted_insert(s, x).contains(y));
            }
        }
    }
}

proof fn lemma_insert_statement_wires(s: Seq<u32>, stmt: Statement, shift: int)
    requires
        strictly_sorted(s),
    ensures
        strictly_sorted(insert_statement_wires(s, stmt, shift)),
        forall|y: u32|
            insert_statement_wires(s, stmt, shift).contains(y) <==> (s.contains(y)
                || stmt_references(stmt, shift, y)),
{
    match stmt {
        Statement::Constraint(q, l, _) => {
            let s1 = insert_term_wires(s, q.left.0@, shift);
            let s2 = insert_term_wires(s1, q.right.0@, shift);
            lemma_insert_term_wires(s, q.left.0@, shift);
            lemma_insert_term_wires(s1, q.right.0@, shift);
            lemma_insert_term_wires(s2, l.0@, shift);
        },
        _ => {},
    }
}

proof fn lemma_insert_wires(s: Seq<u32>, stmts: Seq<Statement>, shift: int)
    requires
        strictly_sorted(s),
    ensures
        strictly_sorted(insert_wires(s, stmts, shift)),
        forall|y: u32|
            insert_wires(s, stmts, shift).contains(y) <==> (s.contains(y) || (exists|i: int|
                0 <= i < stmts.len() && stmt_references(#[trigger] stmts[i], shift, y))),
    decreases stmts.len(),
{
    if stmts.len() > 0 {
        let s1 = insert_statement_wires(s, stmts[0], shift);
        lemma_insert_statement_wires(s, stmts[0], shift);
        lemma_insert_wires(s1, stmts.drop_first(), shift);
        let r = insert_wires(s, stmts, shift);
        let d = stmts.drop_first();
        assert forall|y: u32|
            r.contains(y) <==> (s.contains(y) || (exists|i: int|
                0 <= i < stmts.len() && stmt_references(#[trigger] stmts[i], shift, y))) by {
            if r.contains(y) {
                if !s.contains(y) {
                    if stmt_references(stmts[0], shift, y) {
                    } else {
                        let i = choose|i: int|
                            0 <= i < d.len() && stmt_references(#[trigger] d[i], shift, y);
                        assert(d[i] == stmts[i + 1]);
                        assert(stmt_references(stmts[i + 1], shift, y));
                    }
                }
            }
            if exists|i: int| 0 <= i < stmts.len() && stmt_references(#[trigger] stmts[i], shift, y) {
                let i = choose|i: int|
                    0 <= i < stmts.len() && stmt_references(#[trigger] stmts[i], shift, y);
                if i == 0 {
                    assert(s1.contains(y));
                } else {
                    assert(d[i - 1] == stmts[i]);
                    assert(stmt_references(d[i - 1], shift, y));
                }
            }
            if s.contains(y) {
                assert(s1.contains(y));
            }
        }
    }
}

/// The distinct renumbered wire ids referenced across the constraints of a
/// program, counted together with the constant wire 0.
pub open spec fn referenced_wires(stmts: Seq<Statement>, shift: int) -> Set<u32> {
    Set::new(
        |y: u32|
            y == 0 || (exists|i: int|
                0 <= i < stmts.len() && stmt_references(#[trigger] stmts[i], shift, y)),
    )
}

/// Wire-set closure: the wire table is ascending and duplicate-free, holds
/// exactly the renumbered wire ids referenced across all constraints plus
/// the constant wire 0, and its length counts each such wire exactly once.
pub proof fn lemma_wire_table_closure(stmts: Seq<Statement>, shift: int)
    ensures
        strictly_sorted(wire_list(stmts, shift)),
        wire_list(stmts, shift).no_duplicates(),
        wire_list(stmts, shift).to_set() == referenced_wires(stmts, shift),
        wire_list(stmts, shift).len() == referenced_wires(stmts, shift).len(),
{
    let base = seq![0u32];
    assert(strictly_sorted(base));
    lemma_insert_wires(base, stmts, shift);
    let r = wire_list(stmts, shift);
    assert forall|y: u32| base.contains(y) <==> y == 0 by {
        if base.contains(y) {
            let i = choose|i: int| 0 <= i < 1 && base[i] == y;
        }
        if y == 0 {
            assert(base[0] == 0u32);
        }
    }
    assert forall|y: u32| r.to_set().contains(y) <==> referenced_wires(stmts, shift).contains(
        y,
    ) by {
        assert(r.to_set().contains(y) == r.contains(y));
        assert(base.contains(y) <==> y == 0);
        assert(r.contains(y) <==> (base.contains(y) || (exists|i: int|
            0 <= i < stmts.len() && stmt_references(#[trigger] stmts[i], shift, y))));
        assert(referenced_wires(stmts, shift).contains(y) == (y == 0 || (exists|i: int|
            0 <= i < stmts.len() && stmt_references(#[trigger] stmts[i], shift, y))));
    }
    assert(r.to_set() =~= referenced_wires(stmts, shift));
    assert(r.no_duplicates()) by {
        assert forall|i: int, j: int|
            0 <= i < r.len() && 0 <= j < r.len() && i != j implies r[i] != r[j] by {
            if i < j {
                assert(r[i] < r[j]);
            } else {
                assert(r[j] < r[i]);
            }
        }
    }
    r.unique_seq_to_set();
}

} // verus!

verus! {

proof fn lemma_sorted_insert_prefix(s: Seq<u32>, x: u32, i: int)
    requires
        0 <= i <= s.len(),
        forall|j: int| 0 <= j < i ==> s[j] < x,
    ensures
        sorted_insert(s, x) == s.take(i) + sorted_insert(s.skip(i), x),
    decreases i,
{
    if i == 0 {
        assert(s.skip(0) =~= s);
        assert(s.take(0) + sorted_insert(s, x) =~= sorted_insert(s, x));
    } else {
        let d = s.drop_first();
        assert(s[0] < x);
        assert forall|j: int| 0 <= j < i - 1 implies d[j] < x by {
            assert(d[j] == s[j + 1]);
        }
        lemma_sorted_insert_prefix(d, x, i - 1);
        assert(d.skip(i - 1) =~= s.skip(i));
        assert(seq![s[0]] + (d.take(i - 1) + sorted_insert(d.skip(i - 1), x)) =~= s.take(i)
            + sorted_insert(s.skip(i), x));
    }
}

/// Insert a wire id into the ascending wire table.
fn insert_wire(v: &mut Vec<u32>, x: u32)
    ensures
        final(v)@ == sorted_insert(old(v)@, x),
{
    let n = v.len();
    let mut i: usize = 0;
    while i < n && v[i] < x
        invariant
            n == v@.len(),
            i <= n,
            v@ == old(v)@,
            forall|j: int| 0 <= j < i ==> v@[j] < x,
        decreases n - i,
    {
        i = i + 1;
    }
    proof {
        lemma_sorted_insert_prefix(v@, x, i as int);
    }
    if i == n {
        v.push(x);
        proof {
            assert(old(v)@.skip(n as int) =~= Seq::<u32>::empty());
            assert(v@ =~= old(v)@.take(n as int) + sorted_insert(
                old(v)@.skip(n as int),
                x,
            ));
        }
    } else if v[i] == x {
        proof {
            assert(old(v)@.skip(i as int)[0] == x);
            assert(sorted_insert(old(v)@.skip(i as int), x) == old(v)@.skip(i as int));
            assert(v@ =~= old(v)@.take(i as int) + old(v)@.skip(i as int));
        }
    } else {
        v.insert(i, x);
        proof {
            assert(old(v)@.skip(i as int)[0] > x);
            assert(sorted_insert(old(v)@.skip(i as int), x) == seq![x] + old(v)@.skip(
                i as int,
            ));
            assert(v@ =~= old(v)@.take(i as int) + (seq![x] + old(v)@.skip(i as int)));
        }
    }
}

/// Whether every wire of a linear combination fits the flat wire space.
pub open spec fn lincomb_wires_fit(l: LinComb, shift: int) -> bool {
    forall|i: int| 0 <= i < l.0@.len() ==> wire_fits((#[trigger] l.0@[i]).0, shift)
}

/// Whether every wire of a statement fits the flat wire space.
pub open spec fn stmt_wires_fit(s: Statement, shift: int) -> bool {
    match s {
        Statement::Constraint(q, l, _) => lincomb_wires_fit(q.left, shift) && lincomb_wires_fit(
            q.right,
            shift,
        ) && lincomb_wires_fit(l, shift),
        _ => true,
    }
}

/// Fold the renumbered wires of one combination into the wire table.
fn insert_lincomb_wires(v: &mut Vec<u32>, l: &LinComb, shift: u32)
    requires
        lincomb_wires_fit(*l, shift as int),
    ensures
        final(v)@ == insert_term_wires(old(v)@, l.0@, shift as int),
{
    let n = l.0.len();
    let mut i: usize = 0;
    proof {
        assert(l.0@.skip(0) =~= l.0@);
    }
    while i < n
        invariant
            n == l.0@.len(),
            i <= n,
            lincomb_wires_fit(*l, shift as int),
            insert_term_wires(v@, l.0@.skip(i as int), shift as int) == insert_term_wires(
                old(v)@,
                l.0@,
                shift as int,
            ),
        decreases n - i,
    {
        let ghost pre = v@;
        let wire = shift_variable(&l.0[i].0, shift);
        insert_wire(v, wire);
        proof {
            assert(l.0@.skip(i as int)[0] == l.0@[i as int]);
            assert(l.0@.skip(i as int).drop_first() =~= l.0@.skip(i + 1));
            assert(wire == shifted_wire(l.0@[i as int].0, shift as int) as u32);
            assert(v@ == sorted_insert(pre, shifted_wire(l.0@[i as int].0, shift as int) as u32));
        }
        i = i + 1;
    }
    proof {
        assert(l.0@.skip(n as int) =~= Seq::<(Variable, FieldElement)>::empty());
    }
}

/// The sizing pass over the wires: renumber and collect every wire a
/// constraint references into the ascending wire table, starting from the
/// constant wire 0.
fn collect_wires(stmts: &Vec<Statement>, shift: u32) -> (v: Vec<u32>)
    requires
        forall|i: int|
            0 <= i < stmts@.len() ==> stmt_wires_fit(#[trigger] stmts@[i], shift as int),
    ensures
        v@ == wire_list(stmts@, shift as int),
{
    let mut v: Vec<u32> = Vec::new();
    v.push(0u32);
    proof {
        assert(v@ =~= seq![0u32]);
        assert(stmts@.skip(0) =~= stmts@);
    }
    let n = stmts.len();
    let mut i: usize = 0;
    while i < n
        invariant
            n == stmts@.len(),
            i <= n,
            forall|j: int|
                0 <= j < stmts@.len() ==> stmt_wires_fit(#[trigger] stmts@[j], shift as int),
            insert_wires(v@, stmts@.skip(i as int), shift as int) == wire_list(
                stmts@,
                shift as int,
            ),
        decreases n - i,
    {
        let ghost pre = v@;
        match &stmts[i] {
            Statement::Constraint(q, l, _) => {
                insert_lincomb_wires(&mut v, &q.left, shift);
                insert_lincomb_wires(&mut v, &q.right, shift);
                insert_lincomb_wires(&mut v, l, shift);
                proof {
                    assert(v@ == insert_statement_wires(pre, stmts@[i as int], shift as int));
                }
            },
            _ => {
                proof {
                    assert(v@ == insert_statement_wires(pre, stmts@[i as int], shift as int));
                }
            },
        }
        proof {
            assert(stmts@.skip(i as int)[0] == stmts@[i as int]);
            assert(stmts@.skip(i as int).drop_first() =~= stmts@.skip(i + 1));
        }
        i = i + 1;
    }
    proof {
        assert(stmts@.skip(n as int) =~= Seq::<Statement>::empty());
    }
    v
}

} // verus!

verus! {

/// The renumbering shift of a program: the width of its public section.
pub open spec fn shift_of(args: Seq<Parameter>, return_count: nat) -> int {
    return_count + count_public_inputs(args) as int
}

/// The serialized header section body: the field byte width, the modulus,
/// the wire, public-output, public-input, private-input, label and
/// constraint counts.
pub open spec fn header_bytes(
    args: Seq<Parameter>,
    return_count: nat,
    stmts: Seq<Statement>,
    modulus: Seq<u8>,
    n_wires: u32,
) -> Seq<u8> {
    u32_le_bytes(modulus.len() as u32) + modulus + u32_le_bytes(n_wires) + u32_le_bytes(
        return_count as u32,
    ) + u32_le_bytes(count_public_inputs(args) as u32) + u32_le_bytes(
        count_private_inputs(args) as u32,
    ) + u64_le_bytes(n_wires as u64) + u32_le_bytes(count_constraints(stmts) as u32)
}

/// The serialized wire-label table: each wire as eight little-endian bytes,
/// ascending; the label of a wire is the wire id itself.
pub open spec fn table_bytes(wires: Seq<u32>) -> Seq<u8>
    decreases wires.len(),
{
    if wires.len() == 0 {
        Seq::empty()
    } else {
        table_bytes(wires.drop_last()) + u64_le_bytes(wires.last() as u64)
    }
}

/// The exported file: the magic `r1cs`, the format version 1, the section
/// count 3, then the constraints section (type 2), the header section
/// (type 1, size 64) and the wire-label section (type 3), in that order,
/// all integers little-endian.
pub open spec fn r1cs_bytes(
    args: Seq<Parameter>,
    return_count: nat,
    stmts: Seq<Statement>,
    modulus: Seq<u8>,
) -> Seq<u8> {
    let shift = shift_of(args, return_count);
    let w = modulus.len();
    let wires = wire_list(stmts, shift);
    seq![0x72u8, 0x31u8, 0x63u8, 0x73u8] + u32_le_bytes(1) + u32_le_bytes(3) + u32_le_bytes(2)
        + u64_le_bytes(constraints_size(stmts, w) as u64) + constraints_bytes(stmts, shift, w)
        + u32_le_bytes(1) + u64_le_bytes(64) + header_bytes(
        args,
        return_count,
        stmts,
        modulus,
        wires.len() as u32,
    ) + u32_le_bytes(3) + u64_le_bytes((wires.len() * 8) as u64) + table_bytes(wires)
}

/// Soundness of a program for export: every count fits its field, every
/// wire fits the flat wire space, and every coefficient fits the field
/// width. A public wire beyond the public section is an internal
/// inconsistency of the upstream stages; it is excluded here, as export
/// must abort on it rather than emit a corrupt file.
pub open spec fn prog_exportable(p: Prog, f: FieldInfo) -> bool {
    let shift = shift_of(p.arguments@, p.return_count as nat);
    let w = f.spec_width();
    &&& p.return_count <= u32::MAX
    &&& shift <= u32::MAX
    &&& count_private_inputs(p.arguments@) <= u32::MAX
    &&& count_constraints(p.statements@) <= u32::MAX
    &&& w <= u32::MAX
    &&& forall|i: int|
        0 <= i < p.statements@.len() ==> stmt_exportable(#[trigger] p.statements@[i], shift, w)
    &&& wire_list(p.statements@, shift).len() <= u32::MAX
}

/// The header values computed by the sizing pass.
struct Header {
    field_size: u32,
    prime_size: Vec<u8>,
    n_wires: u32,
    n_pub_out: u32,
    n_pub_in: u32,
    n_prv_in: u32,
    n_labels: u64,
    n_constraints: u32,
}

/// Append the header section body.
fn write_header(out: &mut Vec<u8>, header: &Header)
    ensures
        final(out)@ == old(out)@ + u32_le_bytes(header.field_size) + header.prime_size@
            + u32_le_bytes(header.n_wires) + u32_le_bytes(header.n_pub_out) + u32_le_bytes(
            header.n_pub_in,
        ) + u32_le_bytes(header.n_prv_in) + u64_le_bytes(header.n_labels) + u32_le_bytes(
            header.n_constraints,
        ),
{
    push_u32_le(out, header.field_size);
    push_bytes(out, &header.prime_size);
    push_u32_le(out, header.n_wires);
    push_u32_le(out, header.n_pub_out);
    push_u32_le(out, header.n_pub_in);
    push_u32_le(out, header.n_prv_in);
    push_u64_le(out, header.n_labels);
    push_u32_le(out, header.n_constraints);
}

/// Append the wire-label table.
fn write_table(out: &mut Vec<u8>, wires: &Vec<u32>)
    ensures
        final(out)@ == old(out)@ + table_bytes(wires@),
{
    let n = wires.len();
    let mut i: usize = 0;
    while i < n
        invariant
            n == wires@.len(),
            i <= n,
            out@ == old(out)@ + table_bytes(wires@.take(i as int)),
        decreases n - i,
    {
        proof {
            assert(wires@.take(i + 1).drop_last() =~= wires@.take(i as int));
        }
        push_u64_le(out, wires[i] as u64);
        i = i + 1;
    }
    proof {
        assert(wires@.take(n as int) =~= wires@);
    }
}

/// Export a program: renumber its variables, size the constraint section
/// and the wire table in one pass over the statements, then emit the magic,
/// the version and the three sections in order. The output is a function of
/// the program and the field alone.
pub fn write_r1cs(p: &Prog, field: &FieldInfo) -> (out: Vec<u8>)
    requires
        prog_exportable(*p, *field),
    ensures
        out@ == r1cs_bytes(p.arguments@, p.return_count as nat, p.statements@, field.modulus_le@),
{
    let ghost shift_g = shift_of(p.arguments@, p.return_count as nat);
    let w = field.width();
    let n_pub_in = count_public_arguments(&p.arguments);
    let n_prv_in = p.private_input_count();
    let shift = (p.return_count as u32) + (n_pub_in as u32);
    proof {
        assert(shift as int == shift_g);
        assert forall|i: int|
            0 <= i < p.statements@.len() implies stmt_wires_fit(
            #[trigger] p.statements@[i],
            shift as int,
        ) by {
            assert(stmt_exportable(p.statements@[i], shift_g, field.spec_width()));
        }
    }
    let wires = collect_wires(&p.statements, shift);
    let mut section: Vec<u8> = Vec::new();
    write_constraints(&mut section, &p.statements, shift, w);
    proof {
        lemma_constraints_size_exact(p.statements@, shift as int, w as nat);
    }
    let mut out: Vec<u8> = Vec::new();
    out.push(0x72u8);
    out.push(0x31u8);
    out.push(0x63u8);
    out.push(0x73u8);
    push_u32_le(&mut out, 1);
    push_u32_le(&mut out, 3);
    push_u32_le(&mut out, 2);
    push_u64_le(&mut out, section.len() as u64);
    out.append(&mut section);
    push_u32_le(&mut out, 1);
    push_u64_le(&mut out, 64);
    let n_wires = wires.len();
    let n_cons = p.constraint_count();
    let header = Header {
        field_size: w as u32,
        prime_size: field.modulus_le.clone(),
        n_wires: n_wires as u32,
        n_pub_out: p.return_count as u32,
        n_pub_in: n_pub_in as u32,
        n_prv_in: n_prv_in as u32,
        n_labels: n_wires as u64,
        n_constraints: n_cons as u32,
    };
    proof {
        assert(header.prime_size@ =~= field.modulus_le@);
    }
    write_header(&mut out, &header);
    push_u32_le(&mut out, 3);
    push_u64_le(&mut out, (n_wires as u64) * 8);
    write_table(&mut out, &wires);
    proof {
        assert(out@ =~= r1cs_bytes(
            p.arguments@,
            p.return_count as nat,
            p.statements@,
            field.modulus_le@,
        ));
    }
    out
}

/// Determinism: the exported bytes are a function of the program's
/// arguments, return count, statements and field modulus alone, so
/// exporting the same program twice yields byte-identical output.
pub proof fn lemma_export_deterministic(p1: Prog, p2: Prog, f1: FieldInfo, f2: FieldInfo)
    requires
        p1.arguments@ == p2.arguments@,
        p1.return_count == p2.return_count,
        p1.statements@ == p2.statements@,
        f1.modulus_le@ == f2.modulus_le@,
    ensures
        r1cs_bytes(p1.arguments@, p1.return_count as nat, p1.statements@, f1.modulus_le@)
            == r1cs_bytes(p2.arguments@, p2.return_count as nat, p2.statements@, f2.modulus_le@),
{
}

} // verus!
