use vstd::prelude::*;

use crate::constraint::{description_text, render_binary, violation, ConstraintDescription};
use crate::domain::{Domain, DomainView};
use crate::error::{same_frames, Progress, TraceBuilder, UnifyError};
use crate::ops::equality::step_matches;
use crate::subst::{known, Outcome, Subst};
use crate::term::{int_text, push_int, term_text, Term, VarId};

verus! {

/// The operator of a ternary relation `a op b = c`.
#[derive(Debug, Clone, Copy, PartialEq, Eq, Structural)]
pub enum ArithOp {
    Sum,
    Product,
}

/// `a op b = c`.
pub struct ArithConstraint {
    pub op: ArithOp,
    pub a: Term,
    pub b: Term,
    pub c: Term,
}

/// What an inverse of the operator yields for the unknown operand.
pub enum Solved {
    /// Exactly this integer fits.
    Value(int),
    /// No integer fits.
    NoValue,
    /// Every integer fits.
    AnyValue,
}

pub open spec fn forward(op: ArithOp, x: int, y: int) -> int {
    match op {
        ArithOp::Sum => x + y,
        ArithOp::Product => x * y,
    }
}

/// The operand `w` with `forward(op, w, y) == z` (the operators commute, so
/// either operand may be the unknown one).
pub open spec fn inverse(op: ArithOp, z: int, y: int) -> Solved {
    match op {
        ArithOp::Sum => Solved::Value(z - y),
        ArithOp::Product => if y == 0 {
            if z == 0 {
                Solved::AnyValue
            } else {
                Solved::NoValue
            }
        } else if exists|q: int| is_quotient(q, y, z) {
            Solved::Value(choose|q: int| is_quotient(q, y, z))
        } else {
            Solved::NoValue
        },
    }
}

/// `q * y == z`.
pub open spec fn is_quotient(q: int, y: int, z: int) -> bool {
    q * y == z
}

pub open spec fn fits_i32(n: int) -> bool {
    i32::MIN <= n <= i32::MAX
}

/// Binds term `t` to the solved value, first writer wins.
pub open spec fn fill(s: Map<VarId, DomainView>, t: Term, v: Solved) -> Outcome {
    match v {
        Solved::AnyValue => Outcome::Stalled,
        Solved::NoValue => Outcome::Fails,
        Solved::Value(n) => if !fits_i32(n) {
            Outcome::Fails
        } else if t is Var && !s.contains_key(t->id) {
            Outcome::Made(s.insert(t->id, DomainView::Single(n as i32)))
        } else {
            Outcome::Stalled
        },
    }
}

/// The reason binding a solved value fails.
pub open spec fn fill_reason(v: Solved) -> Seq<char> {
    match v {
        Solved::NoValue => seq!['n', 'o', ' ', 'i', 'n', 't', 'e', 'g', 'e', 'r', ' ', 'v', 'a', 'l', 'u', 'e', ' ', 'f', 'i', 't', 's'],
        Solved::Value(n) => seq!['t', 'h', 'e', ' ', 'v', 'a', 'l', 'u', 'e', ' '] + int_text(n) + seq![' ', 'd', 'o', 'e', 's', ' ', 'n', 'o', 't', ' ', 'f', 'i', 't', ' ', 'i', 'n', ' ', '3', '2', ' ', 'b', 'i', 't', 's'],
        Solved::AnyValue => Seq::<char>::empty(),
    }
}

/// The reason `a op b = c` gives when its step fails.
pub open spec fn arith_reason(op: ArithOp, a: Term, b: Term, c: Term, s: Map<VarId, DomainView>) -> Seq<char> {
    match (known(s, a), known(s, b), known(s, c)) {
        (DomainView::Single(_), DomainView::Single(_), DomainView::Single(_)) => Seq::<char>::empty(),
        (DomainView::Single(x), DomainView::Single(y), _) => fill_reason(Solved::Value(forward(op, x as int, y as int))),
        (DomainView::Single(x), _, DomainView::Single(z)) => fill_reason(inverse(op, z as int, x as int)),
        (_, DomainView::Single(y), DomainView::Single(z)) => fill_reason(inverse(op, z as int, y as int)),
        _ => Seq::<char>::empty(),
    }
}

/// One propagation step of `a op b = c`: with exactly two sides known, the third follows.
pub open spec fn arith_step(op: ArithOp, a: Term, b: Term, c: Term, s: Map<VarId, DomainView>) -> Outcome {
    match (known(s, a), known(s, b), known(s, c)) {
        (DomainView::Single(_), DomainView::Single(_), DomainView::Single(_)) => Outcome::Stalled,
        (DomainView::Single(x), DomainView::Single(y), _) => fill(s, c, Solved::Value(forward(op, x as int, y as int))),
        (DomainView::Single(x), _, DomainView::Single(z)) => fill(s, b, inverse(op, z as int, x as int)),
        (_, DomainView::Single(y), DomainView::Single(z)) => fill(s, a, inverse(op, z as int, y as int)),
        _ => Outcome::Stalled,
    }
}

pub open spec fn arith_typename(op: ArithOp) -> Seq<char> {
    match op {
        ArithOp::Sum => seq!['s', 'u', 'm'],
        ArithOp::Product => seq!['p', 'r', 'o', 'd', 'u', 'c', 't'],
    }
}

/// `a + b = c` or `a * b = c`, with the terms rendered for people.
pub open spec fn arith_details(c: &ArithConstraint) -> Seq<char> {
    term_text(c.a) + match c.op {
        ArithOp::Sum => seq![' ', '+', ' '],
        ArithOp::Product => seq![' ', '*', ' '],
    } + term_text(c.b) + seq![' ', '=', ' '] + term_text(c.c)
}

/// `a op b = c` is not disproved: false only when all three have one value that disagree.
pub open spec fn arith_holds(op: ArithOp, a: Term, b: Term, c: Term, s: Map<VarId, DomainView>) -> bool {
    match (known(s, a), known(s, b), known(s, c)) {
        (DomainView::Single(x), DomainView::Single(y), DomainView::Single(z)) => forward(op, x as int, y as int) == z as int,
        _ => true,
    }
}

fn known_domain(subst: &Subst, t: &Term) -> (r: Domain)
    requires
        subst.wf(),
    ensures
        r.wf(),
        r@ == known(subst@, *t),
{
    match subst.get(t) {
        Some(d) => d,
        None => Domain::Top,
    }
}

/// The product of two `i32` values, without overflow.
fn mul_wide(x: i32, y: i32) -> (r: i64)
    ensures
        r == x as int * y as int,
        r > i64::MIN,
{
    proof {
        assert(-0x4000_0000_0000_0000 <= x as int * y as int <= 0x4000_0000_0000_0000) by (nonlinear_arith)
            requires
                -0x8000_0000 <= x <= 0x7fff_ffff,
                -0x8000_0000 <= y <= 0x7fff_ffff,
        ;
    }
    x as i64 * y as i64
}

/// The exact quotient `z / y`, if there is one.
fn exact_quotient(z: i32, y: i32) -> (r: Option<i64>)
    requires
        y != 0,
    ensures
        r matches Some(q) ==> q * y == z && q > i64::MIN,
        r is None ==> !(exists|q: int| is_quotient(q, y as int, z as int)),
{
    let uz: u64 = if z < 0 { (-(z as i64)) as u64 } else { z as u64 };
    let uy: u64 = if y < 0 { (-(y as i64)) as u64 } else { y as u64 };
    let q = uz / uy;
    let rem = uz % uy;
    proof {
        vstd::arithmetic::div_mod::lemma_fundamental_div_mod(uz as int, uy as int);
    }
    if rem != 0 {
        proof {
            if exists|w: int| is_quotient(w, y as int, z as int) {
                let w = choose|w: int| is_quotient(w, y as int, z as int);
                let aw: int = if w < 0 { -w } else { w };
                assert(aw * (uy as int) == uz as int) by (nonlinear_arith)
                    requires
                        w * y == z,
                        aw == (if w < 0 { -w } else { w }),
                        uy as int == (if y < 0 { -y } else { y as int }),
                        uz as int == (if z < 0 { -z } else { z as int }),
                ;
                vstd::arithmetic::div_mod::lemma_mod_multiples_basic(aw, uy as int);
            }
        }
        return None;
    }
    assert(q <= uz) by {
        vstd::arithmetic::div_mod::lemma_div_is_ordered_by_denominator(uz as int, 1, uy as int);
    }
    let sq: i64 = if (z < 0) != (y < 0) { -(q as i64) } else { q as i64 };
    assert(sq * y == z) by (nonlinear_arith)
        requires
            uz as int == uy as int * q as int,
            sq == (if (z < 0) != (y < 0) { -(q as int) } else { q as int }),
            uy as int == (if y < 0 { -y } else { y as int }),
            uz as int == (if z < 0 { -z } else { z as int }),
            y != 0,
    ;
    assert(sq > i64::MIN);
    Some(sq)
}

/// The exec counterpart of `inverse`, on `i64` values that fit.
fn solve_inverse(op: ArithOp, z: i32, y: i32) -> (r: (u8, i64))
    ensures
        r.0 <= 2,
        r.1 > i64::MIN,
        match inverse(op, z as int, y as int) {
            Solved::Value(n) => r.0 == 0 && r.1 == n,
            Solved::NoValue => r.0 == 1,
            Solved::AnyValue => r.0 == 2,
        },
{
    match op {
        ArithOp::Sum => (0, z as i64 - y as i64),
        ArithOp::Product => {
            if y == 0 {
                if z == 0 {
                    (2, 0)
                } else {
                    (1, 0)
                }
            } else {
                match exact_quotient(z, y) {
                    Some(q) => {
                        proof {
                            assert(is_quotient(q as int, y as int, z as int));
                            let c = choose|w: int| is_quotient(w, y as int, z as int);
                            assert(c == q) by (nonlinear_arith)
                                requires
                                    c * y == z,
                                    q * y == z,
                                    y != 0,
                            ;
                        }
                        (0, q)
                    },
                    None => (1, 0),
                }
            }
        },
    }
}

/// Binds `t` to a computed value: the exec side of `fill`.
fn fill_exec(subst: &mut Subst, t: &Term, kind: u8, n: i64) -> (r: Result<Progress, String>)
    requires
        old(subst).wf(),
        kind <= 2,
        n > i64::MIN,
    ensures
        final(subst).wf(),
        match (
            if kind == 0 {
                fill(old(subst)@, *t, Solved::Value(n as int))
            } else if kind == 1 {
                fill(old(subst)@, *t, Solved::NoValue)
            } else {
                fill(old(subst)@, *t, Solved::AnyValue)
            }
        ) {
            Outcome::Made(s) => r == Ok::<Progress, String>(Progress::Made) && final(subst)@ == s,
            Outcome::Stalled => r == Ok::<Progress, String>(Progress::Stalled) && final(subst)@
                == old(subst)@,
            Outcome::Fails => r is Err && final(subst)@ == old(subst)@,
        },
        r matches Err(e) ==> e@ == fill_reason(
            if kind == 0 {
                Solved::Value(n as int)
            } else if kind == 1 {
                Solved::NoValue
            } else {
                Solved::AnyValue
            },
        ),
{
    if kind == 2 {
        return Ok(Progress::Stalled);
    }
    if kind == 1 {
        proof {
            reveal_strlit("no integer value fits");
        }
        return Err("no integer value fits".to_string());
    }
    if n < i32::MIN as i64 || n > i32::MAX as i64 {
        proof {
            reveal_strlit("the value ");
            reveal_strlit(" does not fit in 32 bits");
        }
        let mut reason = "the value ".to_string();
        push_int(&mut reason, n);
        reason.append(" does not fit in 32 bits");
        return Err(reason);
    }
    if subst.bind(t, Domain::Single(n as i32)) {
        Ok(Progress::Made)
    } else {
        Ok(Progress::Stalled)
    }
}

impl ArithConstraint {
    /// `a + b = c`.
    pub fn sum(a: Term, b: Term, c: Term) -> (r: crate::constraint::Constraint)
        ensures
            r == crate::constraint::Constraint::Arith(ArithConstraint { op: ArithOp::Sum, a, b, c }),
    {
        crate::constraint::Constraint::Arith(ArithConstraint { op: ArithOp::Sum, a, b, c })
    }

    /// `a * b = c`.
    pub fn product(a: Term, b: Term, c: Term) -> (r: crate::constraint::Constraint)
        ensures
            r == crate::constraint::Constraint::Arith(
                ArithConstraint { op: ArithOp::Product, a, b, c },
            ),
    {
        crate::constraint::Constraint::Arith(ArithConstraint { op: ArithOp::Product, a, b, c })
    }

    pub fn hold(&self, subst: &Subst) -> (r: bool)
        requires
            subst.wf(),
        ensures
            r == arith_holds(self.op, self.a, self.b, self.c, subst@),
    {
        let da = known_domain(subst, &self.a);
        let db = known_domain(subst, &self.b);
        let dc = known_domain(subst, &self.c);
        match (da.single_value(), db.single_value(), dc.single_value()) {
            (Some(x), Some(y), Some(z)) => match self.op {
                ArithOp::Sum => x as i64 + y as i64 == z as i64,
                ArithOp::Product => mul_wide(x, y) == z as i64,
            },
            _ => true,
        }
    }

    pub fn describe(&self) -> (r: ConstraintDescription)
        ensures
            r.typename_spec() == arith_typename(self.op),
            r.terms_spec() == seq![self.a, self.b, self.c],
            r.details_spec() == arith_details(self),
    {
        proof {
            reveal_strlit("sum");
            reveal_strlit("product");
            reveal_strlit(" + ");
            reveal_strlit(" * ");
            reveal_strlit(" = ");
        }
        let terms = vec![self.a.clone(), self.b.clone(), self.c.clone()];
        assert(terms@ =~= seq![self.a, self.b, self.c]);
        let (name, op) = match self.op {
            ArithOp::Sum => ("sum", " + "),
            ArithOp::Product => ("product", " * "),
        };
        let mut details = render_binary(&self.a, op, &self.b);
        details.append(" = ");
        let c = self.c.render();
        details.append(c.as_str());
        ConstraintDescription::new(name.to_string(), terms.as_slice(), details)
    }

    /// One step of deduction: with exactly two sides known, binds the third.
    pub fn make_progress(&self, subst: &mut Subst, trace: &mut TraceBuilder) -> (r: Result<
        Progress,
        UnifyError,
    >)
        requires
            old(subst).wf(),
        ensures
            final(subst).wf(),
            final(trace)@ == old(trace)@,
            step_matches(
                arith_step(self.op, self.a, self.b, self.c, old(subst)@),
                r,
                old(subst)@,
                final(subst)@,
            ),
            r matches Err(e) ==> e matches UnifyError::Csp(c) && same_frames(c.trace_spec(), old(trace)@)
                && c.constraint_spec() == description_text(arith_typename(self.op), arith_details(self))
                && c.reason_spec() == Some(arith_reason(self.op, self.a, self.b, self.c, old(subst)@)),
    {
        let da = known_domain(subst, &self.a);
        let db = known_domain(subst, &self.b);
        let dc = known_domain(subst, &self.c);
        let step = match (da.single_value(), db.single_value(), dc.single_value()) {
            (Some(_), Some(_), Some(_)) => Ok(Progress::Stalled),
            (Some(x), Some(y), None) => {
                let n = match self.op {
                    ArithOp::Sum => x as i64 + y as i64,
                    ArithOp::Product => mul_wide(x, y),
                };
                fill_exec(subst, &self.c, 0, n)
            },
            (Some(x), None, Some(z)) => {
                let (kind, n) = solve_inverse(self.op, z, x);
                fill_exec(subst, &self.b, kind, n)
            },
            (None, Some(y), Some(z)) => {
                let (kind, n) = solve_inverse(self.op, z, y);
                fill_exec(subst, &self.a, kind, n)
            },
            _ => Ok(Progress::Stalled),
        };
        match step {
            Ok(p) => Ok(p),
            Err(reason) => Err(violation(&self.describe(), trace, reason)),
        }
    }
}

} // verus!
