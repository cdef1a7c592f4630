use vstd::prelude::*;

use crate::constraint::{
    binary_text, description_text, render_binary, violation, ConstraintDescription,
};
use crate::domain::{lemma_text_of_view, range_of, view_text, Domain, DomainView};
use crate::error::{same_frames, Progress, TraceBuilder, UnifyError};
use crate::ops::equality::step_matches;
use crate::subst::{known, refined, Outcome, Subst};
use crate::term::{int_text, push_int, Term, VarId};

verus! {

/// `lhs < rhs`.
pub struct LessThanConstraint {
    pub lhs: Term,
    pub rhs: Term,
}

/// `t1 > t2`, the mirror of `t2 < t1`.
pub struct GreaterThanConstraint {
    pub t1: Term,
    pub t2: Term,
}

/// One propagation step of `lo < hi` on store `s`.
pub open spec fn less_step(lo: Term, hi: Term, s: Map<VarId, DomainView>) -> Outcome {
    match (known(s, lo), known(s, hi)) {
        (DomainView::Single(a), DomainView::Single(b)) => if a < b {
            Outcome::Stalled
        } else {
            Outcome::Fails
        },
        (DomainView::Single(a), dh) => if a == i32::MAX {
            Outcome::Fails
        } else {
            narrow_step(hi, dh, range_of((a + 1) as i32, i32::MAX), s)
        },
        (dl, DomainView::Single(b)) => if b == i32::MIN {
            Outcome::Fails
        } else {
            narrow_step(lo, dl, range_of(i32::MIN, (b - 1) as i32), s)
        },
        _ => Outcome::Stalled,
    }
}

/// Meets term `t`, now known as `d`, with `bound`; fails where nothing is left.
pub open spec fn narrow_step(t: Term, d: DomainView, bound: DomainView, s: Map<VarId, DomainView>) -> Outcome {
    if d.meet(bound) is Bottom {
        Outcome::Fails
    } else if refined(s, t, bound) != s {
        Outcome::Made(refined(s, t, bound))
    } else {
        Outcome::Stalled
    }
}

/// The reason narrowing `d` to `bound` fails.
pub open spec fn narrow_reason(d: DomainView, bound: DomainView) -> Seq<char> {
    seq!['n', 'o', ' ', 'v', 'a', 'l', 'u', 'e', ' ', 'o', 'f', ' '] + view_text(d) + seq![' ', 'l', 'i', 'e', 's', ' ', 'i', 'n', ' '] + view_text(bound)
}

/// The reason `lo < hi` gives when its step fails.
pub open spec fn less_reason(lo: Term, hi: Term, s: Map<VarId, DomainView>) -> Seq<char> {
    match (known(s, lo), known(s, hi)) {
        (DomainView::Single(a), DomainView::Single(b)) => int_text(a as int) + seq![' ', '<', ' '] + int_text(
            b as int,
        ) + seq![' ', 'f', 'a', 'i', 'l', 'e', 'd'],
        (DomainView::Single(a), dh) => if a == i32::MAX {
            seq!['n', 'o', ' ', 'v', 'a', 'l', 'u', 'e', ' ', 'l', 'i', 'e', 's', ' ', 'a', 'b', 'o', 'v', 'e', ' '] + int_text(a as int)
        } else {
            narrow_reason(dh, range_of((a + 1) as i32, i32::MAX))
        },
        (dl, DomainView::Single(b)) => if b == i32::MIN {
            seq!['n', 'o', ' ', 'v', 'a', 'l', 'u', 'e', ' ', 'l', 'i', 'e', 's', ' ', 'b', 'e', 'l', 'o', 'w', ' '] + int_text(b as int)
        } else {
            narrow_reason(dl, range_of(i32::MIN, (b - 1) as i32))
        },
        _ => Seq::<char>::empty(),
    }
}

/// `lo < hi` is not disproved: false only when both sides have one value out of order.
pub open spec fn less_holds(lo: Term, hi: Term, s: Map<VarId, DomainView>) -> bool {
    match (known(s, lo), known(s, hi)) {
        (DomainView::Single(a), DomainView::Single(b)) => a < b,
        _ => true,
    }
}

/// What `order_progress` reports for the outcome the rules call for.
pub open spec fn order_matches(
    outcome: Outcome,
    r: Result<Progress, String>,
    before: Map<VarId, DomainView>,
    after: Map<VarId, DomainView>,
) -> bool {
    match outcome {
        Outcome::Made(s) => r == Ok::<Progress, String>(Progress::Made) && after == s,
        Outcome::Stalled => r == Ok::<Progress, String>(Progress::Stalled) && after == before,
        Outcome::Fails => r is Err && after == before,
    }
}

fn known_domain(subst: &Subst, t: &Term) -> (r: Domain)
    requires
        subst.wf(),
    ensures
        r.wf(),
        r@ == known(subst@, *t),
{
    match subst.get(t) {
        Some(d) => d,
        None => Domain::Top,
    }
}

/// Narrows term `t` (known as `d`) to `bound`, or gives the reason it cannot.
fn narrow(subst: &mut Subst, t: &Term, d: &Domain, bound: &Domain) -> (r: Result<Progress, String>)
    requires
        old(subst).wf(),
        d.wf(),
        bound.wf(),
        d@ == known(old(subst)@, *t),
    ensures
        final(subst).wf(),
        order_matches(narrow_step(*t, d@, bound@, old(subst)@), r, old(subst)@, final(subst)@),
        r matches Err(e) ==> e@ == narrow_reason(d@, bound@),
{
    let m = d.refine(bound);
    if m.is_bottom() {
        proof {
            lemma_text_of_view(*d);
            lemma_text_of_view(*bound);
            reveal_strlit("no value of ");
            reveal_strlit(" lies in ");
        }
        let mut reason = "no value of ".to_string();
        reason.append(d.render().as_str());
        reason.append(" lies in ");
        reason.append(bound.render().as_str());
        return Err(reason);
    }
    if subst.refine(t, bound) {
        Ok(Progress::Made)
    } else {
        Ok(Progress::Stalled)
    }
}

/// One step of `lo < hi`: checks two known values, or bounds the unknown side.
fn order_progress(lo: &Term, hi: &Term, subst: &mut Subst) -> (r: Result<Progress, String>)
    requires
        old(subst).wf(),
    ensures
        final(subst).wf(),
        order_matches(less_step(*lo, *hi, old(subst)@), r, old(subst)@, final(subst)@),
        r matches Err(e) ==> e@ == less_reason(*lo, *hi, old(subst)@),
{
    let dl = known_domain(subst, lo);
    let dh = known_domain(subst, hi);
    match (dl.single_value(), dh.single_value()) {
        (Some(a), Some(b)) => {
            if a < b {
                Ok(Progress::Stalled)
            } else {
                proof {
                    reveal_strlit(" < ");
                    reveal_strlit(" failed");
                }
                let mut reason = String::new();
                push_int(&mut reason, a as i64);
                reason.append(" < ");
                push_int(&mut reason, b as i64);
                reason.append(" failed");
                Err(reason)
            }
        },
        (Some(a), None) => {
            if a == i32::MAX {
                proof {
                    reveal_strlit("no value lies above ");
                }
                let mut reason = "no value lies above ".to_string();
                push_int(&mut reason, a as i64);
                Err(reason)
            } else {
                let bound = Domain::range(a + 1, i32::MAX);
                narrow(subst, hi, &dh, &bound)
            }
        },
        (None, Some(b)) => {
            if b == i32::MIN {
                proof {
                    reveal_strlit("no value lies below ");
                }
                let mut reason = "no value lies below ".to_string();
                push_int(&mut reason, b as i64);
                Err(reason)
            } else {
                let bound = Domain::range(i32::MIN, b - 1);
                narrow(subst, lo, &dl, &bound)
            }
        },
        (None, None) => Ok(Progress::Stalled),
    }
}

impl LessThanConstraint {
    /// The constraint `lhs < rhs`, as an entry of a constraint list.
    pub fn boxed(lhs: Term, rhs: Term) -> (r: crate::constraint::Constraint)
        ensures
            r == crate::constraint::Constraint::LessThan(LessThanConstraint { lhs, rhs }),
    {
        crate::constraint::Constraint::LessThan(LessThanConstraint { lhs, rhs })
    }

    pub fn hold(&self, subst: &Subst) -> (r: bool)
        requires
            subst.wf(),
        ensures
            r == less_holds(self.lhs, self.rhs, subst@),
    {
        let a = known_domain(subst, &self.lhs);
        let b = known_domain(subst, &self.rhs);
        match (a.single_value(), b.single_value()) {
            (Some(x), Some(y)) => x < y,
            _ => true,
        }
    }

    pub fn describe(&self) -> (r: ConstraintDescription)
        ensures
            r.typename_spec() == seq!['l', 't'],
            r.terms_spec() == seq![self.lhs, self.rhs],
            r.details_spec() == binary_text(self.lhs, seq![' ', '<', ' '], self.rhs),
    {
        proof {
            reveal_strlit("lt");
            reveal_strlit(" < ");
        }
        let terms = vec![self.lhs.clone(), self.rhs.clone()];
        assert(terms@ =~= seq![self.lhs, self.rhs]);
        ConstraintDescription::new("lt".to_string(), terms.as_slice(), render_binary(&self.lhs, " < ", &self.rhs))
    }

    /// One step of deduction: a known side bounds the other one.
    pub fn make_progress(&self, subst: &mut Subst, trace: &mut TraceBuilder) -> (r: Result<
        Progress,
        UnifyError,
    >)
        requires
            old(subst).wf(),
        ensures
            final(subst).wf(),
            final(trace)@ == old(trace)@,
            step_matches(less_step(self.lhs, self.rhs, old(subst)@), r, old(subst)@, final(subst)@),
            r matches Err(e) ==> e matches UnifyError::Csp(c) && same_frames(c.trace_spec(), old(trace)@)
                && c.constraint_spec() == description_text(
                seq!['l', 't'],
                binary_text(self.lhs, seq![' ', '<', ' '], self.rhs),
            ) && c.reason_spec() == Some(less_reason(self.lhs, self.rhs, old(subst)@)),
    {
        match order_progress(&self.lhs, &self.rhs, subst) {
            Ok(p) => Ok(p),
            Err(reason) => Err(violation(&self.describe(), trace, reason)),
        }
    }
}

impl GreaterThanConstraint {
    /// The constraint `t1 > t2`, as an entry of a constraint list.
    pub fn boxed(t1: Term, t2: Term) -> (r: crate::constraint::Constraint)
        ensures
            r == crate::constraint::Constraint::GreaterThan(GreaterThanConstraint { t1, t2 }),
    {
        crate::constraint::Constraint::GreaterThan(GreaterThanConstraint { t1, t2 })
    }

    pub fn hold(&self, subst: &Subst) -> (r: bool)
        requires
            subst.wf(),
        ensures
            r == less_holds(self.t2, self.t1, subst@),
    {
        let a = known_domain(subst, &self.t2);
        let b = known_domain(subst, &self.t1);
        match (a.single_value(), b.single_value()) {
            (Some(x), Some(y)) => x < y,
            _ => true,
        }
    }

    pub fn describe(&self) -> (r: ConstraintDescription)
        ensures
            r.typename_spec() == seq!['g', 't'],
            r.terms_spec() == seq![self.t1, self.t2],
            r.details_spec() == binary_text(self.t1, seq![' ', '>', ' '], self.t2),
    {
        proof {
            reveal_strlit("gt");
            reveal_strlit(" > ");
        }
        let terms = vec![self.t1.clone(), self.t2.clone()];
        assert(terms@ =~= seq![self.t1, self.t2]);
        ConstraintDescription::new("gt".to_string(), terms.as_slice(), render_binary(&self.t1, " > ", &self.t2))
    }

    /// One step of deduction, as for `t2 < t1`.
    pub fn make_progress(&self, subst: &mut Subst, trace: &mut TraceBuilder) -> (r: Result<
        Progress,
        UnifyError,
    >)
        requires
            old(subst).wf(),
        ensures
            final(subst).wf(),
            final(trace)@ == old(trace)@,
            step_matches(less_step(self.t2, self.t1, old(subst)@), r, old(subst)@, final(subst)@),
            r matches Err(e) ==> e matches UnifyError::Csp(c) && same_frames(c.trace_spec(), old(trace)@)
                && c.constraint_spec() == description_text(
                seq!['g', 't'],
                binary_text(self.t1, seq![' ', '>', ' '], self.t2),
            ) && c.reason_spec() == Some(less_reason(self.t2, self.t1, old(subst)@)),
    {
        match order_progress(&self.t2, &self.t1, subst) {
            Ok(p) => Ok(p),
            Err(reason) => Err(violation(&self.describe(), trace, reason)),
        }
    }
}

} // verus!
