use vstd::prelude::*;

use crate::constraint::{
    binary_text, description_text, render_binary, violation, ConstraintDescription,
};
use crate::domain::{lemma_text_of_view, view_text, DomainView};
use crate::error::{same_frames, Progress, TraceBuilder, UnifyError};
use crate::subst::{known, lookup, refined, Outcome, Subst};
use crate::term::{Term, VarId};

verus! {

/// `t1 = t2`.
pub struct EqualityConstraint {
    pub t1: Term,
    pub t2: Term,
}

/// One propagation step of `t1 = t2` on store `s`.
pub open spec fn equality_step(t1: Term, t2: Term, s: Map<VarId, DomainView>) -> Outcome {
    if lookup(s, t1) is Some && lookup(s, t2) is Some && known(s, t1).meet(known(s, t2)) is Bottom {
        Outcome::Fails
    } else if t1 is Var && t2 is Var {
        let s1 = refined(s, t2, known(s, t1));
        let s2 = refined(s, t1, known(s, t2));
        if s1 != s {
            Outcome::Made(s1)
        } else if s2 != s {
            Outcome::Made(s2)
        } else {
            Outcome::Stalled
        }
    } else if t1 is Var || t2 is Var {
        let (var, val) = if t1 is Var { (t1, t2) } else { (t2, t1) };
        let s1 = refined(s, var, known(s, val));
        if s1 != s {
            Outcome::Made(s1)
        } else {
            Outcome::Stalled
        }
    } else {
        Outcome::Stalled
    }
}

/// The reason an equality gives when the two sides have no value in common.
pub open spec fn conflict_text(a: DomainView, b: DomainView) -> Seq<char> {
    seq!['c', 'o', 'n', 'f', 'l', 'i', 'c', 't', 'i', 'n', 'g', ' ', 'b', 'i', 'n', 'd', 'i', 'n', 'g', 's', ':', ' '] + view_text(a) + seq![' ', '!', '=', ' '] + view_text(b)
}

/// `t1 = t2` is not disproved: false only when both sides have one value and they differ.
pub open spec fn equality_holds(t1: Term, t2: Term, s: Map<VarId, DomainView>) -> bool {
    match (known(s, t1), known(s, t2)) {
        (DomainView::Single(x), DomainView::Single(y)) => x == y,
        _ => true,
    }
}

/// What a step that reports `r` has done, given the outcome the rules call for.
pub open spec fn step_matches(
    outcome: Outcome,
    r: Result<Progress, UnifyError>,
    before: Map<VarId, DomainView>,
    after: Map<VarId, DomainView>,
) -> bool {
    match outcome {
        Outcome::Made(s) => r == Ok::<Progress, UnifyError>(Progress::Made) && after == s,
        Outcome::Stalled => r == Ok::<Progress, UnifyError>(Progress::Stalled) && after == before,
        Outcome::Fails => r is Err && after == before,
    }
}

impl EqualityConstraint {
    /// The constraint `t1 = t2`, as an entry of a constraint list.
    pub fn boxed(t1: Term, t2: Term) -> (r: crate::constraint::Constraint)
        ensures
            r == crate::constraint::Constraint::Equality(EqualityConstraint { t1, t2 }),
    {
        crate::constraint::Constraint::Equality(EqualityConstraint { t1, t2 })
    }

    pub fn hold(&self, subst: &Subst) -> (r: bool)
        requires
            subst.wf(),
        ensures
            r == equality_holds(self.t1, self.t2, subst@),
    {
        match (subst.get(&self.t1), subst.get(&self.t2)) {
            (Some(a), Some(b)) => match (a.single_value(), b.single_value()) {
                (Some(x), Some(y)) => x == y,
                _ => true,
            },
            _ => true,
        }
    }

    pub fn describe(&self) -> (r: ConstraintDescription)
        ensures
            r.typename_spec() == seq!['e', 'q', 'u', 'a', 'l', 'i', 't', 'y'],
            r.terms_spec() == seq![self.t1, self.t2],
            r.details_spec() == binary_text(self.t1, seq![' ', '=', ' '], self.t2),
    {
        proof {
            reveal_strlit("equality");
            reveal_strlit(" = ");
        }
        let terms = vec![self.t1.clone(), self.t2.clone()];
        assert(terms@ =~= seq![self.t1, self.t2]);
        ConstraintDescription::new("equality".to_string(), terms.as_slice(),
            render_binary(&self.t1, " = ", &self.t2),
        )
    }

    /// One step of deduction: fails on an empty meet of two known domains,
    /// else copies a domain across to a side that narrows.
    pub fn make_progress(&self, subst: &mut Subst, trace: &mut TraceBuilder) -> (r: Result<
        Progress,
        UnifyError,
    >)
        requires
            old(subst).wf(),
        ensures
            final(subst).wf(),
            final(trace)@ == old(trace)@,
            step_matches(equality_step(self.t1, self.t2, old(subst)@), r, old(subst)@, final(subst)@),
            r matches Err(e) ==> e matches UnifyError::Csp(c) && same_frames(c.trace_spec(), old(trace)@)
                && c.constraint_spec() == description_text(
                seq!['e', 'q', 'u', 'a', 'l', 'i', 't', 'y'],
                binary_text(self.t1, seq![' ', '=', ' '], self.t2),
            ) && c.reason_spec() == Some(
                conflict_text(known(old(subst)@, self.t1), known(old(subst)@, self.t2)),
            ),
    {
        if let Some((a, b)) = subst.get_pair(&self.t1, &self.t2) {
            let m = a.refine(&b);
            if m.is_bottom() {
                proof {
                    lemma_text_of_view(a);
                    lemma_text_of_view(b);
                    reveal_strlit("conflicting bindings: ");
                    reveal_strlit(" != ");
                }
                let mut reason = "conflicting bindings: ".to_string();
                reason.append(a.render().as_str());
                reason.append(" != ");
                reason.append(b.render().as_str());
                return Err(violation(&self.describe(), trace, reason));
            }
        }
        match (&self.t1, &self.t2) {
            (Term::Var { .. }, Term::Var { .. }) => {
                if subst.propagate(&self.t1, &self.t2) {
                    Ok(Progress::Made)
                } else if subst.propagate(&self.t2, &self.t1) {
                    Ok(Progress::Made)
                } else {
                    Ok(Progress::Stalled)
                }
            },
            (Term::Var { .. }, Term::Val(_)) => {
                if subst.propagate(&self.t2, &self.t1) {
                    Ok(Progress::Made)
                } else {
                    Ok(Progress::Stalled)
                }
            },
            (Term::Val(_), Term::Var { .. }) => {
                if subst.propagate(&self.t1, &self.t2) {
                    Ok(Progress::Made)
                } else {
                    Ok(Progress::Stalled)
                }
            },
            _ => Ok(Progress::Stalled),
        }
    }
}

} // verus!
