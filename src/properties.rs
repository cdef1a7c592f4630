use vstd::prelude::*;

use crate::constraint::{run_round, run_solve, Constraint, RoundEnd, SolveEnd};
use crate::domain::{count_le, Domain, DomainView};
use crate::error::{Progress, UnifyError};
use crate::lattice::{lemma_meet_canonical_values, lemma_meet_commutative, lemma_refine_narrows};
use crate::ops::arith::{fill, Solved};
use crate::ops::equality::step_matches;
use crate::subst::{known, refined, Outcome};
use crate::term::{Term, VarId};

verus! {

/// Refining a term in the store never widens its domain: the new domain admits
/// no more values than the old one (`Top`, for a term with none, admits infinitely many).
pub proof fn lemma_store_refine_narrows(s: Map<VarId, DomainView>, t: Term, cur: Domain, d: Domain)
    requires
        cur.wf(),
        d.wf(),
        cur@ == known(s, t),
    ensures
        count_le(known(refined(s, t, d@), t).count(), known(s, t).count()),
        forall|v: i32| #[trigger] known(refined(s, t, d@), t).has(v) ==> known(s, t).has(v),
{
    lemma_refine_narrows(cur, d);
    if let Term::Var { id, .. } = t {
        if known(s, t).meet(d@) != known(s, t) {
            assert(refined(s, t, d@)[id] == known(s, t).meet(d@));
        }
    }
}

/// A step that reports progress leaves a store different from the one it started on.
pub proof fn lemma_made_changes(c: Constraint, s: Map<VarId, DomainView>)
    ensures
        c.step(s) matches Outcome::Made(s2) ==> s2 != s,
{
    match c {
        Constraint::Arith(a) => {
            lemma_fill_made(s, a.c);
            lemma_fill_made(s, a.b);
            lemma_fill_made(s, a.a);
        },
        _ => {},
    }
}

proof fn lemma_fill_made(s: Map<VarId, DomainView>, t: Term)
    ensures
        forall|v: Solved| #[trigger] fill(s, t, v) matches Outcome::Made(s2) ==> t is Var && s2.contains_key(t->id) && !s.contains_key(t->id),
{
}

/// A step that stalls leaves the store as it was, so the next step on it
/// stalls again.
pub proof fn lemma_stall_repeats(
    c: Constraint,
    s: Map<VarId, DomainView>,
    r: Result<Progress, UnifyError>,
    after: Map<VarId, DomainView>,
)
    requires
        c.step(s) is Stalled,
        step_matches(c.step(s), r, s, after),
    ensures
        after == s,
        r == Ok::<Progress, UnifyError>(Progress::Stalled),
        c.step(after) is Stalled,
{
}

proof fn lemma_quiet_round(cs: Seq<Constraint>, s: Map<VarId, DomainView>, i: int)
    requires
        0 <= i,
        run_round(cs, s, i, false) matches RoundEnd::Done(_, made) && !made,
    ensures
        run_round(cs, s, i, false) == RoundEnd::Done(s, false),
        forall|j: int| i <= j < cs.len() ==> (#[trigger] cs[j].step(s)) is Stalled,
    decreases cs.len() - i,
{
    if i < cs.len() {
        match cs[i].step(s) {
            Outcome::Made(s2) => {
                lemma_round_made(cs, s2, i + 1);
            },
            Outcome::Stalled => {
                lemma_quiet_round(cs, s, i + 1);
            },
            Outcome::Fails => {},
        }
    }
}

proof fn lemma_round_made(cs: Seq<Constraint>, s: Map<VarId, DomainView>, i: int)
    ensures
        run_round(cs, s, i, true) matches RoundEnd::Done(_, made) ==> made,
    decreases cs.len() - i,
{
    if 0 <= i < cs.len() {
        match cs[i].step(s) {
            Outcome::Made(s2) => lemma_round_made(cs, s2, i + 1),
            Outcome::Stalled => lemma_round_made(cs, s, i + 1),
            Outcome::Fails => {},
        }
    }
}

/// At the fixpoint a solve ends on, every constraint stalls.
pub proof fn lemma_fixpoint_stalls(cs: Seq<Constraint>, s0: Map<VarId, DomainView>, rounds: nat)
    ensures
        run_solve(cs, s0, rounds) matches SolveEnd::Fixpoint(s) ==> forall|j: int|
            0 <= j < cs.len() ==> (#[trigger] cs[j].step(s)) is Stalled,
    decreases rounds,
{
    if rounds > 0 {
        match run_round(cs, s0, 0, false) {
            RoundEnd::Done(s2, made) => {
                if made {
                    lemma_fixpoint_stalls(cs, s2, (rounds - 1) as nat);
                } else {
                    lemma_quiet_round(cs, s0, 0);
                }
            },
            RoundEnd::Failed(..) => {},
        }
    }
}

/// No stored domain is `Bottom`, and every stored value list is canonical.
pub open spec fn sound_store(s: Map<VarId, DomainView>) -> bool {
    forall|k: VarId| #[trigger] s.contains_key(k) ==> !(s[k] is Bottom) && s[k].canonical_values()
}

proof fn lemma_known_sound(s: Map<VarId, DomainView>, t: Term)
    requires
        sound_store(s),
    ensures
        known(s, t).canonical_values(),
        crate::subst::lookup(s, t) is Some ==> !(known(s, t) is Bottom),
{
    if let Term::Var { id, .. } = t {
        if s.contains_key(id) {
            assert(!(s[id] is Bottom) && s[id].canonical_values());
        }
    }
}

proof fn lemma_refined_sound(s: Map<VarId, DomainView>, t: Term, d: DomainView)
    requires
        sound_store(s),
        d.canonical_values(),
        !(known(s, t).meet(d) is Bottom),
    ensures
        sound_store(refined(s, t, d)),
{
    lemma_known_sound(s, t);
    lemma_meet_canonical_values(known(s, t), d);
}

/// A step that narrows keeps a store free of `Bottom`: an empty meet is
/// reported as a violation before it could be stored.
pub proof fn lemma_step_keeps_store_sound(c: Constraint, s: Map<VarId, DomainView>)
    requires
        sound_store(s),
    ensures
        c.step(s) matches Outcome::Made(s2) ==> sound_store(s2),
{
    match c {
        Constraint::Equality(e) => {
            let (t1, t2) = (e.t1, e.t2);
            lemma_known_sound(s, t1);
            lemma_known_sound(s, t2);
            lemma_meet_commutative(known(s, t1), known(s, t2));
            if c.step(s) matches Outcome::Made(s2) {
                if crate::subst::lookup(s, t1) is None {
                    assert(known(s, t1) == DomainView::Top);
                }
                if crate::subst::lookup(s, t2) is None {
                    assert(known(s, t2) == DomainView::Top);
                }
                if t1 is Var && t2 is Var {
                    if refined(s, t2, known(s, t1)) != s {
                        lemma_refined_sound(s, t2, known(s, t1));
                    } else {
                        lemma_refined_sound(s, t1, known(s, t2));
                    }
                } else if t1 is Var {
                    lemma_refined_sound(s, t1, known(s, t2));
                } else {
                    lemma_refined_sound(s, t2, known(s, t1));
                }
            }
        },
        Constraint::LessThan(o) => {
            lemma_known_sound(s, o.lhs);
            lemma_known_sound(s, o.rhs);
            if c.step(s) matches Outcome::Made(s2) {
                if known(s, o.lhs) is Single {
                    let a = known(s, o.lhs)->Single_0;
                    lemma_refined_sound(s, o.rhs, crate::domain::range_of((a + 1) as i32, i32::MAX));
                } else {
                    let b = known(s, o.rhs)->Single_0;
                    lemma_refined_sound(s, o.lhs, crate::domain::range_of(i32::MIN, (b - 1) as i32));
                }
            }
        },
        Constraint::GreaterThan(o) => {
            lemma_known_sound(s, o.t1);
            lemma_known_sound(s, o.t2);
            if c.step(s) matches Outcome::Made(s2) {
                if known(s, o.t2) is Single {
                    let a = known(s, o.t2)->Single_0;
                    lemma_refined_sound(s, o.t1, crate::domain::range_of((a + 1) as i32, i32::MAX));
                } else {
                    let b = known(s, o.t1)->Single_0;
                    lemma_refined_sound(s, o.t2, crate::domain::range_of(i32::MIN, (b - 1) as i32));
                }
            }
        },
        Constraint::Arith(_) => {},
    }
}

proof fn lemma_round_keeps_store_sound(cs: Seq<Constraint>, s: Map<VarId, DomainView>, i: int, made: bool)
    requires
        sound_store(s),
    ensures
        run_round(cs, s, i, made) matches RoundEnd::Done(s2, _) ==> sound_store(s2),
    decreases cs.len() - i,
{
    if 0 <= i < cs.len() {
        lemma_step_keeps_store_sound(cs[i], s);
        match cs[i].step(s) {
            Outcome::Made(s2) => lemma_round_keeps_store_sound(cs, s2, i + 1, true),
            Outcome::Stalled => lemma_round_keeps_store_sound(cs, s, i + 1, made),
            Outcome::Fails => {},
        }
    }
}

/// A solve that starts on a store free of `Bottom` ends at a fixpoint that is
/// free of `Bottom` too.
pub proof fn lemma_fixpoint_sound(cs: Seq<Constraint>, s0: Map<VarId, DomainView>, rounds: nat)
    requires
        sound_store(s0),
    ensures
        run_solve(cs, s0, rounds) matches SolveEnd::Fixpoint(s) ==> sound_store(s),
    decreases rounds,
{
    if rounds > 0 {
        lemma_round_keeps_store_sound(cs, s0, 0, false);
        match run_round(cs, s0, 0, false) {
            RoundEnd::Done(s2, made) => {
                if made {
                    lemma_fixpoint_sound(cs, s2, (rounds - 1) as nat);
                }
            },
            RoundEnd::Failed(..) => {},
        }
    }
}

} // verus!
