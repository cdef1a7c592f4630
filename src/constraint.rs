use vstd::prelude::*;

use crate::domain::{Domain, DomainView};
use crate::error::{same_frame, same_frames, CspError, Progress, TraceBuilder, TraceFrame, UnifyError};
use crate::ops::arith::{
    arith_details, arith_holds, arith_reason, arith_step, arith_typename, ArithConstraint, ArithOp,
};
use crate::ops::compare::{less_holds, less_reason, less_step, GreaterThanConstraint, LessThanConstraint};
use crate::ops::equality::{conflict_text, equality_holds, equality_step, step_matches, EqualityConstraint};
use crate::subst::{known, lookup, Outcome, Subst};
use crate::term::{plain_term_text, term_text, Term, VarId};

verus! {

/// A constraint of one of the built-in kinds.
pub enum Constraint {
    Equality(EqualityConstraint),
    LessThan(LessThanConstraint),
    GreaterThan(GreaterThanConstraint),
    Arith(ArithConstraint),
}

impl Constraint {
    /// The terms the constraint relates, in order.
    pub open spec fn terms_spec(&self) -> Seq<Term> {
        match self {
            Constraint::Equality(e) => seq![e.t1, e.t2],
            Constraint::LessThan(c) => seq![c.lhs, c.rhs],
            Constraint::GreaterThan(c) => seq![c.t1, c.t2],
            Constraint::Arith(c) => seq![c.a, c.b, c.c],
        }
    }

    /// The relation with every term written by identity alone.
    pub open spec fn plain_text_spec(&self) -> Seq<char> {
        match self {
            Constraint::Equality(e) => plain_term_text(e.t1) + seq![' ', '=', ' '] + plain_term_text(
                e.t2,
            ),
            Constraint::LessThan(x) => plain_term_text(x.lhs) + seq![' ', '<', ' '] + plain_term_text(
                x.rhs,
            ),
            Constraint::GreaterThan(x) => plain_term_text(x.t1) + seq![' ', '>', ' '] + plain_term_text(
                x.t2,
            ),
            Constraint::Arith(x) => plain_term_text(x.a) + match x.op {
                ArithOp::Sum => seq![' ', '+', ' '],
                ArithOp::Product => seq![' ', '*', ' '],
            } + plain_term_text(x.b) + seq![' ', '=', ' '] + plain_term_text(x.c),
        }
    }

    /// The kind name the description of the constraint carries.
    pub open spec fn typename_of(&self) -> Seq<char> {
        match self {
            Constraint::Equality(_) => seq!['e', 'q', 'u', 'a', 'l', 'i', 't', 'y'],
            Constraint::LessThan(_) => seq!['l', 't'],
            Constraint::GreaterThan(_) => seq!['g', 't'],
            Constraint::Arith(x) => arith_typename(x.op),
        }
    }

    /// The relation with every term rendered for people.
    pub open spec fn details_of(&self) -> Seq<char> {
        match self {
            Constraint::Equality(e) => binary_text(e.t1, seq![' ', '=', ' '], e.t2),
            Constraint::LessThan(x) => binary_text(x.lhs, seq![' ', '<', ' '], x.rhs),
            Constraint::GreaterThan(x) => binary_text(x.t1, seq![' ', '>', ' '], x.t2),
            Constraint::Arith(x) => arith_details(x),
        }
    }

    /// The rendered description of the constraint, as its errors carry it.
    pub open spec fn describe_text(&self) -> Seq<char> {
        description_text(self.typename_of(), self.details_of())
    }

    /// The reason the constraint gives when its step on store `s` fails.
    pub open spec fn fail_reason(&self, s: Map<VarId, DomainView>) -> Seq<char> {
        match self {
            Constraint::Equality(e) => conflict_text(known(s, e.t1), known(s, e.t2)),
            Constraint::LessThan(c) => less_reason(c.lhs, c.rhs, s),
            Constraint::GreaterThan(c) => less_reason(c.t2, c.t1, s),
            Constraint::Arith(c) => arith_reason(c.op, c.a, c.b, c.c, s),
        }
    }

    /// One propagation step of the constraint on store `s`.
    pub open spec fn step(&self, s: Map<VarId, DomainView>) -> Outcome {
        match self {
            Constraint::Equality(e) => equality_step(e.t1, e.t2, s),
            Constraint::LessThan(c) => less_step(c.lhs, c.rhs, s),
            Constraint::GreaterThan(c) => less_step(c.t2, c.t1, s),
            Constraint::Arith(c) => arith_step(c.op, c.a, c.b, c.c, s),
        }
    }

    /// The constraint is not disproved by store `s`.
    pub open spec fn holds(&self, s: Map<VarId, DomainView>) -> bool {
        match self {
            Constraint::Equality(e) => equality_holds(e.t1, e.t2, s),
            Constraint::LessThan(c) => less_holds(c.lhs, c.rhs, s),
            Constraint::GreaterThan(c) => less_holds(c.t2, c.t1, s),
            Constraint::Arith(c) => arith_holds(c.op, c.a, c.b, c.c, s),
        }
    }

    /// Whether the constraint is not yet disproved: false only when fully
    /// known values violate it.
    pub fn hold(&self, subst: &Subst) -> (r: bool)
        requires
            subst.wf(),
        ensures
            r == self.holds(subst@),
    {
        match self {
            Constraint::Equality(e) => e.hold(subst),
            Constraint::LessThan(c) => c.hold(subst),
            Constraint::GreaterThan(c) => c.hold(subst),
            Constraint::Arith(c) => c.hold(subst),
        }
    }

    /// One step of deduction against the store.
    pub fn make_progress(&self, subst: &mut Subst, trace: &mut TraceBuilder) -> (r: Result<
        Progress,
        UnifyError,
    >)
        requires
            old(subst).wf(),
        ensures
            final(subst).wf(),
            final(trace)@ == old(trace)@,
            step_matches(self.step(old(subst)@), r, old(subst)@, final(subst)@),
            r matches Err(e) ==> e matches UnifyError::Csp(c) && same_frames(c.trace_spec(), old(trace)@)
                && c.constraint_spec() == self.describe_text() && c.reason_spec() == Some(
                self.fail_reason(old(subst)@),
            ),
    {
        match self {
            Constraint::Equality(e) => e.make_progress(subst, trace),
            Constraint::LessThan(c) => c.make_progress(subst, trace),
            Constraint::GreaterThan(c) => c.make_progress(subst, trace),
            Constraint::Arith(c) => c.make_progress(subst, trace),
        }
    }

    pub fn describe(&self) -> (r: ConstraintDescription)
        ensures
            r.typename_spec() == self.typename_of(),
            r.details_spec() == self.details_of(),
            r.terms_spec() == self.terms_spec(),
    {
        match self {
            Constraint::Equality(e) => e.describe(),
            Constraint::LessThan(c) => c.describe(),
            Constraint::GreaterThan(c) => c.describe(),
            Constraint::Arith(c) => c.describe(),
        }
    }

    /// The relation with each term rendered by identity alone (`#0 < #1`), so
    /// that the mention of a term can be found in it.
    pub fn plain_text(&self) -> (r: String)
        ensures
            r@ == self.plain_text_spec(),
    {
        proof {
            reveal_strlit(" = ");
            reveal_strlit(" < ");
            reveal_strlit(" > ");
            reveal_strlit(" + ");
            reveal_strlit(" * ");
        }
        let (a, op, b, c) = match self {
            Constraint::Equality(e) => (&e.t1, " = ", &e.t2, None),
            Constraint::LessThan(x) => (&x.lhs, " < ", &x.rhs, None),
            Constraint::GreaterThan(x) => (&x.t1, " > ", &x.t2, None),
            Constraint::Arith(x) => (
                &x.a,
                match x.op {
                    ArithOp::Sum => " + ",
                    ArithOp::Product => " * ",
                },
                &x.b,
                Some(&x.c),
            ),
        };
        let mut s = a.no_name();
        s.append(op);
        let t = b.no_name();
        s.append(t.as_str());
        match c {
            Some(c) => {
                s.append(" = ");
                let u = c.no_name();
                s.append(u.as_str());
            },
            None => {},
        }
        assert(s@ =~= self.plain_text_spec());
        s
    }

    /// The terms and the domains the store holds for them, where it holds one.
    fn observed(&self, subst: &Subst) -> (r: Vec<(Term, Domain)>)
        requires
            subst.wf(),
        ensures
            noted_domains(r@) == observed_in(self.terms_spec(), subst@, self.terms_spec().len() as int),
    {
        let terms = self.describe();
        let ts = terms.terms();
        let mut out: Vec<(Term, Domain)> = Vec::new();
        let mut i: usize = 0;
        while i < ts.len()
            invariant
                0 <= i <= ts@.len(),
                subst.wf(),
                ts@ == self.terms_spec(),
                noted_domains(out@) == observed_in(ts@, subst@, i as int),
            decreases ts@.len() - i,
        {
            let ghost before = out@;
            match subst.get(&ts[i]) {
                Some(d) => {
                    out.push((ts[i].clone(), d));
                    assert(noted_domains(out@) =~= noted_domains(before).push((ts@[i as int], d@)));
                },
                None => {},
            }
            i = i + 1;
        }
        out
    }
}

/// What a frame records: the relation's text and each observed term with its domain.
pub type Note = (Seq<char>, Seq<(Term, DomainView)>);

/// The observed terms of a frame, with the models of their domains.
pub open spec fn noted_domains(ds: Seq<(Term, Domain)>) -> Seq<(Term, DomainView)> {
    ds.map_values(|p: (Term, Domain)| (p.0, p.1@))
}

/// The first `n` of the terms `ts` that store `s` knows, each with what it knows.
pub open spec fn observed_in(ts: Seq<Term>, s: Map<VarId, DomainView>, n: int) -> Seq<(Term, DomainView)>
    decreases n,
{
    if n <= 0 {
        Seq::empty()
    } else {
        match lookup(s, ts[n - 1]) {
            Some(d) => observed_in(ts, s, n - 1).push((ts[n - 1], d)),
            None => observed_in(ts, s, n - 1),
        }
    }
}

/// The frame the solver records for constraint `c` on store `s`.
pub open spec fn note(c: Constraint, s: Map<VarId, DomainView>) -> Note {
    (c.plain_text_spec(), observed_in(c.terms_spec(), s, c.terms_spec().len() as int))
}

/// What a frame of the trace records (a frame of another kind records nothing).
pub open spec fn frame_note(f: TraceFrame) -> Note {
    match f {
        TraceFrame::Constrained { constraint, domains } => (constraint@, noted_domains(domains@)),
        _ => (Seq::empty(), Seq::empty()),
    }
}

pub open spec fn frame_notes(fs: Seq<TraceFrame>) -> Seq<Note> {
    fs.map_values(|f: TraceFrame| frame_note(f))
}

/// The trace after a round from constraint `i` on, starting from `acc`: each step
/// that narrows leaves a frame of the store it made, and a failing step leaves
/// a frame of the store it failed on.
pub open spec fn round_trace(cs: Seq<Constraint>, s: Map<VarId, DomainView>, i: int, acc: Seq<Note>) -> Seq<Note>
    decreases cs.len() - i,
{
    if i >= cs.len() || i < 0 {
        acc
    } else {
        match cs[i].step(s) {
            Outcome::Made(s2) => round_trace(cs, s2, i + 1, acc.push(note(cs[i], s2))),
            Outcome::Stalled => round_trace(cs, s, i + 1, acc),
            Outcome::Fails => acc.push(note(cs[i], s)),
        }
    }
}

/// The trace over the rounds of a solve, as `run_solve` runs them.
pub open spec fn solve_trace(cs: Seq<Constraint>, s: Map<VarId, DomainView>, rounds: nat, acc: Seq<Note>) -> Seq<Note>
    decreases rounds,
{
    if rounds == 0 {
        acc
    } else {
        match run_round(cs, s, 0, false) {
            RoundEnd::Done(s2, made) => if made {
                solve_trace(cs, s2, (rounds - 1) as nat, round_trace(cs, s, 0, acc))
            } else {
                round_trace(cs, s, 0, acc)
            },
            RoundEnd::Failed(..) => round_trace(cs, s, 0, acc),
        }
    }
}

proof fn lemma_same_frames_notes(a: Seq<TraceFrame>, b: Seq<TraceFrame>)
    requires
        same_frames(a, b),
    ensures
        frame_notes(a) == frame_notes(b),
{
    assert forall|i: int| 0 <= i < a.len() implies frame_notes(a)[i] == frame_notes(b)[i] by {
        assert(same_frame(a[i], b[i]));
    }
    assert(frame_notes(a) =~= frame_notes(b));
}

/// How a round that starts at constraint `i` ends: every constraint from `i`
/// on is asked once, in order.
pub enum RoundEnd {
    /// All were asked; the store, and whether any narrowed it.
    Done(Map<VarId, DomainView>, bool),
    /// The constraint at this position failed, on this store.
    Failed(Map<VarId, DomainView>, int),
}

pub open spec fn run_round(cs: Seq<Constraint>, s: Map<VarId, DomainView>, i: int, made: bool) -> RoundEnd
    decreases cs.len() - i,
{
    if i >= cs.len() || i < 0 {
        RoundEnd::Done(s, made)
    } else {
        match cs[i].step(s) {
            Outcome::Made(s2) => run_round(cs, s2, i + 1, true),
            Outcome::Stalled => run_round(cs, s, i + 1, made),
            Outcome::Fails => RoundEnd::Failed(s, i),
        }
    }
}

/// How a solve ends, and on which store.
pub enum SolveEnd {
    /// A round narrowed nothing.
    Fixpoint(Map<VarId, DomainView>),
    /// The constraint at this position proved it cannot hold.
    Violation(Map<VarId, DomainView>, int),
    /// The round limit was reached.
    Fault(Map<VarId, DomainView>),
}

/// Rounds until a fixpoint, a violation, or `rounds` rounds that all narrowed something.
pub open spec fn run_solve(cs: Seq<Constraint>, s: Map<VarId, DomainView>, rounds: nat) -> SolveEnd
    decreases rounds,
{
    if rounds == 0 {
        SolveEnd::Fault(s)
    } else {
        match run_round(cs, s, 0, false) {
            RoundEnd::Failed(s2, i) => SolveEnd::Violation(s2, i),
            RoundEnd::Done(s2, made) => if made {
                run_solve(cs, s2, (rounds - 1) as nat)
            } else {
                SolveEnd::Fixpoint(s2)
            },
        }
    }
}

/// The positions of the first `n` constraints that `s` disproves.
pub open spec fn disproved(cs: Seq<Constraint>, s: Map<VarId, DomainView>, n: int) -> Seq<usize>
    decreases n,
{
    if n <= 0 {
        Seq::<usize>::empty()
    } else if !cs[n - 1].holds(s) {
        disproved(cs, s, n - 1).push((n - 1) as usize)
    } else {
        disproved(cs, s, n - 1)
    }
}

/// The most rounds a solve runs.
pub const MAX_ROUNDS: usize = 100;

/// An ordered list of constraints, solved together.
pub struct Constraints(Vec<Constraint>);

impl View for Constraints {
    type V = Seq<Constraint>;

    closed spec fn view(&self) -> Seq<Constraint> {
        self.0@
    }
}

impl Constraints {
    pub fn new(constraints: Vec<Constraint>) -> (r: Constraints)
        ensures
            r@ == constraints@,
    {
        Constraints(constraints)
    }

    /// Propagates to a fixpoint: rounds in which each constraint, in order, takes
    /// one step, until a round narrows nothing. Stops at the first violation,
    /// and with a solver error after `MAX_ROUNDS` rounds that all narrowed.
    /// At a fixpoint, with `check`, lists the constraints that the final store
    /// disproves.
    pub fn solve(&self, subst: &mut Subst, check: bool) -> (r: Result<Vec<usize>, UnifyError>)
        requires
            old(subst).wf(),
        ensures
            final(subst).wf(),
            match run_solve(self@, old(subst)@, MAX_ROUNDS as nat) {
                SolveEnd::Fixpoint(s) => final(subst)@ == s && (r matches Ok(v) && v@ == if check {
                    disproved(self@, s, self@.len() as int)
                } else {
                    Seq::<usize>::empty()
                }),
                SolveEnd::Violation(s, i) => final(subst)@ == s && 0 <= i < self@.len() && (r matches Err(
                    UnifyError::Csp(e),
                ) && e.constraint_spec() == self@[i].describe_text() && e.reason_spec() == Some(
                    self@[i].fail_reason(s),
                ) && frame_notes(e.trace_spec()) == solve_trace(
                    self@,
                    old(subst)@,
                    MAX_ROUNDS as nat,
                    Seq::empty(),
                )),
                SolveEnd::Fault(s) => final(subst)@ == s && (r matches Err(UnifyError::Solver(_))),
            },
    {
        let mut trace = TraceBuilder::new();
        let ghost start = subst@;
        assert(frame_notes(trace@) =~= Seq::<Note>::empty());
        let mut rounds: usize = 0;
        while rounds < MAX_ROUNDS
            invariant
                0 <= rounds <= MAX_ROUNDS,
                subst.wf(),
                start == old(subst)@,
                run_solve(self@, subst@, (MAX_ROUNDS - rounds) as nat) == run_solve(
                    self@,
                    start,
                    MAX_ROUNDS as nat,
                ),
                solve_trace(self@, subst@, (MAX_ROUNDS - rounds) as nat, frame_notes(trace@))
                    == solve_trace(self@, start, MAX_ROUNDS as nat, Seq::empty()),
            decreases MAX_ROUNDS - rounds,
        {
            let ghost round_start = subst@;
            let ghost round_acc = frame_notes(trace@);
            let mut made = false;
            let mut i: usize = 0;
            while i < self.0.len()
                invariant
                    0 <= i <= self.0@.len(),
                    subst.wf(),
                    rounds < MAX_ROUNDS,
                    start == old(subst)@,
                    run_solve(self@, round_start, (MAX_ROUNDS - rounds) as nat) == run_solve(
                        self@,
                        start,
                        MAX_ROUNDS as nat,
                    ),
                    run_round(self@, subst@, i as int, made) == run_round(
                        self@,
                        round_start,
                        0,
                        false,
                    ),
                    solve_trace(self@, round_start, (MAX_ROUNDS - rounds) as nat, round_acc)
                        == solve_trace(self@, start, MAX_ROUNDS as nat, Seq::empty()),
                    round_trace(self@, subst@, i as int, frame_notes(trace@)) == round_trace(
                        self@,
                        round_start,
                        0,
                        round_acc,
                    ),
                decreases self.0@.len() - i,
            {
                let c = &self.0[i];
                let frame = TraceFrame::Constrained {
                    constraint: c.plain_text(),
                    domains: c.observed(subst),
                };
                let ghost notes_before = frame_notes(trace@);
                trace.push(frame);
                let ghost pushed = trace@;
                assert(frame_notes(pushed) =~= notes_before.push(note(*c, subst@)));
                let step = c.make_progress(subst, &mut trace);
                trace.pop();
                assert(frame_notes(trace@) =~= notes_before);
                match step {
                    Err(e) => {
                        proof {
                            lemma_same_frames_notes(e->Csp_0.trace_spec(), pushed);
                        }
                        assert(run_round(self@, round_start, 0, false) == RoundEnd::Failed(
                            subst@,
                            i as int,
                        ));
                        assert(run_solve(self@, round_start, (MAX_ROUNDS - rounds) as nat)
                            == SolveEnd::Violation(subst@, i as int));
                        return Err(e);
                    },
                    Ok(Progress::Made) => {
                        made = true;
                        let after = TraceFrame::Constrained {
                            constraint: c.plain_text(),
                            domains: c.observed(subst),
                        };
                        trace.push(after);
                        assert(frame_notes(trace@) =~= notes_before.push(note(*c, subst@)));
                    },
                    Ok(Progress::Stalled) => {},
                }
                i = i + 1;
            }
            assert(run_round(self@, round_start, 0, false) == RoundEnd::Done(subst@, made));
            if !made {
                assert(run_solve(self@, round_start, (MAX_ROUNDS - rounds) as nat)
                    == SolveEnd::Fixpoint(subst@));
                let failing = if check {
                    self.disproved_by(subst)
                } else {
                    Vec::new()
                };
                assert(!check ==> failing@ =~= Seq::<usize>::empty());
                return Ok(failing);
            }
            rounds = rounds + 1;
        }
        proof {
            reveal_strlit("round limit reached");
        }
        Err(UnifyError::Solver("round limit reached".to_string()))
    }

    /// The positions of the constraints that the store disproves.
    pub fn disproved_by(&self, subst: &Subst) -> (r: Vec<usize>)
        requires
            subst.wf(),
        ensures
            r@ == disproved(self@, subst@, self@.len() as int),
    {
        let mut out: Vec<usize> = Vec::new();
        let mut i: usize = 0;
        while i < self.0.len()
            invariant
                0 <= i <= self.0@.len(),
                subst.wf(),
                out@ == disproved(self@, subst@, i as int),
            decreases self.0@.len() - i,
        {
            if !self.0[i].hold(subst) {
                out.push(i);
            }
            i = i + 1;
        }
        out
    }
}

/// A snapshot of a constraint for diagnostics: its kind, its terms and a
/// rendering for people.
#[derive(Debug)]
pub struct ConstraintDescription {
    typename: String,
    terms: Vec<Term>,
    details: String,
}

impl ConstraintDescription {
    pub fn new(typename: String, terms: &[Term], details: String) -> (r: Self)
        ensures
            r.typename_spec() == typename@,
            r.terms_spec() == terms@,
            r.details_spec() == details@,
    {
        let mut owned: Vec<Term> = Vec::new();
        let mut i: usize = 0;
        while i < terms.len()
            invariant
                0 <= i <= terms@.len(),
                owned@ == terms@.subrange(0, i as int),
            decreases terms@.len() - i,
        {
            owned.push(terms[i].clone());
            assert(owned@ =~= terms@.subrange(0, i + 1));
            i = i + 1;
        }
        assert(owned@ =~= terms@);
        ConstraintDescription { typename, terms: owned, details }
    }

    pub closed spec fn typename_spec(&self) -> Seq<char> {
        self.typename@
    }

    pub closed spec fn terms_spec(&self) -> Seq<Term> {
        self.terms@
    }

    pub closed spec fn details_spec(&self) -> Seq<char> {
        self.details@
    }

    pub fn typename(&self) -> (r: &str)
        ensures
            r@ == self.typename_spec(),
    {
        self.typename.as_str()
    }

    pub fn terms(&self) -> (r: &Vec<Term>)
        ensures
            r@ == self.terms_spec(),
    {
        &self.terms
    }

    pub fn details(&self) -> (r: &str)
        ensures
            r@ == self.details_spec(),
    {
        self.details.as_str()
    }

    /// `constraint <typename>: <details>`.
    pub fn render(&self) -> (r: String)
        ensures
            r@ == description_text(self.typename_spec(), self.details_spec()),
    {
        proof {
            reveal_strlit("constraint ");
            reveal_strlit(": ");
        }
        let mut s = String::new();
        s.append("constraint ");
        s.append(self.typename.as_str());
        s.append(": ");
        s.append(self.details.as_str());
        s
    }
}

pub open spec fn description_text(typename: Seq<char>, details: Seq<char>) -> Seq<char> {
    seq!['c', 'o', 'n', 's', 't', 'r', 'a', 'i', 'n', 't', ' '] + typename + seq![':', ' ']
        + details
}

/// `<a><op><b>`, with both terms rendered for people.
pub open spec fn binary_text(a: Term, op: Seq<char>, b: Term) -> Seq<char> {
    term_text(a) + op + term_text(b)
}

/// Renders two terms around an operator.
pub fn render_binary(a: &Term, op: &str, b: &Term) -> (r: String)
    ensures
        r@ == binary_text(*a, op@, *b),
{
    let mut s = a.render();
    s.append(op);
    let t = b.render();
    s.append(t.as_str());
    s
}

/// The error a constraint reports when it cannot hold: its rendered
/// description, the chain so far and the reason.
pub fn violation(description: &ConstraintDescription, trace: &TraceBuilder, reason: String) -> (r:
    UnifyError)
    ensures
        r matches UnifyError::Csp(e) && e.constraint_spec() == description_text(
            description.typename_spec(),
            description.details_spec(),
        ) && same_frames(e.trace_spec(), trace@) && e.reason_spec() == Some(reason@),
{
    UnifyError::Csp(CspError::new(description.render(), trace.snapshot(), Some(reason)))
}

} // verus!
