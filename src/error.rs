use vstd::prelude::*;

use crate::domain::Domain;
use crate::term::{Term, Val};

verus! {

/// Whether a propagation step narrowed anything.
#[derive(Debug, Clone, Copy, PartialEq, Eq, Structural)]
pub enum Progress {
    Made,
    Stalled,
}

/// One entry of a deduction chain.
#[derive(Debug)]
pub enum TraceFrame {
    /// A speculative choice of a value.
    Branched { var: Term, value: Val },
    /// A propagation step and the domains it observed.
    Constrained { constraint: String, domains: Vec<(Term, Domain)> },
    /// A speculative choice that was undone.
    Backtracked { var: Term, failed_value: Val },
}

fn copy_domains(ds: &Vec<(Term, Domain)>) -> (r: Vec<(Term, Domain)>)
    ensures
        r@ == ds@,
{
    let mut r: Vec<(Term, Domain)> = Vec::new();
    let mut i: usize = 0;
    while i < ds.len()
        invariant
            0 <= i <= ds@.len(),
            r@ == ds@.subrange(0, i as int),
        decreases ds@.len() - i,
    {
        let (t, d) = &ds[i];
        r.push((t.clone(), d.clone()));
        assert(r@ =~= ds@.subrange(0, i + 1));
        i = i + 1;
    }
    assert(r@ =~= ds@);
    r
}

/// Two frames say the same: equal fields, and equal lists of observed domains.
pub open spec fn same_frame(a: TraceFrame, b: TraceFrame) -> bool {
    match (a, b) {
        (
            TraceFrame::Constrained { constraint: c1, domains: d1 },
            TraceFrame::Constrained { constraint: c2, domains: d2 },
        ) => c1 == c2 && d1@ == d2@,
        _ => a == b,
    }
}

/// Two frame lists say the same, frame by frame.
pub open spec fn same_frames(a: Seq<TraceFrame>, b: Seq<TraceFrame>) -> bool {
    a.len() == b.len() && forall|i: int| 0 <= i < a.len() ==> #[trigger] same_frame(a[i], b[i])
}

impl Clone for TraceFrame {
    fn clone(&self) -> (r: Self)
        ensures
            same_frame(r, *self),
    {
        match self {
            TraceFrame::Branched { var, value } => TraceFrame::Branched {
                var: var.clone(),
                value: *value,
            },
            TraceFrame::Constrained { constraint, domains } => {
                let ds = copy_domains(domains);
                TraceFrame::Constrained { constraint: constraint.clone(), domains: ds }
            },
            TraceFrame::Backtracked { var, failed_value } => TraceFrame::Backtracked {
                var: var.clone(),
                failed_value: *failed_value,
            },
        }
    }
}

/// The current deduction chain, grown and shrunk in stack order.
pub struct TraceBuilder {
    frames: Vec<TraceFrame>,
}

impl View for TraceBuilder {
    type V = Seq<TraceFrame>;

    closed spec fn view(&self) -> Seq<TraceFrame> {
        self.frames@
    }
}

impl TraceBuilder {
    pub fn new() -> (r: TraceBuilder)
        ensures
            r@ == Seq::<TraceFrame>::empty(),
    {
        TraceBuilder { frames: Vec::new() }
    }

    /// Enters a deduction context.
    pub fn push(&mut self, frame: TraceFrame)
        ensures
            final(self)@ == old(self)@.push(frame),
    {
        self.frames.push(frame);
    }

    /// Leaves the innermost deduction context.
    pub fn pop(&mut self) -> (r: Option<TraceFrame>)
        ensures
            old(self)@.len() > 0 ==> r == Some(old(self)@.last()) && final(self)@
                == old(self)@.drop_last(),
            old(self)@.len() == 0 ==> r is None && final(self)@ == old(self)@,
    {
        self.frames.pop()
    }

    pub fn len(&self) -> (r: usize)
        ensures
            r == self@.len(),
    {
        self.frames.len()
    }

    /// A copy of the chain as it stands.
    pub fn snapshot(&self) -> (r: Vec<TraceFrame>)
        ensures
            same_frames(r@, self@),
    {
        let mut r: Vec<TraceFrame> = Vec::new();
        let mut i: usize = 0;
        while i < self.frames.len()
            invariant
                0 <= i <= self.frames@.len(),
                r@.len() == i,
                forall|j: int| 0 <= j < i ==> #[trigger] same_frame(r@[j], self.frames@[j]),
            decreases self.frames@.len() - i,
        {
            r.push(self.frames[i].clone());
            i = i + 1;
        }
        r
    }
}

pub open spec fn opt_text(o: Option<String>) -> Option<Seq<char>> {
    match o {
        Some(s) => Some(s@),
        None => None,
    }
}

/// `Constraint '<constraint>', failed: <reason>`, with `no reason provided` when there is none.
pub open spec fn csp_text(e: CspError) -> Seq<char> {
    seq!['C', 'o', 'n', 's', 't', 'r', 'a', 'i', 'n', 't', ' ', '\'']
        + e.constraint_spec() + seq!['\'', ',', ' ', 'f', 'a', 'i', 'l', 'e', 'd', ':', ' ']
        + match e.reason_spec() {
        Some(t) => t,
        None => seq![
            'n', 'o', ' ', 'r', 'e', 'a', 's', 'o', 'n', ' ', 'p', 'r', 'o', 'v', 'i', 'd', 'e', 'd',
        ],
    }
}

/// A constraint that proved it cannot hold: which one, the chain that led
/// there, and why.
#[derive(Debug)]
pub struct CspError {
    constraint: String,
    trace: Vec<TraceFrame>,
    reason: Option<String>,
}

impl CspError {
    pub fn new(constraint: String, trace: Vec<TraceFrame>, reason: Option<String>) -> (r: Self)
        ensures
            r.constraint_spec() == constraint@,
            r.trace_spec() == trace@,
            r.reason_spec() == opt_text(reason),
    {
        CspError { constraint, trace, reason }
    }

    pub closed spec fn constraint_spec(&self) -> Seq<char> {
        self.constraint@
    }

    pub closed spec fn trace_spec(&self) -> Seq<TraceFrame> {
        self.trace@
    }

    pub closed spec fn reason_spec(&self) -> Option<Seq<char>> {
        opt_text(self.reason)
    }

    /// The rendered description of the failing constraint.
    pub fn constraint(&self) -> (r: &str)
        ensures
            r@ == self.constraint_spec(),
    {
        self.constraint.as_str()
    }

    /// The deduction chain at the point of failure.
    pub fn trace(&self) -> (r: &Vec<TraceFrame>)
        ensures
            r@ == self.trace_spec(),
    {
        &self.trace
    }

    /// Why the constraint cannot hold.
    pub fn reason(&self) -> (r: Option<&str>)
        ensures
            match r {
                Some(t) => self.reason_spec() == Some(t@),
                None => self.reason_spec() is None,
            },
    {
        match &self.reason {
            Some(s) => Some(s.as_str()),
            None => None,
        }
    }

    /// `Constraint '<constraint>', failed: <reason>`.
    pub fn render(&self) -> (r: String)
        ensures
            r@ == csp_text(*self),
    {
        proof {
            reveal_strlit("Constraint '");
            reveal_strlit("', failed: ");
            reveal_strlit("no reason provided");
        }
        let mut s = String::new();
        s.append("Constraint '");
        s.append(self.constraint.as_str());
        s.append("', failed: ");
        match &self.reason {
            Some(t) => s.append(t.as_str()),
            None => s.append("no reason provided"),
        }
        s
    }
}

/// Why a solve failed: a constraint violation, or a fault of the solver itself.
#[derive(Debug)]
pub enum UnifyError {
    Csp(CspError),
    Solver(String),
}

impl UnifyError {
    /// The error on one line: a violation as `CspError::render` writes it, a
    /// solver fault as its message.
    pub fn render(&self) -> (r: String)
        ensures
            r@ == match self {
                UnifyError::Csp(e) => csp_text(*e),
                UnifyError::Solver(m) => m@,
            },
    {
        match self {
            UnifyError::Csp(e) => e.render(),
            UnifyError::Solver(m) => m.clone(),
        }
    }
}

impl From<CspError> for UnifyError {
    fn from(value: CspError) -> (r: Self)
        ensures
            r == UnifyError::Csp(value),
    {
        UnifyError::Csp(value)
    }
}

impl vstd::std_specs::convert::FromSpecImpl<CspError> for UnifyError {
    open spec fn obeys_from_spec() -> bool {
        true
    }

    open spec fn from_spec(v: CspError) -> UnifyError {
        UnifyError::Csp(v)
    }
}

} // verus!
