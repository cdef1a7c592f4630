use csp_shape::domain::Domain;
use csp_shape::error::{CspError, TraceBuilder, TraceFrame, UnifyError};
use csp_shape::subst::Subst;
use csp_shape::term::{Term, VarGen};

#[test]
fn fresh_ids_increase() {
    let mut g = VarGen::new();
    let a = g.fresh(Some("a".to_string()));
    let b = g.fresh(None);
    match (&a, &b) {
        (Term::Var { id: x, .. }, Term::Var { id: y, .. }) => {
            assert_eq!(*x, 0);
            assert_eq!(*y, 1);
        }
        _ => panic!("fresh gives variables"),
    }
    let mut d = VarGen::default();
    assert!(matches!(d.fresh(None), Term::Var { id: 0, .. }));
}

#[test]
fn labels_do_not_affect_equality() {
    let named = Term::Var { name: Some("x".to_string()), id: 3 };
    let plain = Term::var(3);
    assert!(named == plain);
    assert!(Term::var(3) != Term::var(4));
    assert!(Term::Val(3) != Term::var(3));
    assert!(Term::Val(3) == Term::Val(3));
}

#[test]
fn term_rendering() {
    let named = Term::Var { name: Some("x".to_string()), id: 3 };
    assert_eq!(named.no_name(), "#3");
    assert_eq!(named.render(), "3 (named: x)");
    assert_eq!(Term::var(12).render(), "12");
    assert_eq!(Term::Val(-7).no_name(), "-7");
    assert_eq!(Term::Val(0).render(), "0");
}

#[test]
fn bind_is_first_writer_wins() {
    let mut s = Subst::new();
    let x = Term::var(0);
    assert!(s.bind(&x, Domain::Single(1)));
    assert!(!s.bind(&x, Domain::Single(2)));
    assert!(matches!(s.get(&x), Some(Domain::Single(1))));
    assert!(!s.bind(&Term::Val(4), Domain::Single(4)));
}

#[test]
fn get_reads_literals_and_absence() {
    let s = Subst::new();
    assert!(matches!(s.get(&Term::Val(8)), Some(Domain::Single(8))));
    assert!(s.get(&Term::var(0)).is_none());
    assert!(s.get_pair(&Term::Val(1), &Term::var(0)).is_none());
    assert!(s.get_pair(&Term::Val(1), &Term::Val(2)).is_some());
}

#[test]
fn refine_reports_change_only_when_narrower() {
    let mut s = Subst::new();
    let x = Term::var(0);
    assert!(!s.refine(&x, &Domain::Top));
    assert!(s.get(&x).is_none());
    assert!(s.refine(&x, &Domain::Range { min: 0, max: 9 }));
    assert!(!s.refine(&x, &Domain::Range { min: -5, max: 20 }));
    assert!(s.refine(&x, &Domain::Range { min: 5, max: 20 }));
    assert!(matches!(s.get(&x), Some(Domain::Range { min: 5, max: 9 })));
    assert!(s.refine(&x, &Domain::Single(12)));
    assert!(s.get(&x).unwrap().is_bottom());
}

#[test]
fn propagate_copies_a_domain() {
    let mut s = Subst::new();
    let x = Term::var(0);
    let y = Term::var(1);
    assert!(!s.propagate(&x, &y));
    assert!(s.propagate(&Term::Val(4), &x));
    assert!(s.propagate(&x, &y));
    assert!(matches!(s.get_var(1), Some(Domain::Single(4))));
}

#[test]
fn trace_is_a_stack() {
    let mut t = TraceBuilder::new();
    t.push(TraceFrame::Branched { var: Term::var(0), value: 1 });
    t.push(TraceFrame::Backtracked { var: Term::var(0), failed_value: 1 });
    assert_eq!(t.len(), 2);
    assert!(matches!(t.pop(), Some(TraceFrame::Backtracked { failed_value: 1, .. })));
    assert_eq!(t.snapshot().len(), 1);
    assert!(t.pop().is_some());
    assert!(t.pop().is_none());
}

#[test]
fn errors_render() {
    let e = CspError::new("constraint lt: 0 < 1".to_string(), Vec::new(), Some("5 < 3 failed".to_string()));
    assert_eq!(e.render(), "Constraint 'constraint lt: 0 < 1', failed: 5 < 3 failed");
    assert_eq!(e.reason(), Some("5 < 3 failed"));
    let quiet = CspError::new("c".to_string(), Vec::new(), None);
    assert_eq!(quiet.render(), "Constraint 'c', failed: no reason provided");
    assert!(matches!(UnifyError::from(quiet), UnifyError::Csp(_)));
}
