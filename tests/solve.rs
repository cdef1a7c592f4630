use csp_shape::constraint::{Constraint, Constraints};
use csp_shape::domain::Domain;
use csp_shape::error::{TraceFrame, UnifyError};
use csp_shape::ops::arith::ArithConstraint;
use csp_shape::ops::compare::{GreaterThanConstraint, LessThanConstraint};
use csp_shape::ops::equality::EqualityConstraint;
use csp_shape::subst::Subst;
use csp_shape::term::{Term, VarGen};

fn var(g: &mut VarGen, name: &str) -> Term {
    g.fresh(Some(name.to_string()))
}

fn single(s: &Subst, t: &Term) -> Option<i32> {
    s.get(t).and_then(|d| d.single_value())
}

fn solve(cs: Vec<Constraint>, s: &mut Subst) -> Result<Vec<usize>, UnifyError> {
    Constraints::new(cs).solve(s, true)
}

#[test]
fn exact_equality_chain() {
    let mut g = VarGen::new();
    let (a, b, c, d, e) = (var(&mut g, "a"), var(&mut g, "b"), var(&mut g, "c"), var(&mut g, "d"), var(&mut g, "e"));
    let cs = vec![
        EqualityConstraint::boxed(a.clone(), Term::Val(10)),
        EqualityConstraint::boxed(b.clone(), Term::Val(6)),
        EqualityConstraint::boxed(d.clone(), Term::Val(4)),
        ArithConstraint::sum(a.clone(), b.clone(), c.clone()),
        ArithConstraint::product(c.clone(), d.clone(), e.clone()),
    ];
    let mut s = Subst::new();
    let r = solve(cs, &mut s);
    assert_eq!(r.unwrap(), Vec::<usize>::new());
    assert_eq!(single(&s, &c), Some(16));
    assert_eq!(single(&s, &e), Some(64));
}

#[test]
fn self_referential_sum_stays_unresolved() {
    let mut g = VarGen::new();
    let a = var(&mut g, "a");
    let cs = vec![ArithConstraint::sum(a.clone(), a.clone(), Term::Val(1))];
    let mut s = Subst::new();
    let r = solve(cs, &mut s);
    assert_eq!(r.unwrap(), Vec::<usize>::new());
    assert!(s.get(&a).is_none());
}

#[test]
fn ordering_bounds_the_unknown_side() {
    let mut g = VarGen::new();
    let a = var(&mut g, "a");
    let d = var(&mut g, "d");
    let cs = vec![
        EqualityConstraint::boxed(a.clone(), Term::Val(10)),
        LessThanConstraint::boxed(d.clone(), a.clone()),
    ];
    let mut s = Subst::new();
    assert!(solve(cs, &mut s).is_ok());
    assert!(matches!(s.get(&d), Some(Domain::Range { min: i32::MIN, max: 9 })));
}

#[test]
fn greater_than_mirrors_less_than() {
    let mut g = VarGen::new();
    let a = var(&mut g, "a");
    let d = var(&mut g, "d");
    let cs = vec![
        EqualityConstraint::boxed(a.clone(), Term::Val(10)),
        GreaterThanConstraint::boxed(d.clone(), a.clone()),
    ];
    let mut s = Subst::new();
    assert!(solve(cs, &mut s).is_ok());
    assert!(matches!(s.get(&d), Some(Domain::Range { min: 11, max: i32::MAX })));
}

#[test]
fn contradiction_reports_conflicting_bindings() {
    let mut g = VarGen::new();
    let (a, b, c) = (var(&mut g, "a"), var(&mut g, "b"), var(&mut g, "c"));
    let cs = vec![
        EqualityConstraint::boxed(a.clone(), Term::Val(10)),
        EqualityConstraint::boxed(b.clone(), Term::Val(6)),
        ArithConstraint::sum(a.clone(), b.clone(), c.clone()),
        EqualityConstraint::boxed(c.clone(), Term::Val(5)),
    ];
    let mut s = Subst::new();
    let err = match solve(cs, &mut s) {
        Err(UnifyError::Csp(e)) => e,
        other => panic!("expected a violation, got {:?}", other),
    };
    assert_eq!(err.constraint(), "constraint equality: 2 (named: c) = 5");
    assert_eq!(err.reason(), Some("conflicting bindings: 16 != 5"));
    let deduced = err.trace().iter().any(|f| match f {
        TraceFrame::Constrained { constraint, domains } => {
            constraint == "#0 + #1 = #2"
                && domains.iter().any(|(t, d)| *t == c && matches!(d, Domain::Single(16)))
        }
        _ => false,
    });
    assert!(deduced);
    match err.trace().last() {
        Some(TraceFrame::Constrained { constraint, .. }) => assert_eq!(constraint, "#2 = 5"),
        other => panic!("expected the failing step last, got {:?}", other),
    }
    assert_eq!(single(&s, &c), Some(16));
}

#[test]
fn violated_ordering_names_the_values() {
    let mut g = VarGen::new();
    let (a, b) = (var(&mut g, "a"), var(&mut g, "b"));
    let cs = vec![
        EqualityConstraint::boxed(a.clone(), Term::Val(5)),
        EqualityConstraint::boxed(b.clone(), Term::Val(3)),
        LessThanConstraint::boxed(a.clone(), b.clone()),
    ];
    let mut s = Subst::new();
    match solve(cs, &mut s) {
        Err(UnifyError::Csp(e)) => {
            assert_eq!(e.reason(), Some("5 < 3 failed"));
            assert_eq!(e.constraint(), "constraint lt: 0 (named: a) < 1 (named: b)");
        }
        other => panic!("expected a violation, got {:?}", other),
    }
}

#[test]
fn nothing_lies_below_the_smallest_value() {
    let mut g = VarGen::new();
    let d = var(&mut g, "d");
    let cs = vec![LessThanConstraint::boxed(d.clone(), Term::Val(i32::MIN))];
    let mut s = Subst::new();
    assert!(matches!(solve(cs, &mut s), Err(UnifyError::Csp(_))));
}

#[test]
fn bound_outside_a_known_range_fails() {
    let mut g = VarGen::new();
    let (a, d) = (var(&mut g, "a"), var(&mut g, "d"));
    let mut s = Subst::new();
    s.refine(&d, &Domain::Range { min: 20, max: 30 });
    let cs = vec![
        EqualityConstraint::boxed(a.clone(), Term::Val(10)),
        LessThanConstraint::boxed(d.clone(), a.clone()),
    ];
    match solve(cs, &mut s) {
        Err(UnifyError::Csp(e)) => assert_eq!(e.reason(), Some("no value of [20..=30] lies in [-2147483648..=9]")),
        other => panic!("expected a violation, got {:?}", other),
    }
}

#[test]
fn inverses_derive_the_missing_operand() {
    let mut g = VarGen::new();
    let (a, b, c, x, y) = (var(&mut g, "a"), var(&mut g, "b"), var(&mut g, "c"), var(&mut g, "x"), var(&mut g, "y"));
    let cs = vec![
        EqualityConstraint::boxed(a.clone(), Term::Val(10)),
        EqualityConstraint::boxed(c.clone(), Term::Val(16)),
        ArithConstraint::sum(a.clone(), b.clone(), c.clone()),
        ArithConstraint::product(x.clone(), Term::Val(-3), Term::Val(12)),
        ArithConstraint::product(Term::Val(4), y.clone(), Term::Val(-12)),
    ];
    let mut s = Subst::new();
    assert!(solve(cs, &mut s).is_ok());
    assert_eq!(single(&s, &b), Some(6));
    assert_eq!(single(&s, &x), Some(-4));
    assert_eq!(single(&s, &y), Some(-3));
}

#[test]
fn inexact_quotient_is_a_violation() {
    let mut g = VarGen::new();
    let b = var(&mut g, "b");
    let cs = vec![ArithConstraint::product(Term::Val(2), b.clone(), Term::Val(7))];
    let mut s = Subst::new();
    match solve(cs, &mut s) {
        Err(UnifyError::Csp(e)) => assert_eq!(e.reason(), Some("no integer value fits")),
        other => panic!("expected a violation, got {:?}", other),
    }
}

#[test]
fn zero_product_leaves_the_operand_free() {
    let mut g = VarGen::new();
    let b = var(&mut g, "b");
    let cs = vec![ArithConstraint::product(Term::Val(0), b.clone(), Term::Val(0))];
    let mut s = Subst::new();
    assert!(solve(cs, &mut s).is_ok());
    assert!(s.get(&b).is_none());
}

#[test]
fn overflowing_sum_is_a_violation() {
    let mut g = VarGen::new();
    let c = var(&mut g, "c");
    let cs = vec![ArithConstraint::sum(Term::Val(i32::MAX), Term::Val(1), c.clone())];
    let mut s = Subst::new();
    match solve(cs, &mut s) {
        Err(UnifyError::Csp(e)) => {
            assert_eq!(e.reason(), Some("the value 2147483648 does not fit in 32 bits"))
        }
        other => panic!("expected a violation, got {:?}", other),
    }
}

#[test]
fn derived_value_does_not_overwrite_a_binding() {
    let mut g = VarGen::new();
    let c = var(&mut g, "c");
    let mut s = Subst::new();
    s.refine(&c, &Domain::Range { min: 0, max: 3 });
    let cs = vec![ArithConstraint::sum(Term::Val(2), Term::Val(5), c.clone())];
    assert!(solve(cs, &mut s).is_ok());
    assert!(matches!(s.get(&c), Some(Domain::Range { min: 0, max: 3 })));
}

#[test]
fn final_check_lists_disproved_constraints() {
    let mut g = VarGen::new();
    let (a, b, c) = (var(&mut g, "a"), var(&mut g, "b"), var(&mut g, "c"));
    let cs = vec![
        EqualityConstraint::boxed(a.clone(), Term::Val(1)),
        EqualityConstraint::boxed(b.clone(), Term::Val(2)),
        EqualityConstraint::boxed(c.clone(), Term::Val(5)),
        ArithConstraint::sum(a.clone(), b.clone(), c.clone()),
    ];
    let mut s = Subst::new();
    assert_eq!(Constraints::new(cs).solve(&mut s, true).unwrap(), vec![3]);
    let cs2 = vec![
        EqualityConstraint::boxed(a.clone(), Term::Val(1)),
        EqualityConstraint::boxed(b.clone(), Term::Val(2)),
        EqualityConstraint::boxed(c.clone(), Term::Val(5)),
        ArithConstraint::sum(a.clone(), b.clone(), c.clone()),
    ];
    let mut s2 = Subst::new();
    assert_eq!(Constraints::new(cs2).solve(&mut s2, false).unwrap(), Vec::<usize>::new());
}

#[test]
fn variables_equal_share_their_domain() {
    let mut g = VarGen::new();
    let (x, y) = (var(&mut g, "x"), var(&mut g, "y"));
    let cs = vec![
        EqualityConstraint::boxed(x.clone(), y.clone()),
        EqualityConstraint::boxed(y.clone(), Term::Val(3)),
    ];
    let mut s = Subst::new();
    assert!(solve(cs, &mut s).is_ok());
    assert_eq!(single(&s, &x), Some(3));
}

#[test]
fn stalled_step_stalls_again() {
    let mut g = VarGen::new();
    let (x, y) = (var(&mut g, "x"), var(&mut g, "y"));
    let c = EqualityConstraint::boxed(x.clone(), y.clone());
    let mut s = Subst::new();
    let mut t = csp_shape::error::TraceBuilder::new();
    assert!(matches!(c.make_progress(&mut s, &mut t), Ok(csp_shape::error::Progress::Stalled)));
    assert!(matches!(c.make_progress(&mut s, &mut t), Ok(csp_shape::error::Progress::Stalled)));
    let l = LessThanConstraint::boxed(Term::Val(1), Term::Val(2));
    assert!(matches!(l.make_progress(&mut s, &mut t), Ok(csp_shape::error::Progress::Stalled)));
    assert!(matches!(l.make_progress(&mut s, &mut t), Ok(csp_shape::error::Progress::Stalled)));
    assert!(l.hold(&s));
}

#[test]
fn round_limit_is_a_solver_fault() {
    let mut g = VarGen::new();
    let vars: Vec<Term> = (0..102).map(|_| g.fresh(None)).collect();
    let mut cs = Vec::new();
    for i in (1..vars.len()).rev() {
        cs.push(EqualityConstraint::boxed(vars[i].clone(), vars[i - 1].clone()));
    }
    cs.push(EqualityConstraint::boxed(vars[0].clone(), Term::Val(5)));
    let mut s = Subst::new();
    assert!(matches!(solve(cs, &mut s), Err(UnifyError::Solver(_))));
}

#[test]
fn descriptions_name_kind_and_terms() {
    let mut g = VarGen::new();
    let (a, b) = (var(&mut g, "a"), var(&mut g, "b"));
    let d = ArithConstraint::product(a.clone(), b.clone(), Term::Val(6)).describe();
    assert_eq!(d.typename(), "product");
    assert_eq!(d.details(), "0 (named: a) * 1 (named: b) = 6");
    assert_eq!(d.terms().len(), 3);
    assert_eq!(d.render(), "constraint product: 0 (named: a) * 1 (named: b) = 6");
    assert_eq!(GreaterThanConstraint::boxed(a.clone(), b.clone()).plain_text(), "#0 > #1");
}

#[test]
fn conflict_with_a_range_names_the_range() {
    let mut g = VarGen::new();
    let x = var(&mut g, "x");
    let mut s = Subst::new();
    s.refine(&x, &Domain::Range { min: 1, max: 3 });
    let cs = vec![EqualityConstraint::boxed(x.clone(), Term::Val(7))];
    match solve(cs, &mut s) {
        Err(UnifyError::Csp(e)) => {
            assert_eq!(e.reason(), Some("conflicting bindings: [1..=3] != 7"));
            assert_eq!(e.render(), "Constraint 'constraint equality: 0 (named: x) = 7', failed: conflicting bindings: [1..=3] != 7");
        }
        other => panic!("expected a violation, got {:?}", other),
    }
}
