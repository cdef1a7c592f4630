use csp_shape::domain::Domain;
use csp_shape::error::{CspError, TraceFrame};
use csp_shape::report::render_frame;
use csp_shape::term::{Term, VarGen};

fn frames() -> (Term, Term, Vec<TraceFrame>) {
    let mut g = VarGen::new();
    let x = g.fresh(Some("x".to_string()));
    let y = g.fresh(None);
    let trace = vec![
        TraceFrame::Branched { var: x.clone(), value: 42 },
        TraceFrame::Constrained {
            constraint: format!("{} == {}", x.no_name(), y.no_name()),
            domains: vec![
                (x.clone(), Domain::Single(42)),
                (y.clone(), Domain::Range { min: 40, max: 43 }),
            ],
        },
        TraceFrame::Backtracked { var: x.clone(), failed_value: 42 },
    ];
    (x, y, trace)
}

#[test]
fn branched_and_backtracked_frames() {
    let (_, _, trace) = frames();
    assert_eq!(render_frame(&trace[0]), "\u{2192} branched 0 (named: x) = 42");
    assert_eq!(render_frame(&trace[2]), "\u{2192} backtracked for 0 (named: x) \u{2260} 42");
}

#[test]
fn constrained_frame_points_at_mentions() {
    let (_, _, trace) = frames();
    assert_eq!(
        render_frame(&trace[1]),
        "\u{2192} `#0 == #1`\n   \u{2502}     \u{2570}\u{2500} 1 \u{2208} [40..=43]\n   \u{2570}\u{2500} 0 (named: x) \u{2208} 42\n"
    );
}

#[test]
fn unmentioned_terms_get_no_line() {
    let mut g = VarGen::new();
    let x = g.fresh(None);
    let frame = TraceFrame::Constrained {
        constraint: "5 < 6".to_string(),
        domains: vec![(x, Domain::Top)],
    };
    assert_eq!(render_frame(&frame), "\u{2192} `5 < 6`\n");
}

#[test]
fn report_indents_every_frame_line() {
    let (_, _, trace) = frames();
    let e = CspError::new("a constraint".to_string(), trace, Some("it broke".to_string()));
    let expected = "constraint failed: a constraint\ntrace:\n    \u{2192} branched 0 (named: x) = 42\n    \u{2192} `#0 == #1`\n       \u{2502}     \u{2570}\u{2500} 1 \u{2208} [40..=43]\n       \u{2570}\u{2500} 0 (named: x) \u{2208} 42\n    \u{2192} backtracked for 0 (named: x) \u{2260} 42\nreason: it broke";
    assert_eq!(e.report(), expected);
    let bare = CspError::new("c".to_string(), Vec::new(), None);
    assert_eq!(bare.report(), "constraint failed: c\ntrace:\nreason: not provided");
}

#[test]
fn frames_on_one_line() {
    let (_, _, trace) = frames();
    assert_eq!(trace[0].summary(), "var: 0 (named: x) value: 42");
    assert_eq!(
        trace[1].summary(),
        "constraint: #0 == #1, domains: [(0 (named: x), 42), (1, [40..=43])]"
    );
    assert_eq!(trace[2].summary(), "var 0 (named: x), failed value: 42");
}

#[test]
fn unify_errors_on_one_line() {
    let csp = csp_shape::error::UnifyError::Csp(CspError::new("c".to_string(), Vec::new(), None));
    assert_eq!(csp.render(), "Constraint 'c', failed: no reason provided");
    let fault = csp_shape::error::UnifyError::Solver("round limit reached".to_string());
    assert_eq!(fault.render(), "round limit reached");
}
