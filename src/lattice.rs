use vstd::prelude::*;

use crate::domain::{
    count_le, lemma_domain_canonical, max_i32, min_i32, range_of, values_of, Domain, DomainView,
};

verus! {

/// The shape of a domain that is not `Top`, ordered by how much a meet keeps of it.
spec fn shape(d: DomainView) -> int {
    match d {
        DomainView::Range { .. } => 0,
        DomainView::Values(_) => 1,
        DomainView::Single(_) => 2,
        _ => 3,
    }
}

spec fn max_int(a: int, b: int) -> int {
    if a >= b { a } else { b }
}

spec fn no_member(d: DomainView) -> bool {
    forall|v: i32| !d.has(v)
}

spec fn at_most_one(d: DomainView) -> bool {
    forall|x: i32, y: i32| d.has(x) && d.has(y) ==> x == y
}

/// The shape a canonical domain with the members of `d` takes, when built from shape `k`.
spec fn settle(k: int, d: DomainView) -> int {
    if no_member(d) {
        3
    } else if at_most_one(d) {
        max_int(k, 2)
    } else {
        k
    }
}

/// Canonical: not `Top`, a `Range` holds two values or more, `Values` is finite with two or more.
spec fn canonical(d: DomainView) -> bool {
    match d {
        DomainView::Top => false,
        DomainView::Range { min, max } => min < max,
        DomainView::Values(s) => s.finite() && s.len() >= 2,
        _ => true,
    }
}

spec fn input_ok(d: DomainView) -> bool {
    d.canonical_values() && !(d is Top)
}

proof fn lemma_values_of(f: Set<i32>)
    requires
        f.finite(),
    ensures
        canonical(values_of(f)),
        forall|v: i32| values_of(f).has(v) == f.contains(v),
        no_member(values_of(f)) ==> shape(values_of(f)) == 3,
        !no_member(values_of(f)) && at_most_one(values_of(f)) ==> shape(values_of(f)) == 2,
        !at_most_one(values_of(f)) ==> shape(values_of(f)) == 1,
{
    if f.len() == 0 {
        f.lemma_len0_is_empty();
    } else if f.len() == 1 {
        Set::lemma_is_singleton(f);
        assert(f.contains(f.choose()));
        assert forall|v: i32| values_of(f).has(v) == f.contains(v) by {}
    } else {
        Set::lemma_is_singleton(f);
        if at_most_one(values_of(f)) {
            assert forall|x: i32, y: i32| f.contains(x) && f.contains(y) implies x == y by {
                assert(values_of(f).has(x) && values_of(f).has(y));
            }
            assert(f.is_singleton());
        }
    }
}

/// The meet of two domains that are not `Top` is canonical, holds the common
/// members, and has the shape that `settle` gives.
proof fn lemma_meet_shape(a: DomainView, b: DomainView)
    requires
        input_ok(a),
        input_ok(b),
    ensures
        canonical(a.meet(b)),
        forall|v: i32| #[trigger] a.meet(b).has(v) == (a.has(v) && b.has(v)),
        shape(a.meet(b)) == settle(max_int(shape(a), shape(b)), a.meet(b)),
{
    let m = a.meet(b);
    match (a, b) {
        (DomainView::Bottom, _) => {},
        (_, DomainView::Bottom) => {},
        (DomainView::Single(x), _) => {
            if b.has(x) {
                assert(m.has(x));
            }
        },
        (_, DomainView::Single(y)) => {
            if a.has(y) {
                assert(m.has(y));
            }
        },
        (DomainView::Range { min: p, max: q }, DomainView::Range { min: r, max: t }) => {
            let lo = max_i32(p, r);
            let hi = min_i32(q, t);
            assert(m == range_of(lo, hi));
            if lo < hi {
                assert(m.has(lo) && m.has(hi));
            } else if lo == hi {
                assert(m.has(lo));
            }
        },
        (DomainView::Values(s), _) => {
            let f = s.filter(|v: i32| b.has(v));
            s.lemma_len_filter(|v: i32| b.has(v));
            lemma_values_of(f);
            assert forall|v: i32| #[trigger] m.has(v) == (a.has(v) && b.has(v)) by {
                assert(f.contains(v) == (s.contains(v) && b.has(v)));
            }
        },
        (_, DomainView::Values(t)) => {
            let f = t.filter(|v: i32| a.has(v));
            t.lemma_len_filter(|v: i32| a.has(v));
            lemma_values_of(f);
            assert forall|v: i32| #[trigger] m.has(v) == (a.has(v) && b.has(v)) by {
                assert(f.contains(v) == (t.contains(v) && a.has(v)));
            }
        },
        _ => {},
    }
}

/// Two canonical domains with the same members and shape are the same domain.
proof fn lemma_canonical_unique(a: DomainView, b: DomainView)
    requires
        canonical(a),
        canonical(b),
        shape(a) == shape(b),
        forall|v: i32| #[trigger] a.has(v) == b.has(v),
    ensures
        a == b,
{
    match (a, b) {
        (DomainView::Range { min: p, max: q }, DomainView::Range { min: r, max: t }) => {
            assert(a.has(p) && a.has(q) && b.has(r) && b.has(t));
            assert(b.has(p) && b.has(q) && a.has(r) && a.has(t));
        },
        (DomainView::Values(s), DomainView::Values(t)) => {
            assert(s =~= t) by {
                assert forall|v: i32| s.contains(v) == t.contains(v) by {
                    assert(a.has(v) == b.has(v));
                }
            }
        },
        (DomainView::Single(x), DomainView::Single(y)) => {
            assert(a.has(x));
            assert(b.has(x));
        },
        _ => {},
    }
}

proof fn lemma_settle_same(k: int, l: DomainView, r: DomainView)
    requires
        forall|v: i32| #[trigger] l.has(v) == r.has(v),
    ensures
        settle(k, l) == settle(k, r),
{
    if !no_member(l) {
        let w = choose|w: i32| l.has(w);
        assert(r.has(w));
    }
    if !no_member(r) {
        let w = choose|w: i32| r.has(w);
        assert(l.has(w));
    }
    if !at_most_one(l) {
        let (p, q) = choose|p: i32, q: i32| l.has(p) && l.has(q) && p != q;
        assert(r.has(p) && r.has(q));
    }
    if !at_most_one(r) {
        let (p, q) = choose|p: i32, q: i32| r.has(p) && r.has(q) && p != q;
        assert(l.has(p) && l.has(q));
    }
}

proof fn lemma_settle_twice(kx: int, k: int, inner: DomainView, outer: DomainView)
    requires
        0 <= kx <= 3,
        0 <= k <= 3,
        forall|v: i32| #[trigger] outer.has(v) ==> inner.has(v),
    ensures
        settle(max_int(kx, settle(k, inner)), outer) == settle(max_int(kx, k), outer),
{
    if !no_member(outer) {
        let w = choose|w: i32| outer.has(w);
        assert(inner.has(w));
        if at_most_one(inner) {
            assert(at_most_one(outer));
        }
    }
}

/// Meet is commutative.
pub proof fn lemma_refine_commutative(x: Domain, y: Domain)
    requires
        x.wf(),
        y.wf(),
    ensures
        x@.meet(y@) == y@.meet(x@),
{
    lemma_domain_canonical(x);
    lemma_domain_canonical(y);
    lemma_meet_commutative(x@, y@);
}

/// Meet is commutative on domains whose value sets are canonical.
pub proof fn lemma_meet_commutative(x: DomainView, y: DomainView)
    requires
        x.canonical_values(),
        y.canonical_values(),
    ensures
        x.meet(y) == y.meet(x),
{
    if !(x is Top) && !(y is Top) {
        lemma_meet_shape(x, y);
        lemma_meet_shape(y, x);
        assert forall|v: i32| #[trigger] x.meet(y).has(v) == y.meet(x).has(v) by {
            assert(x.meet(y).has(v) == (x.has(v) && y.has(v)));
            assert(y.meet(x).has(v) == (y.has(v) && x.has(v)));
        }
        lemma_settle_same(max_int(shape(x), shape(y)), x.meet(y), y.meet(x));
        lemma_canonical_unique(x.meet(y), y.meet(x));
    }
}

/// The meet of two domains whose value sets are canonical has a canonical value set.
pub proof fn lemma_meet_canonical_values(x: DomainView, y: DomainView)
    requires
        x.canonical_values(),
        y.canonical_values(),
    ensures
        x.meet(y).canonical_values(),
{
    if !(x is Top) && !(y is Top) {
        lemma_meet_shape(x, y);
    }
}

/// Meet is associative.
pub proof fn lemma_refine_associative(x: Domain, y: Domain, z: Domain)
    requires
        x.wf(),
        y.wf(),
        z.wf(),
    ensures
        x@.meet(y@.meet(z@)) == x@.meet(y@).meet(z@),
{
    lemma_domain_canonical(x);
    lemma_domain_canonical(y);
    lemma_domain_canonical(z);
    if !(x@ is Top) && !(y@ is Top) && !(z@ is Top) {
        let yz = y@.meet(z@);
        let xy = x@.meet(y@);
        lemma_meet_shape(y@, z@);
        lemma_meet_shape(x@, y@);
        lemma_meet_shape(x@, yz);
        lemma_meet_shape(xy, z@);
        let l = x@.meet(yz);
        let r = xy.meet(z@);
        assert forall|v: i32| #[trigger] l.has(v) == r.has(v) by {
            assert(yz.has(v) == (y@.has(v) && z@.has(v)));
            assert(xy.has(v) == (x@.has(v) && y@.has(v)));
        }
        lemma_settle_twice(shape(x@), max_int(shape(y@), shape(z@)), yz, l);
        lemma_settle_twice(shape(z@), max_int(shape(x@), shape(y@)), xy, r);
        lemma_settle_same(max_int(shape(x@), max_int(shape(y@), shape(z@))), l, r);
        lemma_canonical_unique(l, r);
    }
}

/// `Top` is the identity of meet, and `Bottom` absorbs every domain.
pub proof fn lemma_refine_top_bottom(x: Domain)
    requires
        x.wf(),
    ensures
        x@.meet(DomainView::Top) == x@,
        x@.meet(DomainView::Bottom) == DomainView::Bottom,
{
}

/// A meet never widens: it admits no more values than its first operand.
pub proof fn lemma_refine_narrows(x: Domain, y: Domain)
    requires
        x.wf(),
        y.wf(),
    ensures
        count_le(x@.meet(y@).count(), x@.count()),
        forall|v: i32| #[trigger] x@.meet(y@).has(v) ==> x@.has(v),
{
    lemma_domain_canonical(x);
    lemma_domain_canonical(y);
    let m = x@.meet(y@);
    if !(x@ is Top) && !(y@ is Top) {
        lemma_meet_shape(x@, y@);
    }
    match (x@, y@) {
        (DomainView::Top, _) => {},
        (_, DomainView::Top) => {},
        (DomainView::Bottom, _) => {},
        (_, DomainView::Bottom) => {},
        (DomainView::Single(_), _) => {},
        (DomainView::Range { min, max }, DomainView::Single(v)) => {},
        (DomainView::Values(s), DomainView::Single(v)) => {},
        (DomainView::Range { .. }, DomainView::Range { .. }) => {},
        (DomainView::Values(s), _) => {
            let f = s.filter(|v: i32| y@.has(v));
            s.lemma_len_filter(|v: i32| y@.has(v));
            lemma_values_of(f);
        },
        (DomainView::Range { min, max }, DomainView::Values(t)) => {
            let f = t.filter(|v: i32| x@.has(v));
            t.lemma_len_filter(|v: i32| x@.has(v));
            lemma_values_of(f);
            if min <= max {
                lemma_bounded_len(f, min as int, max as int);
            } else {
                assert(f =~= Set::<i32>::empty());
            }
        },
    }
}

/// A finite set of values inside `[lo, hi]` has at most `hi - lo + 1` members.
proof fn lemma_bounded_len(s: Set<i32>, lo: int, hi: int)
    requires
        s.finite(),
        forall|v: i32| #[trigger] s.contains(v) ==> lo <= v <= hi,
    ensures
        s.len() <= if hi >= lo { hi - lo + 1 } else { 0 },
    decreases hi - lo + 1,
{
    if hi < lo {
        assert(s =~= Set::<i32>::empty());
    } else {
        let rest = s.filter(|v: i32| v < hi);
        s.lemma_len_filter(|v: i32| v < hi);
        lemma_bounded_len(rest, lo, hi - 1);
        if lo <= hi <= i32::MAX && s.contains(hi as i32) {
            assert(s =~= rest.insert(hi as i32));
        } else {
            assert(s =~= rest);
        }
    }
}

} // verus!
