use std::sync::Arc;
use vstd::prelude::*;

use crate::term::{digits, int_text, push_digits, push_int};

verus! {

/// The set of values a variable may still take.
///
/// `Values` holds its members in strictly increasing order and always has at
/// least two of them; empty and one-element sets are `Bottom` and `Single`.
#[derive(Debug)]
pub enum Domain {
    Single(i32),
    Range { min: i32, max: i32 },
    Values(Arc<Vec<i32>>),
    Top,
    Bottom,
}

/// The mathematical model of a `Domain`.
pub enum DomainView {
    Single(i32),
    Range { min: i32, max: i32 },
    Values(Set<i32>),
    Top,
    Bottom,
}

/// The number of values in a domain: a count, or infinite for `Top`.
#[derive(Debug, Clone, Copy, PartialEq, Eq, Structural, PartialOrd, Ord)]
pub enum Cardinality {
    Finite(u64),
    Infinite,
}

pub open spec fn strictly_sorted(s: Seq<i32>) -> bool {
    forall|i: int, j: int| 0 <= i < j < s.len() ==> s[i] < s[j]
}

/// Canonical domain for a finite set of values.
pub open spec fn values_of(s: Set<i32>) -> DomainView {
    if s.len() == 0 {
        DomainView::Bottom
    } else if s.len() == 1 {
        DomainView::Single(s.choose())
    } else {
        DomainView::Values(s)
    }
}

/// Canonical domain for the closed interval `[lo, hi]`.
pub open spec fn range_of(lo: i32, hi: i32) -> DomainView {
    if lo < hi {
        DomainView::Range { min: lo, max: hi }
    } else if lo == hi {
        DomainView::Single(lo)
    } else {
        DomainView::Bottom
    }
}

pub open spec fn max_i32(a: i32, b: i32) -> i32 {
    if a >= b { a } else { b }
}

pub open spec fn min_i32(a: i32, b: i32) -> i32 {
    if a <= b { a } else { b }
}

impl DomainView {
    /// Membership of a value.
    pub open spec fn has(self, v: i32) -> bool {
        match self {
            DomainView::Single(x) => x == v,
            DomainView::Range { min, max } => min <= v <= max,
            DomainView::Values(s) => s.contains(v),
            DomainView::Top => true,
            DomainView::Bottom => false,
        }
    }

    /// The values of the domain as a set.
    pub open spec fn members(self) -> Set<i32> {
        Set::new(|v: i32| self.has(v))
    }

    /// A `Values` domain is a finite set of at least two values.
    pub open spec fn canonical_values(self) -> bool {
        match self {
            DomainView::Values(s) => s.finite() && s.len() >= 2,
            _ => true,
        }
    }

    /// Lattice meet: the most specific domain consistent with both.
    pub open spec fn meet(self, o: DomainView) -> DomainView {
        match (self, o) {
            (DomainView::Top, _) => o,
            (_, DomainView::Top) => self,
            (DomainView::Bottom, _) => DomainView::Bottom,
            (_, DomainView::Bottom) => DomainView::Bottom,
            (DomainView::Single(x), _) => if o.has(x) {
                DomainView::Single(x)
            } else {
                DomainView::Bottom
            },
            (_, DomainView::Single(y)) => if self.has(y) {
                DomainView::Single(y)
            } else {
                DomainView::Bottom
            },
            (DomainView::Range { min: a, max: b }, DomainView::Range { min: c, max: d }) => range_of(
                max_i32(a, c),
                min_i32(b, d),
            ),
            (DomainView::Values(s), _) => values_of(s.filter(|v: i32| o.has(v))),
            (_, DomainView::Values(t)) => values_of(t.filter(|v: i32| self.has(v))),
        }
    }

    /// The number of values; `None` stands for infinitely many.
    pub open spec fn count(self) -> Option<nat> {
        match self {
            DomainView::Single(_) => Some(1),
            DomainView::Range { min, max } => if min > max {
                Some(0)
            } else {
                Some((max - min + 1) as nat)
            },
            DomainView::Values(s) => Some(s.len()),
            DomainView::Top => None,
            DomainView::Bottom => Some(0),
        }
    }
}

/// `a` holds no more values than `b` (an infinite count is the largest).
pub open spec fn count_le(a: Option<nat>, b: Option<nat>) -> bool {
    match (a, b) {
        (_, None) => true,
        (None, Some(_)) => false,
        (Some(x), Some(y)) => x <= y,
    }
}

impl Cardinality {
    /// The count, or `None` for infinitely many.
    pub fn finite(self) -> (r: Option<u64>)
        ensures
            r == match self {
                Cardinality::Finite(n) => Some(n),
                Cardinality::Infinite => None::<u64>,
            },
    {
        match self {
            Cardinality::Finite(n) => Some(n),
            Cardinality::Infinite => None,
        }
    }
}

impl View for Cardinality {
    type V = Option<nat>;

    open spec fn view(&self) -> Option<nat> {
        match self {
            Cardinality::Finite(n) => Some(*n as nat),
            Cardinality::Infinite => None,
        }
    }
}

impl View for Domain {
    type V = DomainView;

    open spec fn view(&self) -> DomainView {
        match self {
            Domain::Single(v) => DomainView::Single(*v),
            Domain::Range { min, max } => DomainView::Range { min: *min, max: *max },
            Domain::Values(a) => DomainView::Values(a@.to_set()),
            Domain::Top => DomainView::Top,
            Domain::Bottom => DomainView::Bottom,
        }
    }
}

impl Clone for Domain {
    fn clone(&self) -> (r: Self)
        ensures
            r == *self,
    {
        match self {
            Domain::Single(v) => Domain::Single(*v),
            Domain::Range { min, max } => Domain::Range { min: *min, max: *max },
            Domain::Values(s) => Domain::Values(s.clone()),
            Domain::Top => Domain::Top,
            Domain::Bottom => Domain::Bottom,
        }
    }
}

proof fn lemma_sorted_set_len(s: Seq<i32>)
    requires
        strictly_sorted(s),
    ensures
        s.to_set().finite(),
        s.to_set().len() == s.len(),
{
    assert(s.no_duplicates()) by {
        assert forall|i: int, j: int| 0 <= i < s.len() && 0 <= j < s.len() && i != j implies s[i]
            != s[j] by {
            if i < j {
                assert(s[i] < s[j]);
            } else {
                assert(s[j] < s[i]);
            }
        }
    }
    s.unique_seq_to_set();
    vstd::seq_lib::seq_to_set_is_finite(s);
}

/// A well-formed domain's `Values` set is finite with at least two members.
pub proof fn lemma_domain_canonical(d: Domain)
    requires
        d.wf(),
    ensures
        d@.canonical_values(),
{
    if let Domain::Values(a) = d {
        lemma_sorted_set_len(a@);
    }
}

proof fn lemma_singleton_choose(s: Set<i32>, x: i32)
    requires
        s =~= set![x],
    ensures
        s.len() == 1,
        s.choose() == x,
{
    assert(s.contains(x));
    assert(s.remove(x) =~= Set::<i32>::empty());
    assert(s.len() == 1);
    assert(s.contains(s.choose()));
}

impl Domain {
    /// Well-formed: a `Values` domain is strictly sorted with at least two members.
    pub open spec fn wf(&self) -> bool {
        match self {
            Domain::Values(a) => strictly_sorted(a@) && a@.len() >= 2,
            _ => true,
        }
    }

    /// Builds the canonical domain holding exactly the given values.
    pub fn set_from(values: Vec<i32>) -> (r: Domain)
        ensures
            r.wf(),
            r@ == values_of(values@.to_set()),
            r@.canonical_values(),
    {
        let mut sorted: Vec<i32> = Vec::new();
        let mut k: usize = 0;
        while k < values.len()
            invariant
                0 <= k <= values.len(),
                strictly_sorted(sorted@),
                sorted@.to_set() =~= values@.subrange(0, k as int).to_set(),
            decreases values.len() - k,
        {
            insert_sorted(&mut sorted, values[k]);
            proof {
                assert(values@.subrange(0, k + 1) =~= values@.subrange(0, k as int).push(
                    values@[k as int],
                ));
                vstd::seq_lib::lemma_seq_contains_after_push(
                    values@.subrange(0, k as int),
                    values@[k as int],
                    values@[k as int],
                );
                assert(sorted@.to_set() =~= values@.subrange(0, k + 1).to_set()) by {
                    assert forall|y: i32| #[trigger]
                        sorted@.to_set().contains(y) == values@.subrange(
                            0,
                            k + 1,
                        ).to_set().contains(y) by {
                        vstd::seq_lib::lemma_seq_contains_after_push(
                            values@.subrange(0, k as int),
                            values@[k as int],
                            y,
                        );
                    }
                }
            }
            k = k + 1;
        }
        assert(values@.subrange(0, values@.len() as int) =~= values@);
        let r = Domain::from_sorted(sorted);
        proof {
            lemma_domain_canonical(r);
        }
        r
    }

    /// The canonical domain of a strictly sorted vector of values.
    fn from_sorted(sorted: Vec<i32>) -> (r: Domain)
        requires
            strictly_sorted(sorted@),
        ensures
            r.wf(),
            r@ == values_of(sorted@.to_set()),
    {
        proof {
            lemma_sorted_set_len(sorted@);
        }
        if sorted.len() == 0 {
            Domain::Bottom
        } else if sorted.len() == 1 {
            let x = sorted[0];
            proof {
                assert(sorted@.to_set() =~= set![x]) by {
                    assert forall|y: i32| #[trigger] sorted@.to_set().contains(y) == (y == x) by {
                        if sorted@.to_set().contains(y) {
                            let j = choose|j: int| 0 <= j < sorted@.len() && sorted@[j] == y;
                            assert(j == 0);
                        }
                        if y == x {
                            assert(sorted@[0] == y);
                        }
                    }
                }
                lemma_singleton_choose(sorted@.to_set(), x);
            }
            Domain::Single(x)
        } else {
            Domain::Values(Arc::new(sorted))
        }
    }

    /// Whether the value is a member of the domain.
    pub fn contains(&self, val: i32) -> (r: bool)
        requires
            self.wf(),
        ensures
            r == self@.has(val),
    {
        match self {
            Domain::Single(s) => *s == val,
            Domain::Range { min, max } => *min <= val && val <= *max,
            Domain::Values(a) => {
                assert(self@ == DomainView::Values(a@.to_set()));
                assert(self@.has(val) == a@.to_set().contains(val));
                let mut i: usize = 0;
                while i < a.len()
                    invariant
                        0 <= i <= a@.len(),
                        self@.has(val) == a@.to_set().contains(val),
                        forall|j: int| 0 <= j < i ==> a@[j] != val,
                    decreases a@.len() - i,
                {
                    let x = a[i];
                    if x == val {
                        assert(a@.to_set().contains(val)) by {
                            assert(a@.contains(val)) by {
                                assert(a@[i as int] == val);
                            }
                        }
                        return true;
                    }
                    i = i + 1;
                }
                assert(!a@.to_set().contains(val)) by {
                    if a@.contains(val) {
                        let j = choose|j: int| 0 <= j < a@.len() && a@[j] == val;
                        assert(a@[j] != val);
                    }
                }
                false
            },
            Domain::Top => true,
            Domain::Bottom => false,
        }
    }

    /// The canonical domain of the closed interval `[lo, hi]`.
    pub fn range(lo: i32, hi: i32) -> (r: Domain)
        ensures
            r.wf(),
            r@ == range_of(lo, hi),
    {
        if lo < hi {
            Domain::Range { min: lo, max: hi }
        } else if lo == hi {
            Domain::Single(lo)
        } else {
            Domain::Bottom
        }
    }

    /// The domain for people: a number, `[min..=max]`, a brace list that shows
    /// at most five values followed by the total, `ᴛ` (top) or `∅` (bottom).
    pub fn render(&self) -> (r: String)
        ensures
            r@ == domain_text(*self),
    {
        let mut s = String::new();
        match self {
            Domain::Single(v) => push_int(&mut s, *v as i64),
            Domain::Range { min, max } => {
                proof {
                    reveal_strlit("[");
                    reveal_strlit("..=");
                    reveal_strlit("]");
                }
                s.append("[");
                push_int(&mut s, *min as i64);
                s.append("..=");
                push_int(&mut s, *max as i64);
                s.append("]");
            },
            Domain::Values(a) => {
                proof {
                    reveal_strlit("{");
                    reveal_strlit(", ");
                    reveal_strlit(", ... (");
                    reveal_strlit(" total)");
                    reveal_strlit("}");
                }
                s.append("{");
                let shown: usize = if a.len() > 5 { 5 } else { a.len() };
                let mut i: usize = 0;
                while i < shown
                    invariant
                        0 <= i <= shown <= a@.len(),
                        s@ == seq!['{'] + list_text(a@.subrange(0, i as int)),
                    decreases shown - i,
                {
                    let ghost before = s@;
                    if i > 0 {
                        proof {
                            reveal_strlit(", ");
                        }
                        s.append(", ");
                    }
                    push_int(&mut s, a[i] as i64);
                    proof {
                        let p = a@.subrange(0, i + 1);
                        assert(p.drop_last() =~= a@.subrange(0, i as int));
                        assert(p.last() == a@[i as int]);
                        if i > 0 {
                            assert(s@ =~= before + seq![',', ' '] + int_text(a@[i as int] as int));
                            assert(list_text(p) == list_text(p.drop_last()) + seq![',', ' ']
                                + int_text(p.last() as int));
                        } else {
                            assert(s@ =~= before + int_text(a@[i as int] as int));
                            assert(list_text(p) == int_text(p[0] as int));
                        }
                        assert(s@ =~= seq!['{'] + list_text(p));
                    }
                    i = i + 1;
                }
                assert(shown == a@.len() ==> a@.subrange(0, shown as int) =~= a@);
                if a.len() > 5 {
                    s.append(", ... (");
                    push_digits(&mut s, a.len() as u64);
                    s.append(" total)");
                }
                s.append("}");
            },
            Domain::Top => {
                proof {
                    reveal_strlit("\u{1d1b}");
                }
                s.append("\u{1d1b}");
            },
            Domain::Bottom => {
                proof {
                    reveal_strlit("\u{2205}");
                }
                s.append("\u{2205}");
            },
        }
        s
    }

    /// Lattice meet (intersection) of two domains.
    pub fn refine(&self, other: &Self) -> (r: Self)
        requires
            self.wf(),
            other.wf(),
        ensures
            r.wf(),
            r@ == self@.meet(other@),
            r@.canonical_values(),
    {
        let r = match (self, other) {
            (Domain::Top, _) => other.clone(),
            (_, Domain::Top) => self.clone(),
            (Domain::Bottom, _) => Domain::Bottom,
            (_, Domain::Bottom) => Domain::Bottom,
            (Domain::Single(x), _) => {
                if other.contains(*x) {
                    Domain::Single(*x)
                } else {
                    Domain::Bottom
                }
            },
            (_, Domain::Single(y)) => {
                if self.contains(*y) {
                    Domain::Single(*y)
                } else {
                    Domain::Bottom
                }
            },
            (Domain::Range { min: a, max: b }, Domain::Range { min: c, max: d }) => {
                let lo = if *a >= *c { *a } else { *c };
                let hi = if *b <= *d { *b } else { *d };
                if lo < hi {
                    Domain::Range { min: lo, max: hi }
                } else if lo == hi {
                    Domain::Single(lo)
                } else {
                    Domain::Bottom
                }
            },
            (Domain::Values(a), _) => filter_values(a, other),
            (_, Domain::Values(b)) => filter_values(b, self),
        };
        proof {
            lemma_domain_canonical(r);
        }
        r
    }

    /// The number of values the domain admits.
    pub fn cardinality(&self) -> (r: Cardinality)
        requires
            self.wf(),
        ensures
            r@ == self@.count(),
    {
        match self {
            Domain::Single(_) => Cardinality::Finite(1),
            Domain::Range { min, max } => {
                if *min > *max {
                    Cardinality::Finite(0)
                } else {
                    Cardinality::Finite((*max as i64 - *min as i64 + 1) as u64)
                }
            },
            Domain::Values(a) => {
                proof {
                    lemma_sorted_set_len(a@);
                }
                Cardinality::Finite(a.len() as u64)
            },
            Domain::Top => Cardinality::Infinite,
            Domain::Bottom => Cardinality::Finite(0),
        }
    }

    /// The value of a one-value domain.
    pub fn single_value(&self) -> (r: Option<i32>)
        ensures
            r == match self@ {
                DomainView::Single(v) => Some(v),
                _ => None::<i32>,
            },
    {
        match self {
            Domain::Single(v) => Some(*v),
            _ => None,
        }
    }

    pub fn is_single(&self) -> (r: bool)
        ensures
            r == self@ is Single,
    {
        matches!(self, Domain::Single(_))
    }

    pub fn is_top(&self) -> (r: bool)
        ensures
            r == self@ is Top,
    {
        matches!(self, Domain::Top)
    }

    pub fn is_bottom(&self) -> (r: bool)
        ensures
            r == self@ is Bottom,
    {
        matches!(self, Domain::Bottom)
    }

    /// Structural equality of two domains.
    pub fn same(&self, other: &Self) -> (r: bool)
        requires
            self.wf(),
            other.wf(),
        ensures
            r == (self@ == other@),
    {
        match (self, other) {
            (Domain::Single(x), Domain::Single(y)) => *x == *y,
            (Domain::Range { min: a, max: b }, Domain::Range { min: c, max: d }) => *a == *c && *b
                == *d,
            (Domain::Values(a), Domain::Values(b)) => {
                let eq = same_sorted(a, b);
                proof {
                    if !eq {
                        if a@.to_set() == b@.to_set() {
                            lemma_sorted_unique(a@, b@);
                        }
                    }
                }
                eq
            },
            (Domain::Top, Domain::Top) => true,
            (Domain::Bottom, Domain::Bottom) => true,
            _ => false,
        }
    }
}

/// The members of a sorted vector that `keep` admits, as a canonical domain.
fn filter_values(a: &Vec<i32>, keep: &Domain) -> (r: Domain)
    requires
        strictly_sorted(a@),
        keep.wf(),
    ensures
        r.wf(),
        r@ == values_of(a@.to_set().filter(|v: i32| keep@.has(v))),
{
    let mut out: Vec<i32> = Vec::new();
    let mut i: usize = 0;
    while i < a.len()
        invariant
            0 <= i <= a@.len(),
            strictly_sorted(a@),
            keep.wf(),
            strictly_sorted(out@),
            forall|j: int, k: int| 0 <= j < out@.len() && i <= k < a@.len() ==> out@[j] < a@[k],
            forall|v: i32|
                out@.contains(v) <==> (exists|k: int|
                    0 <= k < i && a@[k] == v && keep@.has(v)),
        decreases a@.len() - i,
    {
        let x = a[i];
        if keep.contains(x) {
            let ghost before = out@;
            out.push(x);
            proof {
                assert forall|v: i32|
                    out@.contains(v) <==> (exists|k: int|
                        0 <= k < i + 1 && a@[k] == v && keep@.has(v)) by {
                    if out@.contains(v) {
                        let j = choose|j: int| 0 <= j < out@.len() && out@[j] == v;
                        if j < before.len() {
                            assert(before.contains(v));
                        } else {
                            assert(a@[i as int] == v);
                        }
                    }
                    if exists|k: int| 0 <= k < i + 1 && a@[k] == v && keep@.has(v) {
                        let k = choose|k: int| 0 <= k < i + 1 && a@[k] == v && keep@.has(v);
                        if k < i {
                            assert(before.contains(v));
                            let j = choose|j: int| 0 <= j < before.len() && before[j] == v;
                            assert(out@[j] == v);
                        } else {
                            assert(out@[before.len() as int] == v);
                        }
                    }
                }
            }
        } else {
            proof {
                assert forall|v: i32|
                    out@.contains(v) <==> (exists|k: int|
                        0 <= k < i + 1 && a@[k] == v && keep@.has(v)) by {
                    if exists|k: int| 0 <= k < i + 1 && a@[k] == v && keep@.has(v) {
                        let k = choose|k: int| 0 <= k < i + 1 && a@[k] == v && keep@.has(v);
                        assert(k < i);
                    }
                }
            }
        }
        i = i + 1;
    }
    proof {
        assert forall|v: i32| #[trigger]
            out@.to_set().contains(v) == a@.to_set().filter(|v: i32| keep@.has(v)).contains(v) by {
            if a@.contains(v) && keep@.has(v) {
                let k = choose|k: int| 0 <= k < a@.len() && a@[k] == v;
                assert(exists|k: int| 0 <= k < i && a@[k] == v && keep@.has(v));
            }
        }
        assert(out@.to_set() =~= a@.to_set().filter(|v: i32| keep@.has(v)));
    }
    Domain::from_sorted(out)
}

/// Element-wise equality of two vectors.
fn same_sorted(a: &Vec<i32>, b: &Vec<i32>) -> (r: bool)
    ensures
        r == (a@ == b@),
{
    if a.len() != b.len() {
        return false;
    }
    let mut i: usize = 0;
    while i < a.len()
        invariant
            0 <= i <= a@.len(),
            a@.len() == b@.len(),
            forall|j: int| 0 <= j < i ==> a@[j] == b@[j],
        decreases a@.len() - i,
    {
        if a[i] != b[i] {
            return false;
        }
        i = i + 1;
    }
    assert(a@ =~= b@);
    true
}

/// Two strictly sorted sequences with the same members are equal.
proof fn lemma_sorted_unique(a: Seq<i32>, b: Seq<i32>)
    requires
        strictly_sorted(a),
        strictly_sorted(b),
        a.to_set() == b.to_set(),
    ensures
        a == b,
    decreases a.len(),
{
    lemma_sorted_set_len(a);
    lemma_sorted_set_len(b);
    if a.len() > 0 {
        let m = a.last();
        assert(a.to_set().contains(m));
        assert(b.to_set().contains(b.last()));
        assert(b.last() == m) by {
            let j = choose|j: int| 0 <= j < b.len() && b[j] == m;
            let k = choose|k: int| 0 <= k < a.len() && a[k] == b.last();
            if j < b.len() - 1 {
                assert(b[j] < b.last());
                assert(a[k] <= m);
            }
        }
        let a2 = a.drop_last();
        let b2 = b.drop_last();
        assert(a2.to_set() =~= b2.to_set()) by {
            assert forall|v: i32| #[trigger] a2.to_set().contains(v) == b2.to_set().contains(v) by {
                if a2.contains(v) {
                    let k = choose|k: int| 0 <= k < a2.len() && a2[k] == v;
                    assert(a.contains(v)) by { assert(a[k] == v); }
                    assert(a.to_set().contains(v));
                    assert(b.to_set().contains(v));
                    assert(b.contains(v));
                    let j = choose|j: int| 0 <= j < b.len() && b[j] == v;
                    assert(a[k] < m);
                    assert(j != b.len() - 1);
                    assert(b2[j] == v);
                }
                if b2.contains(v) {
                    let k = choose|k: int| 0 <= k < b2.len() && b2[k] == v;
                    assert(b.contains(v)) by { assert(b[k] == v); }
                    assert(b.to_set().contains(v));
                    assert(a.to_set().contains(v));
                    assert(a.contains(v));
                    let j = choose|j: int| 0 <= j < a.len() && a[j] == v;
                    assert(b[k] < m);
                    assert(j != a.len() - 1);
                    assert(a2[j] == v);
                }
            }
        }
        lemma_sorted_unique(a2, b2);
        assert(a =~= a2.push(m));
        assert(b =~= b2.push(m));
    }
}


/// Comma-separated decimal texts of the values.
pub open spec fn list_text(s: Seq<i32>) -> Seq<char>
    decreases s.len(),
{
    if s.len() == 0 {
        Seq::<char>::empty()
    } else if s.len() == 1 {
        int_text(s[0] as int)
    } else {
        list_text(s.drop_last()) + seq![',', ' '] + int_text(s.last() as int)
    }
}

/// The text `Domain::render` writes.
pub open spec fn domain_text(d: Domain) -> Seq<char> {
    match d {
        Domain::Values(a) => values_text(a@),
        _ => view_text(d@),
    }
}

/// A brace list of sorted values, showing at most five of them and then the total.
pub open spec fn values_text(a: Seq<i32>) -> Seq<char> {
    seq!['{'] + if a.len() > 5 {
        list_text(a.subrange(0, 5)) + seq![',', ' ', '.', '.', '.', ' ', '('] + digits(a.len() as nat)
            + seq![' ', 't', 'o', 't', 'a', 'l', ')']
    } else {
        list_text(a)
    } + seq!['}']
}

/// The sorted listing of a finite set of values.
pub open spec fn sorted_listing(s: Set<i32>) -> Seq<i32> {
    choose|a: Seq<i32>| strictly_sorted(a) && a.to_set() == s
}

/// The text of a domain model, as `Domain::render` writes it for a well-formed domain.
pub open spec fn view_text(d: DomainView) -> Seq<char> {
    match d {
        DomainView::Single(v) => int_text(v as int),
        DomainView::Range { min, max } => seq!['['] + int_text(min as int) + seq!['.', '.', '=']
            + int_text(max as int) + seq![']'],
        DomainView::Values(s) => values_text(sorted_listing(s)),
        DomainView::Top => seq!['\u{1d1b}'],
        DomainView::Bottom => seq!['\u{2205}'],
    }
}

/// The text of a well-formed domain depends on its model alone.
pub proof fn lemma_text_of_view(d: Domain)
    requires
        d.wf(),
    ensures
        domain_text(d) == view_text(d@),
{
    if let Domain::Values(a) = d {
        let s = a@.to_set();
        assert(strictly_sorted(a@) && a@.to_set() == s);
        let c = sorted_listing(s);
        lemma_sorted_unique(c, a@);
    }
}

/// Inserts `x` into a strictly sorted vector, keeping it strictly sorted.
fn insert_sorted(w: &mut Vec<i32>, x: i32)
    requires
        strictly_sorted(old(w)@),
    ensures
        strictly_sorted(final(w)@),
        final(w)@.to_set() =~= old(w)@.to_set().insert(x),
{
    let mut i: usize = 0;
    while i < w.len() && w[i] < x
        invariant
            0 <= i <= w@.len(),
            strictly_sorted(w@),
            w@ == old(w)@,
            forall|j: int| 0 <= j < i ==> w@[j] < x,
        decreases w@.len() - i,
    {
        i = i + 1;
    }
    if i < w.len() && w[i] == x {
        assert(old(w)@.to_set().insert(x) =~= old(w)@.to_set()) by {
            assert(old(w)@.contains(x)) by {
                assert(old(w)@[i as int] == x);
            }
        }
        return ;
    }
    let ghost before = w@;
    w.insert(i, x);
    proof {
        before.insert_ensures(i as int, x);
        let after = w@;
        assert(after[i as int] == x);
        assert forall|p: int, q: int| 0 <= p < q < after.len() implies after[p] < after[q] by {
            if q < i {
                assert(after[p] == before[p] && after[q] == before[q]);
            } else if q == i {
                assert(after[p] == before[p]);
            } else if p < i {
                assert(after[p] == before[p] && after[q] == before[q - 1]);
                assert(before[i as int] > x);
                if q - 1 > i {
                    assert(before[i as int] < before[q - 1]);
                }
            } else if p == i {
                assert(after[q] == before[q - 1]);
                assert(before[i as int] > x);
                if q - 1 > i {
                    assert(before[i as int] < before[q - 1]);
                }
            } else {
                assert(after[p] == before[p - 1] && after[q] == before[q - 1]);
            }
        }
        assert forall|y: i32| #[trigger] after.to_set().contains(y) == before.to_set().insert(
            x,
        ).contains(y) by {
            if after.contains(y) {
                let j = choose|j: int| 0 <= j < after.len() && after[j] == y;
                if j < i {
                    assert(before[j] == y);
                } else if j > i {
                    assert(before[j - 1] == y);
                }
            }
            if before.contains(y) {
                let j = choose|j: int| 0 <= j < before.len() && before[j] == y;
                if j < i {
                    assert(after[j] == y);
                } else {
                    assert(after[j + 1] == y);
                }
            }
            if y == x {
                assert(after[i as int] == y);
            }
        }
    }
}

} // verus!
