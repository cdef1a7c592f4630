use std::collections::HashMap;
use vstd::prelude::*;

use crate::domain::{Domain, DomainView};
use crate::term::{Term, VarId};

verus! {

broadcast use vstd::std_specs::hash::group_hash_axioms;

/// What is known of a term: a literal is its own value, a variable what is stored.
pub open spec fn lookup(s: Map<VarId, DomainView>, t: Term) -> Option<DomainView> {
    match t {
        Term::Val(v) => Some(DomainView::Single(v)),
        Term::Var { id, .. } => if s.contains_key(id) {
            Some(s[id])
        } else {
            None
        },
    }
}

/// What is known of a term, with absence read as `Top`.
pub open spec fn known(s: Map<VarId, DomainView>, t: Term) -> DomainView {
    match lookup(s, t) {
        Some(d) => d,
        None => DomainView::Top,
    }
}

/// The store after meeting term `t`'s domain with `d`: only variables are stored.
pub open spec fn refined(s: Map<VarId, DomainView>, t: Term, d: DomainView) -> Map<VarId, DomainView> {
    match t {
        Term::Var { id, .. } => if known(s, t).meet(d) != known(s, t) {
            s.insert(id, known(s, t).meet(d))
        } else {
            s
        },
        Term::Val(_) => s,
    }
}

/// What one propagation step does to a store.
pub enum Outcome {
    /// The step narrowed a domain, giving this store.
    Made(Map<VarId, DomainView>),
    /// Nothing could be deduced.
    Stalled,
    /// The constraint cannot hold.
    Fails,
}

/// The binding store: the current domain of each variable that has one.
pub struct Subst {
    map: HashMap<VarId, Domain>,
}

impl View for Subst {
    type V = Map<VarId, DomainView>;

    closed spec fn view(&self) -> Map<VarId, DomainView> {
        self.map@.map_values(|d: Domain| d@)
    }
}

impl Subst {
    /// Every stored domain is well formed.
    pub closed spec fn wf(&self) -> bool {
        forall|k: VarId| #[trigger] self.map@.contains_key(k) ==> self.map@[k].wf()
    }

    pub fn new() -> (r: Subst)
        ensures
            r.wf(),
            r@ == Map::<VarId, DomainView>::empty(),
    {
        let r = Subst { map: HashMap::new() };
        assert(r@ =~= Map::<VarId, DomainView>::empty());
        r
    }

    /// The stored domain of a variable.
    pub fn get_var(&self, id: VarId) -> (r: Option<Domain>)
        requires
            self.wf(),
        ensures
            match r {
                Some(d) => self@.contains_key(id) && d@ == self@[id] && d.wf(),
                None => !self@.contains_key(id),
            },
    {
        match self.map.get(&id) {
            Some(d) => Some(d.clone()),
            None => None,
        }
    }

    /// The current knowledge of a term; `None` for a variable with no domain yet.
    pub fn get(&self, t: &Term) -> (r: Option<Domain>)
        requires
            self.wf(),
        ensures
            r matches Some(d) ==> d.wf(),
            match r {
                Some(d) => lookup(self@, *t) == Some(d@),
                None => lookup(self@, *t) is None,
            },
    {
        match t {
            Term::Val(v) => Some(Domain::Single(*v)),
            Term::Var { id, .. } => self.get_var(*id),
        }
    }

    /// The domains of two terms, when both have one.
    pub fn get_pair(&self, a: &Term, b: &Term) -> (r: Option<(Domain, Domain)>)
        requires
            self.wf(),
        ensures
            match r {
                Some((x, y)) => lookup(self@, *a) == Some(x@) && lookup(self@, *b) == Some(y@)
                    && x.wf() && y.wf(),
                None => lookup(self@, *a) is None || lookup(self@, *b) is None,
            },
    {
        match (self.get(a), self.get(b)) {
            (Some(x), Some(y)) => Some((x, y)),
            _ => None,
        }
    }

    /// Stores `d` for a variable that has no domain yet; a bound variable or a
    /// literal is left as it is. Returns whether it stored.
    pub fn bind(&mut self, t: &Term, d: Domain) -> (r: bool)
        requires
            old(self).wf(),
            d.wf(),
        ensures
            final(self).wf(),
            r == (t is Var && !old(self)@.contains_key(t->id)),
            final(self)@ == if r {
                old(self)@.insert(t->id, d@)
            } else {
                old(self)@
            },
    {
        match t {
            Term::Var { id, .. } => {
                if self.map.contains_key(id) {
                    false
                } else {
                    self.map.insert(*id, d);
                    assert(self@ =~= old(self)@.insert(*id, d@));
                    true
                }
            },
            Term::Val(_) => false,
        }
    }

    /// Meets a variable's domain (`Top` when it has none) with `d`, storing the
    /// result when it differs. Returns whether the store changed.
    pub fn refine(&mut self, t: &Term, d: &Domain) -> (r: bool)
        requires
            old(self).wf(),
            d.wf(),
        ensures
            final(self).wf(),
            final(self)@ == refined(old(self)@, *t, d@),
            r == (final(self)@ != old(self)@),
    {
        match t {
            Term::Var { id, .. } => {
                let cur = match self.map.get(id) {
                    Some(c) => c.clone(),
                    None => Domain::Top,
                };
                assert(cur@ == known(self@, *t));
                let new = cur.refine(d);
                if new.same(&cur) {
                    false
                } else {
                    self.map.insert(*id, new);
                    assert(self@ =~= old(self)@.insert(*id, known(old(self)@, *t).meet(d@)));
                    assert(self@[*id] != old(self)@[*id] || !old(self)@.contains_key(*id));
                    true
                }
            },
            Term::Val(_) => false,
        }
    }

    /// Meets `to`'s domain with what is known of `from`.
    pub fn propagate(&mut self, from: &Term, to: &Term) -> (r: bool)
        requires
            old(self).wf(),
        ensures
            final(self).wf(),
            final(self)@ == refined(old(self)@, *to, known(old(self)@, *from)),
            r == (final(self)@ != old(self)@),
    {
        let d = match self.get(from) {
            Some(d) => d,
            None => Domain::Top,
        };
        self.refine(to, &d)
    }
}

} // verus!
