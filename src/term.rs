use vstd::prelude::*;

verus! {

pub type VarId = usize;

pub type Val = i32;

/// A scalar value, or a logic variable identified by its id.
///
/// The optional name of a variable is a display label only: equality looks at
/// the id alone.
#[derive(Debug)]
pub enum Term {
    Val(Val),
    Var { name: Option<String>, id: VarId },
}

/// What identifies a term: its value, or its variable id.
pub enum TermKey {
    Val(Val),
    Var(VarId),
}

impl Term {
    pub open spec fn key(&self) -> TermKey {
        match self {
            Term::Val(v) => TermKey::Val(*v),
            Term::Var { id, .. } => TermKey::Var(*id),
        }
    }

    /// A variable term with this id and no name.
    pub fn var(id: VarId) -> (r: Term)
        ensures
            r.key() == TermKey::Var(id),
    {
        Term::Var { name: None, id }
    }

    /// The term rendered by identity alone: `#id` for a variable, the number for a value.
    pub fn no_name(&self) -> (r: String)
        ensures
            r@ == plain_term_text(*self),
    {
        let mut s = String::new();
        match self {
            Term::Val(v) => push_int(&mut s, *v as i64),
            Term::Var { id, .. } => {
                proof {
                    reveal_strlit("#");
                }
                s.append("#");
                push_digits(&mut s, *id as u64);
            },
        }
        s
    }

    /// The term for people: the number, or the variable id followed by its name.
    pub fn render(&self) -> (r: String)
        ensures
            r@ == term_text(*self),
    {
        let mut s = String::new();
        match self {
            Term::Val(v) => push_int(&mut s, *v as i64),
            Term::Var { name, id } => {
                push_digits(&mut s, *id as u64);
                match name {
                    Some(n) => {
                        proof {
                            reveal_strlit(" (named: ");
                            reveal_strlit(")");
                        }
                        s.append(" (named: ");
                        s.append(n.as_str());
                        s.append(")");
                    },
                    None => {},
                }
            },
        }
        s
    }
}

/// The text of a term as `no_name` writes it.
pub open spec fn plain_term_text(t: Term) -> Seq<char> {
    match t {
        Term::Val(v) => int_text(v as int),
        Term::Var { id, .. } => seq!['#'] + digits(id as nat),
    }
}

/// The text of a term as `render` writes it.
pub open spec fn term_text(t: Term) -> Seq<char> {
    match t {
        Term::Val(v) => int_text(v as int),
        Term::Var { name, id } => digits(id as nat) + match name {
            Some(n) => seq![' ', '(', 'n', 'a', 'm', 'e', 'd', ':', ' '] + n@ + seq![')'],
            None => Seq::<char>::empty(),
        },
    }
}

impl PartialEq for Term {
    fn eq(&self, other: &Term) -> (r: bool)
        ensures
            r == (self.key() == other.key()),
    {
        match (self, other) {
            (Term::Val(a), Term::Val(b)) => *a == *b,
            (Term::Var { id: a, .. }, Term::Var { id: b, .. }) => *a == *b,
            _ => false,
        }
    }
}

impl vstd::std_specs::cmp::PartialEqSpecImpl for Term {
    open spec fn obeys_eq_spec() -> bool {
        true
    }

    open spec fn eq_spec(&self, other: &Term) -> bool {
        self.key() == other.key()
    }
}

impl Clone for Term {
    fn clone(&self) -> (r: Self)
        ensures
            r == *self,
    {
        match self {
            Term::Val(v) => Term::Val(*v),
            Term::Var { name, id } => {
                let n = match name {
                    Some(s) => Some(s.clone()),
                    None => None,
                };
                Term::Var { name: n, id: *id }
            },
        }
    }
}

/// Hands out variables with strictly increasing ids.
pub struct VarGen {
    next_id: VarId,
}

impl View for VarGen {
    type V = nat;

    /// The id the next fresh variable gets.
    closed spec fn view(&self) -> nat {
        self.next_id as nat
    }
}

impl VarGen {
    pub fn new() -> (r: Self)
        ensures
            r@ == 0,
    {
        VarGen { next_id: 0 }
    }

    /// A new variable whose id no earlier call of this generator handed out.
    pub fn fresh(&mut self, name: Option<String>) -> (r: Term)
        requires
            old(self)@ < usize::MAX,
        ensures
            r == (Term::Var { name, id: old(self)@ as usize }),
            final(self)@ == old(self)@ + 1,
    {
        let id = self.next_id;
        self.next_id = self.next_id + 1;
        Term::Var { name, id }
    }
}

impl Default for VarGen {
    fn default() -> (r: Self)
        ensures
            r@ == 0,
    {
        VarGen::new()
    }
}

pub open spec fn digit_char(d: nat) -> char {
    if d == 0 {
        '0'
    } else if d == 1 {
        '1'
    } else if d == 2 {
        '2'
    } else if d == 3 {
        '3'
    } else if d == 4 {
        '4'
    } else if d == 5 {
        '5'
    } else if d == 6 {
        '6'
    } else if d == 7 {
        '7'
    } else if d == 8 {
        '8'
    } else {
        '9'
    }
}

/// The decimal digits of a natural number.
pub open spec fn digits(n: nat) -> Seq<char>
    decreases n,
{
    if n < 10 {
        seq![digit_char(n)]
    } else {
        digits(n / 10) + seq![digit_char(n % 10)]
    }
}

/// The decimal text of an integer, with a leading `-` when negative.
pub open spec fn int_text(v: int) -> Seq<char> {
    if v < 0 {
        seq!['-'] + digits((-v) as nat)
    } else {
        digits(v as nat)
    }
}

fn digit_str(d: u64) -> (r: &'static str)
    requires
        d < 10,
    ensures
        r@ == seq![digit_char(d as nat)],
{
    proof {
        reveal_strlit("0");
        reveal_strlit("1");
        reveal_strlit("2");
        reveal_strlit("3");
        reveal_strlit("4");
        reveal_strlit("5");
        reveal_strlit("6");
        reveal_strlit("7");
        reveal_strlit("8");
        reveal_strlit("9");
    }
    if d == 0 {
        "0"
    } else if d == 1 {
        "1"
    } else if d == 2 {
        "2"
    } else if d == 3 {
        "3"
    } else if d == 4 {
        "4"
    } else if d == 5 {
        "5"
    } else if d == 6 {
        "6"
    } else if d == 7 {
        "7"
    } else if d == 8 {
        "8"
    } else {
        "9"
    }
}

/// Appends the decimal digits of `n`.
pub fn push_digits(s: &mut String, n: u64)
    ensures
        final(s)@ == old(s)@ + digits(n as nat),
    decreases n,
{
    if n >= 10 {
        push_digits(s, n / 10);
    }
    s.append(digit_str(n % 10));
    assert(s@ =~= old(s)@ + digits(n as nat));
}

/// Appends the decimal text of `v`.
pub fn push_int(s: &mut String, v: i64)
    requires
        v > i64::MIN,
    ensures
        final(s)@ == old(s)@ + int_text(v as int),
{
    if v < 0 {
        proof {
            reveal_strlit("-");
        }
        s.append("-");
        push_digits(s, (-v) as u64);
        assert(s@ =~= old(s)@ + int_text(v as int));
    } else {
        push_digits(s, v as u64);
    }
}

} // verus!
