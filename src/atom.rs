//! Expressions and runtime values, with their mathematical model.
use vstd::prelude::*;

use crate::util::push_char;

verus! {

/// One expression: both the syntax read from a program and the values that
/// evaluation produces.
#[derive(Debug)]
pub enum Atom {
    List(Vec<Atom>),
    Integer(i64),
    Identifier(String),
    Quoted(Box<Atom>),
    Lambda(Closure),
}

/// A function value made by `lambda`: the frame it captured (an index into the
/// environment's arena), its parameter names and its body (a list of expressions).
#[derive(Debug)]
pub struct Closure {
    pub scope: usize,
    pub parameters: Vec<String>,
    pub body: Box<Atom>,
}

/// The mathematical model of an [`Atom`].
pub enum Term {
    List(Seq<Term>),
    Integer(i64),
    Identifier(Seq<char>),
    Quoted(Box<Term>),
    Lambda { scope: nat, parameters: Seq<Seq<char>>, body: Box<Term> },
}

/// The names of a parameter list.
pub open spec fn names_view(v: Seq<String>) -> Seq<Seq<char>> {
    Seq::new(v.len(), |i: int| v[i]@)
}

/// The model of one value.
pub open spec fn term_of(a: Atom) -> Term
    decreases a,
{
    match a {
        Atom::List(v) => Term::List(terms_of(v@)),
        Atom::Integer(n) => Term::Integer(n),
        Atom::Identifier(s) => Term::Identifier(s@),
        Atom::Quoted(b) => Term::Quoted(Box::new(term_of(*b))),
        Atom::Lambda(c) => Term::Lambda {
            scope: c.scope as nat,
            parameters: names_view(c.parameters@),
            body: Box::new(term_of(*c.body)),
        },
    }
}

/// The models of a sequence of values, element by element.
pub open spec fn terms_of(s: Seq<Atom>) -> Seq<Term>
    decreases s,
{
    Seq::new(s.len(), |i: int| if 0 <= i < s.len() { term_of(s[i]) } else { Term::Integer(0) })
}

/// Structural equality of values: lists element by element, identifiers by
/// name, integers by value, quoted values by their contents. A closure is equal
/// to nothing, itself included.
pub open spec fn terms_equal(a: Term, b: Term) -> bool
    decreases a,
{
    match (a, b) {
        (Term::List(x), Term::List(y)) => x.len() == y.len() && forall|i: int|
            0 <= i < x.len() ==> terms_equal(#[trigger] x[i], y[i]),
        (Term::Integer(m), Term::Integer(n)) => m == n,
        (Term::Identifier(m), Term::Identifier(n)) => m == n,
        (Term::Quoted(p), Term::Quoted(q)) => terms_equal(*p, *q),
        _ => false,
    }
}

/// The decimal digit `d < 10`.
pub open spec fn digit_char(d: nat) -> char {
    ('0' as u32 + d) as char
}

/// The decimal digits of `n`, most significant first.
pub open spec fn digits_text(n: nat) -> Seq<char>
    decreases n,
{
    if n < 10 {
        seq![digit_char(n)]
    } else {
        digits_text(n / 10).push(digit_char(n % 10))
    }
}

/// An integer in decimal, with a leading `-` when negative.
pub open spec fn integer_text(v: i64) -> Seq<char> {
    if v < 0 {
        seq!['-'] + digits_text((-v) as nat)
    } else {
        digits_text(v as nat)
    }
}

/// The printed form of a value: a list as `( ` then each element followed by a
/// space, then `)`; an identifier as its name; an integer in decimal; a quoted
/// value as `' ` then its contents; a closure as `<lambda>`.
pub open spec fn render(t: Term) -> Seq<char>
    decreases t,
{
    match t {
        Term::List(xs) => "( "@ + render_items(xs) + ")"@,
        Term::Integer(v) => integer_text(v),
        Term::Identifier(n) => n,
        Term::Quoted(b) => "' "@ + render(*b),
        Term::Lambda { .. } => "<lambda>"@,
    }
}

/// Each element rendered and followed by a space.
pub open spec fn render_items(xs: Seq<Term>) -> Seq<char>
    decreases xs,
{
    if xs.len() == 0 {
        Seq::empty()
    } else {
        render_items(xs.drop_last()) + render(xs.last()) + " "@
    }
}

impl View for Atom {
    type V = Term;

    open spec fn view(&self) -> Term {
        term_of(*self)
    }
}

impl Atom {
    /// The printed form of this value.
    pub fn to_text(&self) -> (r: String)
        ensures
            r@ == render(self@),
        decreases *self,
    {
        match self {
            Atom::List(atoms) => {
                let mut out = String::from_str("( ");
                let ghost ts = terms_of(atoms@);
                let mut i: usize = 0;
                while i < atoms.len()
                    invariant
                        decreases_to!(*self => *atoms),
                        i <= atoms@.len(),
                        ts == terms_of(atoms@),
                        out@ == "( "@ + render_items(ts.take(i as int)),
                    decreases atoms@.len() - i,
                {
                    proof {
                        assert(decreases_to!(*atoms => atoms[i as int]));
                    }
                    let item = atoms[i].to_text();
                    out.append(item.as_str());
                    out.append(" ");
                    assert(ts.take(i + 1).drop_last() =~= ts.take(i as int));
                    assert(ts[i as int] == atoms@[i as int]@);
                    assert(out@ =~= "( "@ + render_items(ts.take(i + 1)));
                    i = i + 1;
                }
                out.append(")");
                assert(ts.take(atoms@.len() as int) =~= ts);
                out
            },
            Atom::Lambda(_) => String::from_str("<lambda>"),
            Atom::Identifier(name) => name.clone(),
            Atom::Integer(num) => integer_to_text(*num),
            Atom::Quoted(atom) => {
                let mut out = String::from_str("' ");
                let inner = (**atom).to_text();
                out.append(inner.as_str());
                out
            },
        }
    }
}

/// `v` in decimal.
fn integer_to_text(v: i64) -> (r: String)
    ensures
        r@ == integer_text(v),
{
    let m0: u64 = if v < 0 {
        ((-(v + 1)) as u64) + 1
    } else {
        v as u64
    };
    let mut m: u64 = m0;
    let mut low_first: Vec<char> = Vec::new();
    while m >= 10
        invariant
            digits_text(m0 as nat) == digits_text(m as nat) + low_first@.reverse(),
        decreases m,
    {
        let d = (m % 10) as u32;
        let ghost before = low_first@;
        low_first.push(char_of_digit(d));
        assert(low_first@.reverse() =~= seq![digit_char(d as nat)] + before.reverse());
        assert(digits_text(m as nat) == digits_text((m / 10) as nat).push(digit_char((m % 10) as nat)));
        m = m / 10;
    }
    let mut out = if v < 0 {
        String::from_str("-")
    } else {
        String::new()
    };
    proof {
        reveal_strlit("-");
    }
    let ghost prefix = out@;
    push_char(&mut out, char_of_digit(m as u32));
    let mut k: usize = low_first.len();
    while k > 0
        invariant
            k <= low_first@.len(),
            out@ == prefix + seq![digit_char(m as nat)] + low_first@.reverse().take(low_first@.len() - k),
        decreases k,
    {
        push_char(&mut out, low_first[k - 1]);
        assert(low_first@.reverse().take(low_first@.len() - k + 1) =~= low_first@.reverse().take(low_first@.len() - k).push(low_first@[k - 1]));
        k = k - 1;
    }
    assert(low_first@.reverse().take(low_first@.len() as int) =~= low_first@.reverse());
    assert(digits_text(m as nat) == seq![digit_char(m as nat)]);
    assert(out@ =~= prefix + digits_text(m0 as nat));
    out
}

fn char_of_digit(d: u32) -> (r: char)
    requires
        d < 10,
    ensures
        r == digit_char(d as nat),
{
    if d == 0 { '0' } else if d == 1 { '1' } else if d == 2 { '2' } else if d == 3 { '3' } else if d == 4 { '4' }
    else if d == 5 { '5' } else if d == 6 { '6' } else if d == 7 { '7' } else if d == 8 { '8' } else { '9' }
}

impl Clone for Atom {
    fn clone(&self) -> (r: Atom)
        ensures
            r@ == self@,
        decreases *self,
    {
        match self {
            Atom::List(items) => {
                assert(decreases_to!(*self => *items));
                let mut out: Vec<Atom> = Vec::new();
                let mut i: usize = 0;
                while i < items.len()
                    invariant
                        i <= items@.len(),
                        decreases_to!(*self => *items),
                        out@.len() == i,
                        forall|j: int| 0 <= j < i ==> #[trigger] out@[j]@ == items@[j]@,
                    decreases items@.len() - i,
                {
                    proof {
                        assert(decreases_to!(*items => items[i as int]));
                    }
                    out.push(items[i].clone());
                    i = i + 1;
                }
                assert forall|j: int| 0 <= j < items@.len() implies terms_of(out@)[j] == terms_of(items@)[j] by {
                    assert(out@[j]@ == items@[j]@);
                }
                assert(terms_of(out@) =~= terms_of(items@));
                Atom::List(out)
            },
            Atom::Integer(n) => Atom::Integer(*n),
            Atom::Identifier(s) => Atom::Identifier(s.clone()),
            Atom::Quoted(b) => Atom::Quoted(Box::new((**b).clone())),
            Atom::Lambda(c) => Atom::Lambda(c.clone()),
        }
    }
}

impl PartialEq for Atom {
    fn eq(&self, other: &Atom) -> (r: bool)
        ensures
            r == terms_equal(self@, other@),
        decreases *self,
    {
        match (self, other) {
            (Atom::List(x), Atom::List(y)) => {
                assert(self@ == Term::List(terms_of(x@)));
                assert(other@ == Term::List(terms_of(y@)));
                if x.len() != y.len() {
                    return false;
                }
                let mut i: usize = 0;
                while i < x.len()
                    invariant
                        decreases_to!(*self => *x),
                        i <= x@.len(),
                        x@.len() == y@.len(),
                        self@ == Term::List(terms_of(x@)),
                        other@ == Term::List(terms_of(y@)),
                        forall|j: int| 0 <= j < i ==> terms_equal(#[trigger] terms_of(x@)[j], terms_of(y@)[j]),
                    decreases x@.len() - i,
                {
                    proof {
                        assert(decreases_to!(*x => x[i as int]));
                    }
                    if !x[i].eq(&y[i]) {
                        assert(terms_of(x@)[i as int] == x@[i as int]@);
                        assert(terms_of(y@)[i as int] == y@[i as int]@);
                        return false;
                    }
                    i = i + 1;
                }
                true
            },
            (Atom::Integer(m), Atom::Integer(n)) => *m == *n,
            (Atom::Identifier(m), Atom::Identifier(n)) => *m == *n,
            (Atom::Quoted(p), Atom::Quoted(q)) => (**p).eq(&**q),
            _ => false,
        }
    }
}

impl vstd::std_specs::cmp::PartialEqSpecImpl for Atom {
    open spec fn obeys_eq_spec() -> bool {
        true
    }

    open spec fn eq_spec(&self, other: &Atom) -> bool {
        terms_equal(self@, other@)
    }
}

impl Clone for Closure {
    fn clone(&self) -> (r: Closure)
        ensures
            r.scope == self.scope,
            names_view(r.parameters@) == names_view(self.parameters@),
            r.body@ == self.body@,
        decreases self,
    {
        let mut params: Vec<String> = Vec::new();
        let mut i: usize = 0;
        while i < self.parameters.len()
            invariant
                i <= self.parameters@.len(),
                params@.len() == i,
                forall|j: int| 0 <= j < i ==> #[trigger] params@[j]@ == self.parameters@[j]@,
            decreases self.parameters@.len() - i,
        {
            params.push(self.parameters[i].clone());
            i = i + 1;
        }
        assert(names_view(params@) =~= names_view(self.parameters@));
        Closure { scope: self.scope, parameters: params, body: Box::new((*self.body).clone()) }
    }
}

} // verus!
