//! Literals: atoms and their negations.

use vstd::prelude::*;
use crate::strings::owned;
use crate::text::concat;

verus! {

/// A propositional literal: an atom or its negation.
#[derive(Debug, Clone, PartialEq, Eq, Hash)]
pub enum Literal {
    /// A positive atom.
    Atom(String),
    /// The negation of an atom.
    Neg(String),
}

impl Literal {
    /// Whether the literal is negated.
    pub open spec fn negated(&self) -> bool {
        self is Neg
    }

    /// The atom's name.
    pub open spec fn atom_name(&self) -> Seq<char> {
        match self {
            Literal::Atom(s) => s@,
            Literal::Neg(s) => s@,
        }
    }

    /// The literal has polarity `neg` and atom `name`.
    pub open spec fn is(&self, neg: bool, name: Seq<char>) -> bool {
        self.negated() == neg && self.atom_name() == name
    }

    /// The literal as text: the atom's name, after `¬` when negated.
    pub open spec fn text_view(&self) -> Seq<char> {
        if self.negated() {
            seq!['¬'] + self.atom_name()
        } else {
            self.atom_name()
        }
    }

    /// The literal as text: the atom's name, after `¬` when negated.
    pub fn text(&self) -> (r: String)
        ensures
            r@ == self.text_view(),
    {
        match self {
            Literal::Atom(s) => s.clone(),
            Literal::Neg(s) => {
                proof {
                    reveal_strlit("¬");
                }
                concat("¬", s.as_str())
            },
        }
    }

    /// The positive literal for `name`.
    pub fn atom(name: &str) -> (r: Literal)
        ensures
            r.is(false, name@),
    {
        Literal::Atom(owned(name))
    }

    /// The negated literal for `name`.
    pub fn neg(name: &str) -> (r: Literal)
        ensures
            r.is(true, name@),
    {
        Literal::Neg(owned(name))
    }

    /// The literal of opposite polarity over the same atom.
    pub fn contrary(&self) -> (r: Literal)
        ensures
            r.is(!self.negated(), self.atom_name()),
    {
        match self {
            Literal::Atom(s) => Literal::Neg(s.clone()),
            Literal::Neg(s) => Literal::Atom(s.clone()),
        }
    }

    /// Whether `other` is the contrary of this literal: same atom,
    /// opposite polarity.
    pub fn is_contrary_of(&self, other: &Literal) -> (r: bool)
        ensures
            r == (self.negated() != other.negated() && self.atom_name() == other.atom_name()),
    {
        match (self, other) {
            (Literal::Atom(a), Literal::Neg(b)) => *a == *b,
            (Literal::Neg(a), Literal::Atom(b)) => *a == *b,
            _ => false,
        }
    }
}

} // verus!
