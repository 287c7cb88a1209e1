//! Reading a token stack into an expression tree.
use vstd::prelude::*;

use crate::atom::{Atom, Term, terms_of};
use crate::error::SyntaxError;
use crate::tokenizer::{Lexeme, Token, lexemes};
use crate::util::prepend;

verus! {

/// A recursive-descent reader over a stack of tokens; the next token is the last.
#[derive(Debug)]
pub struct Parser {
    tokens: Vec<Token>,
}

/// What a parse step yields: the expression and the tokens left.
pub type Parsed<T> = Result<(T, Seq<Lexeme>), SyntaxError>;

/// One expression from the top of the stack `st`.
pub open spec fn parse_atom_of(st: Seq<Lexeme>) -> Parsed<Term>
    decreases st.len(), 0nat,
{
    if st.len() == 0 {
        Err(SyntaxError::UnexpectedEnd)
    } else {
        let rest = st.drop_last();
        match st.last() {
            Lexeme::Quote => match parse_atom_of(rest) {
                Ok((a, left)) => Ok((Term::Quoted(Box::new(a)), left)),
                Err(e) => Err(e),
            },
            Lexeme::OpenParen => parse_list_of(rest),
            Lexeme::Identifier(n) => Ok((Term::Identifier(n), rest)),
            Lexeme::Integer(v) => Ok((Term::Integer(v), rest)),
            Lexeme::CloseParen => Err(SyntaxError::UnexpectedToken),
        }
    }
}

/// Expressions up to a `)` or the end of the stack.
pub open spec fn parse_atoms_of(st: Seq<Lexeme>) -> Parsed<Seq<Term>>
    decreases st.len(), 1nat,
{
    if st.len() == 0 || st.last() is CloseParen {
        Ok((Seq::empty(), st))
    } else {
        match parse_atom_of(st) {
            Ok((a, left)) => if left.len() < st.len() {
                match parse_atoms_of(left) {
                    Ok((xs, left2)) => Ok((seq![a] + xs, left2)),
                    Err(e) => Err(e),
                }
            } else {
                Err(SyntaxError::UnexpectedEnd)
            },
            Err(e) => Err(e),
        }
    }
}

/// The elements of a list whose `(` has been read.
pub open spec fn parse_list_body_of(st: Seq<Lexeme>) -> Parsed<Seq<Term>>
    decreases st.len(), 2nat,
{
    if st.len() == 0 {
        Err(SyntaxError::EmptyListBody)
    } else {
        parse_atoms_of(st)
    }
}

/// A list whose `(` has been read, with its `)`.
pub open spec fn parse_list_of(st: Seq<Lexeme>) -> Parsed<Term>
    decreases st.len(), 3nat,
{
    match parse_list_body_of(st) {
        Ok((xs, left)) => if left.len() > 0 && left.last() is CloseParen {
            Ok((Term::List(xs), left.drop_last()))
        } else {
            Err(SyntaxError::UnclosedList)
        },
        Err(e) => Err(e),
    }
}

/// A whole program: all its expressions, as one list, with no token left over.
pub open spec fn parse_program(st: Seq<Lexeme>) -> Result<Term, SyntaxError> {
    match parse_atoms_of(st) {
        Ok((xs, left)) => if left.len() > 0 {
            Err(SyntaxError::LeftoverTokens)
        } else {
            Ok(Term::List(xs))
        },
        Err(e) => Err(e),
    }
}

pub open spec fn parsed_view(r: Result<Atom, SyntaxError>, left: Seq<Lexeme>) -> Parsed<Term> {
    match r {
        Ok(a) => Ok((a@, left)),
        Err(e) => Err(e),
    }
}

impl Parser {
    pub closed spec fn stack(&self) -> Seq<Lexeme> {
        lexemes(self.tokens@)
    }

    /// A parser over `tokens`, a stack whose last element is read first.
    pub fn new(tokens: Vec<Token>) -> (r: Parser)
        ensures
            r.stack() == lexemes(tokens@),
    {
        Parser { tokens }
    }

    /// Reads the whole token stack as a program.
    pub fn parse(&mut self) -> (r: Result<Atom, SyntaxError>)
        ensures
            match r {
                Ok(a) => parse_program(old(self).stack()) == Ok::<Term, SyntaxError>(a@),
                Err(e) => parse_program(old(self).stack()) == Err::<Term, SyntaxError>(e),
            },
    {
        match self.parse_atoms() {
            Ok(value) => {
                if self.tokens.len() > 0 {
                    Err(SyntaxError::LeftoverTokens)
                } else {
                    Ok(value)
                }
            },
            Err(e) => Err(e),
        }
    }

    fn parse_atoms(&mut self) -> (r: Result<Atom, SyntaxError>)
        ensures
            match r {
                Ok(a) => parse_atoms_of(old(self).stack()) matches Ok((xs, left)) && a@ == Term::List(xs)
                    && left == final(self).stack(),
                Err(e) => parse_atoms_of(old(self).stack()) == Err::<(Seq<Term>, Seq<Lexeme>), SyntaxError>(e),
            },
            final(self).stack().len() <= old(self).stack().len(),
        decreases self.tokens@.len(), 1nat,
    {
        let empty: Vec<Atom> = Vec::new();
        assert(terms_of(empty@) =~= Seq::<Term>::empty());
        match self.head_token() {
            None => Ok(Atom::List(empty)),
            Some(Token::CloseParen) => Ok(Atom::List(empty)),
            Some(_) => {
                let atom = match self.parse_atom() {
                    Ok(a) => a,
                    Err(e) => {
                        return Err(e);
                    },
                };
                let atoms = match self.parse_atoms() {
                    Ok(a) => a,
                    Err(e) => {
                        return Err(e);
                    },
                };
                let mut atoms_vec = match atoms {
                    Atom::List(v) => v,
                    _ => Vec::new(),
                };
                let ghost tail = atoms_vec@;
                let items = prepend(atom, &mut atoms_vec);
                assert(terms_of(items@) =~= seq![items@[0]@] + terms_of(tail)) by {
                    assert forall|j: int| 1 <= j < items@.len() implies terms_of(items@)[j] == terms_of(tail)[j - 1] by {
                        assert(items@[j] == tail[j - 1]);
                    }
                }
                Ok(Atom::List(items))
            },
        }
    }

    /// One expression from the top of the stack.
    fn parse_atom(&mut self) -> (r: Result<Atom, SyntaxError>)
        ensures
            parsed_view(r, final(self).stack()) == parse_atom_of(old(self).stack()),
            final(self).stack().len() <= old(self).stack().len(),
            r is Ok ==> final(self).stack().len() < old(self).stack().len(),
        decreases self.tokens@.len(), 0nat,
    {
        let ghost st = self.stack();
        match self.tokens.pop() {
            None => Err(SyntaxError::UnexpectedEnd),
            Some(t) => {
                assert(self.stack() =~= st.drop_last());
                match t {
                    Token::Quote => match self.parse_atom() {
                        Ok(a) => Ok(Atom::Quoted(Box::new(a))),
                        Err(e) => Err(e),
                    },
                    Token::OpenParen => self.parse_list(),
                    Token::Identifier(name) => Ok(Atom::Identifier(name)),
                    Token::Integer(number) => Ok(Atom::Integer(number)),
                    Token::CloseParen => Err(SyntaxError::UnexpectedToken),
                }
            },
        }
    }

    /// A list whose `(` has been read, up to and with its `)`.
    fn parse_list(&mut self) -> (r: Result<Atom, SyntaxError>)
        ensures
            parsed_view(r, final(self).stack()) == parse_list_of(old(self).stack()),
            final(self).stack().len() <= old(self).stack().len(),
            r is Ok ==> final(self).stack().len() < old(self).stack().len(),
        decreases self.tokens@.len(), 3nat,
    {
        let body = match self.parse_list_body() {
            Ok(b) => b,
            Err(e) => {
                return Err(e);
            },
        };
        let ghost st = self.stack();
        match self.tokens.pop() {
            Some(Token::CloseParen) => {
                assert(self.stack() =~= st.drop_last());
                Ok(body)
            },
            _ => Err(SyntaxError::UnclosedList),
        }
    }

    /// The elements of a list whose `(` has been read.
    fn parse_list_body(&mut self) -> (r: Result<Atom, SyntaxError>)
        ensures
            match r {
                Ok(a) => parse_list_body_of(old(self).stack()) matches Ok((xs, left)) && a@ == Term::List(xs)
                    && left == final(self).stack(),
                Err(e) => parse_list_body_of(old(self).stack()) == Err::<(Seq<Term>, Seq<Lexeme>), SyntaxError>(e),
            },
            final(self).stack().len() <= old(self).stack().len(),
        decreases self.tokens@.len(), 2nat,
    {
        match self.head_token() {
            Some(_) => self.parse_atoms(),
            None => Err(SyntaxError::EmptyListBody),
        }
    }

    /// The next token, left on the stack.
    fn head_token(&self) -> (r: Option<Token>)
        ensures
            match r {
                Some(t) => self.stack().len() > 0 && t@ == self.stack().last(),
                None => self.stack().len() == 0,
            },
    {
        if self.tokens.is_empty() {
            None
        } else {
            Some(self.tokens[self.tokens.len() - 1].clone())
        }
    }
}

} // verus!
