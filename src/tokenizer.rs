//! Splitting program text into tokens.
use vstd::prelude::*;

use crate::error::SyntaxError;
use crate::util::{push_char, reversed};

verus! {

/// One lexical token.
#[derive(Debug)]
pub enum Token {
    OpenParen,
    CloseParen,
    Identifier(String),
    Quote,
    Integer(i64),
}

/// The model of a [`Token`].
pub enum Lexeme {
    OpenParen,
    CloseParen,
    Identifier(Seq<char>),
    Quote,
    Integer(i64),
}

impl View for Token {
    type V = Lexeme;

    open spec fn view(&self) -> Lexeme {
        match self {
            Token::OpenParen => Lexeme::OpenParen,
            Token::CloseParen => Lexeme::CloseParen,
            Token::Identifier(s) => Lexeme::Identifier(s@),
            Token::Quote => Lexeme::Quote,
            Token::Integer(n) => Lexeme::Integer(*n),
        }
    }
}

impl Clone for Token {
    fn clone(&self) -> (r: Token)
        ensures
            r@ == self@,
    {
        match self {
            Token::OpenParen => Token::OpenParen,
            Token::CloseParen => Token::CloseParen,
            Token::Identifier(s) => Token::Identifier(s.clone()),
            Token::Quote => Token::Quote,
            Token::Integer(n) => Token::Integer(*n),
        }
    }
}

pub open spec fn lexemes(v: Seq<Token>) -> Seq<Lexeme> {
    Seq::new(v.len(), |i: int| v[i]@)
}

/// The characters that `char::is_whitespace` accepts: those with the Unicode
/// `White_Space` property.
pub open spec fn is_white(c: char) -> bool {
    let u = c as u32;
    (0x9 <= u <= 0xD) || u == 0x20 || u == 0x85 || u == 0xA0 || u == 0x1680 || (0x2000 <= u
        <= 0x200A) || u == 0x2028 || u == 0x2029 || u == 0x202F || u == 0x205F || u == 0x3000
}

/// Characters that end a word.
pub open spec fn is_delimiter(c: char) -> bool {
    c == '(' || c == ')' || c == '\'' || is_white(c)
}

pub open spec fn is_digit(c: char) -> bool {
    '0' <= c <= '9'
}

pub open spec fn all_digits(w: Seq<char>) -> bool {
    forall|i: int| 0 <= i < w.len() ==> is_digit(#[trigger] w[i])
}

/// The number that a run of decimal digits denotes.
pub open spec fn digits_value(w: Seq<char>) -> nat
    decreases w.len(),
{
    if w.len() == 0 {
        0
    } else {
        digits_value(w.drop_last()) * 10 + (w.last() as nat - '0' as nat) as nat
    }
}

/// The token of a word: an integer when it is all digits, else an identifier.
pub open spec fn word_lexeme(w: Seq<char>) -> Result<Lexeme, SyntaxError> {
    if all_digits(w) {
        if digits_value(w) <= i64::MAX {
            Ok(Lexeme::Integer(digits_value(w) as i64))
        } else {
            Err(SyntaxError::IntegerOutOfRange)
        }
    } else {
        Ok(Lexeme::Identifier(w))
    }
}

/// The scanner's state: the tokens so far (in reading order) and the word being read.
pub type ScanState = (Result<Seq<Lexeme>, SyntaxError>, Seq<char>);

/// One character read with no word pending, or a character that continues a word.
pub open spec fn take_char(toks: Seq<Lexeme>, word: Seq<char>, c: char) -> ScanState {
    if c == '(' {
        (Ok(toks.push(Lexeme::OpenParen)), word)
    } else if c == ')' {
        (Ok(toks.push(Lexeme::CloseParen)), word)
    } else if c == '\'' {
        (Ok(toks.push(Lexeme::Quote)), word)
    } else if is_white(c) {
        (Ok(toks), word)
    } else {
        (Ok(toks), word.push(c))
    }
}

/// The state after reading one more character: a delimiter first ends the pending word.
pub open spec fn scan_step(st: ScanState, c: char) -> ScanState {
    match st.0 {
        Err(e) => st,
        Ok(toks) => if st.1.len() > 0 && is_delimiter(c) {
            match word_lexeme(st.1) {
                Ok(t) => take_char(toks.push(t), Seq::empty(), c),
                Err(e) => (Err(e), Seq::empty()),
            }
        } else {
            take_char(toks, st.1, c)
        },
    }
}

/// The state after reading all of `cs`.
pub open spec fn scan(cs: Seq<char>) -> ScanState
    decreases cs.len(),
{
    if cs.len() == 0 {
        (Ok(Seq::empty()), Seq::empty())
    } else {
        scan_step(scan(cs.drop_last()), cs.last())
    }
}

/// The tokens of a text, last token first (the order in which the parser pops them).
pub open spec fn tokens_of(cs: Seq<char>) -> Result<Seq<Lexeme>, SyntaxError> {
    let (r, word) = scan(cs);
    match r {
        Err(e) => Err(e),
        Ok(toks) => if word.len() > 0 {
            match word_lexeme(word) {
                Ok(t) => Ok(toks.push(t).reverse()),
                Err(e) => Err(e),
            }
        } else {
            Ok(toks.reverse())
        },
    }
}

fn is_whitespace(c: char) -> (r: bool)
    ensures
        r == is_white(c),
{
    let u = c as u32;
    (0x9 <= u && u <= 0xD) || u == 0x20 || u == 0x85 || u == 0xA0 || u == 0x1680 || (0x2000 <= u
        && u <= 0x200A) || u == 0x2028 || u == 0x2029 || u == 0x202F || u == 0x205F || u == 0x3000
}

/// Splits `program` into tokens and returns them last token first.
pub fn tokenize(program: &str) -> (r: Result<Vec<Token>, SyntaxError>)
    ensures
        match r {
            Ok(v) => tokens_of(program@) == Ok::<Seq<Lexeme>, SyntaxError>(lexemes(v@)),
            Err(e) => tokens_of(program@) == Err::<Seq<Lexeme>, SyntaxError>(e),
        },
{
    let n = program.unicode_len();
    let mut tokens: Vec<Token> = Vec::new();
    let mut long_token: Vec<char> = Vec::new();
    let mut i: usize = 0;
    assert(program@.take(0) =~= Seq::<char>::empty());
    assert(lexemes(tokens@) =~= Seq::<Lexeme>::empty());
    while i < n
        invariant
            i <= n,
            n == program@.len(),
            scan(program@.take(i as int)) == (Ok::<Seq<Lexeme>, SyntaxError>(lexemes(tokens@)), long_token@),
        decreases n - i,
    {
        let c = program.get_char(i);
        assert(program@.take(i + 1).drop_last() =~= program@.take(i as int));
        let ghost before = lexemes(tokens@);
        if long_token.len() > 0 && (c == ')' || c == '(' || c == '\'' || is_whitespace(c)) {
            match match_long_token(&long_token) {
                Ok(t) => {
                    tokens.push(t);
                    assert(lexemes(tokens@) =~= before.push(tokens@.last()@));
                },
                Err(e) => {
                    proof {
                        lemma_scan_stays_failed(program@, i + 1, n as int);
                    }
                    assert(program@.take(n as int) =~= program@);
                    return Err(e);
                },
            }
            long_token = Vec::new();
        }
        let ghost mid = lexemes(tokens@);
        if c == '(' {
            tokens.push(Token::OpenParen);
        } else if c == ')' {
            tokens.push(Token::CloseParen);
        } else if c == '\'' {
            tokens.push(Token::Quote);
        } else if !is_whitespace(c) {
            long_token.push(c);
        }
        proof {
            if c == '(' || c == ')' || c == '\'' {
                assert(lexemes(tokens@) =~= mid.push(tokens@.last()@));
            } else {
                assert(lexemes(tokens@) =~= mid);
            }
        }
        i = i + 1;
    }
    assert(program@.take(n as int) =~= program@);
    if long_token.len() > 0 {
        let ghost before = lexemes(tokens@);
        match match_long_token(&long_token) {
            Ok(t) => {
                tokens.push(t);
                assert(lexemes(tokens@) =~= before.push(tokens@.last()@));
            },
            Err(e) => {
                return Err(e);
            },
        }
    }
    let ghost forward = tokens@;
    let stack = reversed(tokens);
    assert(lexemes(stack@) =~= lexemes(forward).reverse());
    Ok(stack)
}

/// Once scanning has failed, reading more characters keeps that failure.
proof fn lemma_scan_stays_failed(cs: Seq<char>, k: int, n: int)
    requires
        0 <= k <= n <= cs.len(),
        scan(cs.take(k)).0 is Err,
    ensures
        scan(cs.take(n)).0 == scan(cs.take(k)).0,
    decreases n - k,
{
    if k < n {
        lemma_scan_stays_failed(cs, k, n - 1);
        assert(cs.take(n).drop_last() =~= cs.take(n - 1));
    }
}

/// The token of a non-empty word.
fn match_long_token(token: &Vec<char>) -> (r: Result<Token, SyntaxError>)
    requires
        token@.len() > 0,
    ensures
        match r {
            Ok(t) => word_lexeme(token@) == Ok::<Lexeme, SyntaxError>(t@),
            Err(e) => word_lexeme(token@) == Err::<Lexeme, SyntaxError>(e),
        },
{
    let mut digits = true;
    let mut i: usize = 0;
    while i < token.len()
        invariant
            i <= token@.len(),
            digits == (forall|j: int| 0 <= j < i ==> is_digit(#[trigger] token@[j])),
        decreases token@.len() - i,
    {
        let c = token[i];
        if !('0' <= c && c <= '9') {
            digits = false;
        }
        i = i + 1;
    }
    if digits {
        let mut value: i64 = 0;
        let mut j: usize = 0;
        while j < token.len()
            invariant
                j <= token@.len(),
                all_digits(token@),
                value >= 0,
                value as nat == digits_value(token@.take(j as int)),
            decreases token@.len() - j,
        {
            assert(token@.take(j + 1).drop_last() =~= token@.take(j as int));
            assert(is_digit(token@[j as int]));
            let d = (token[j] as u32 - '0' as u32) as i64;
            assert(digits_value(token@.take(j + 1)) == digits_value(token@.take(j as int)) * 10 + d);
            match value.checked_mul(10) {
                Some(m) => match m.checked_add(d) {
                    Some(v) => {
                        value = v;
                    },
                    None => {
                        proof {
                            lemma_digits_value_grows(token@, j + 1);
                        }
                        return Err(SyntaxError::IntegerOutOfRange);
                    },
                },
                None => {
                    proof {
                        lemma_digits_value_grows(token@, j + 1);
                    }
                    return Err(SyntaxError::IntegerOutOfRange);
                },
            }
            j = j + 1;
        }
        assert(token@.take(token@.len() as int) =~= token@);
        Ok(Token::Integer(value))
    } else {
        let mut name = String::new();
        let mut k: usize = 0;
        while k < token.len()
            invariant
                k <= token@.len(),
                name@ == token@.take(k as int),
            decreases token@.len() - k,
        {
            push_char(&mut name, token[k]);
            assert(name@ =~= token@.take(k + 1));
            k = k + 1;
        }
        assert(token@.take(token@.len() as int) =~= token@);
        Ok(Token::Identifier(name))
    }
}

/// A longer run of digits denotes at least as large a number.
proof fn lemma_digits_value_grows(w: Seq<char>, k: int)
    requires
        0 <= k <= w.len(),
        all_digits(w),
    ensures
        digits_value(w) >= digits_value(w.take(k)),
    decreases w.len() - k,
{
    if k < w.len() {
        lemma_digits_value_grows(w, k + 1);
        assert(w.take(k + 1).drop_last() =~= w.take(k));
        assert(is_digit(w[k]));
        let x = digits_value(w.take(k));
        assert(digits_value(w.take(k + 1)) == x * 10 + (w[k] as nat - '0' as nat));
        assert(x * 10 >= x) by (nonlinear_arith)
            requires
                x >= 0,
        ;
    } else {
        assert(w.take(k) =~= w);
    }
}

} // verus!
