//! The meaning of programs: evaluation as a function of the remaining depth,
//! the frames of the environment, the current frame and an expression. It
//! yields the frames afterwards and the value or the error.
use vstd::prelude::*;

use crate::atom::{Term, terms_equal};
use crate::error::EvalError;
use crate::scope::{Frame, lookup, define, assign, push_frame};

verus! {

/// How deeply evaluations may nest before a program is given up.
pub const MAX_DEPTH: u64 = 1000;

/// The frames after an evaluation step, and its value or error.
pub type Outcome = (Seq<Frame>, Result<Term, EvalError>);

pub open spec fn true_term() -> Term {
    Term::Identifier("#t"@)
}

pub open spec fn false_term() -> Term {
    Term::Identifier("#f"@)
}

pub open spec fn bool_term(b: bool) -> Term {
    if b {
        true_term()
    } else {
        false_term()
    }
}

/// The value `define` yields: the empty identifier.
pub open spec fn unit_term() -> Term {
    Term::Identifier(Seq::empty())
}

/// Heads of lists that are not evaluated as applications.
pub open spec fn is_special_form(n: Seq<char>) -> bool {
    n == "let"@ || n == "let*"@ || n == "define"@ || n == "set!"@ || n == "lambda"@ || n
        == "and"@ || n == "or"@ || n == "cond"@
}

/// Names of the primitive operations.
pub open spec fn is_primitive(n: Seq<char>) -> bool {
    n == "+"@ || n == "-"@ || n == "*"@ || n == "/"@ || n == "car"@ || n == "cdr"@ || n
        == "cons"@ || n == "list"@ || n == ">"@ || n == "<"@ || n == "="@ || n == "equal?"@
        || n == "not"@
}

/// Names that evaluate to themselves when nothing binds them.
pub open spec fn is_builtin(n: Seq<char>) -> bool {
    is_special_form(n) || is_primitive(n)
}

/// The value of an identifier seen from frame `at`.
pub open spec fn resolve(env: Seq<Frame>, at: nat, n: Seq<char>) -> Result<Term, EvalError> {
    match lookup(env, at, n) {
        Some(v) => Ok(v),
        None => if is_builtin(n) {
            Ok(Term::Identifier(n))
        } else {
            Err(EvalError::UnboundIdentifier)
        },
    }
}

/// The four integer operations, checked.
#[derive(Clone, Copy, Debug, PartialEq, Eq, Structural)]
pub enum Arith {
    Add,
    Sub,
    Mul,
    Div,
}

pub open spec fn arith(op: Arith, a: i64, b: i64) -> Result<i64, EvalError> {
    match op {
        Arith::Add => match a.checked_add(b) {
            Some(r) => Ok(r),
            None => Err(EvalError::Overflow),
        },
        Arith::Sub => match a.checked_sub(b) {
            Some(r) => Ok(r),
            None => Err(EvalError::Overflow),
        },
        Arith::Mul => match a.checked_mul(b) {
            Some(r) => Ok(r),
            None => Err(EvalError::Overflow),
        },
        Arith::Div => if b == 0 {
            Err(EvalError::DivisionByZero)
        } else {
            match a.checked_div(b) {
                Some(r) => Ok(r),
                None => Err(EvalError::Overflow),
            }
        },
    }
}

pub open spec fn all_integers(args: Seq<Term>) -> bool {
    forall|i: int| 0 <= i < args.len() ==> #[trigger] args[i] is Integer
}

/// `init` combined from the left with `args[0..n]`, the first failure kept.
pub open spec fn fold_ints(op: Arith, init: i64, args: Seq<Term>, n: nat) -> Result<i64, EvalError>
    decreases n,
{
    if n == 0 {
        Ok(init)
    } else {
        match fold_ints(op, init, args, (n - 1) as nat) {
            Ok(acc) => arith(op, acc, args[n - 1]->Integer_0),
            Err(e) => Err(e),
        }
    }
}

/// `+` and `*`: the identity combined with every argument.
pub open spec fn math_term(start: i64, op: Arith, args: Seq<Term>) -> Result<Term, EvalError> {
    if !all_integers(args) {
        Err(EvalError::TypeError)
    } else {
        match fold_ints(op, start, args, args.len()) {
            Ok(v) => Ok(Term::Integer(v)),
            Err(e) => Err(e),
        }
    }
}

/// `-` and `/`: the first argument combined with the others.
pub open spec fn math_first_term(op: Arith, args: Seq<Term>) -> Result<Term, EvalError> {
    if !all_integers(args) {
        Err(EvalError::TypeError)
    } else if args.len() == 0 {
        Err(EvalError::ArityMismatch)
    } else {
        let rest = args.drop_first();
        match fold_ints(op, args[0]->Integer_0, rest, rest.len()) {
            Ok(v) => Ok(Term::Integer(v)),
            Err(e) => Err(e),
        }
    }
}

pub open spec fn car_term(args: Seq<Term>) -> Result<Term, EvalError> {
    if args.len() != 1 {
        Err(EvalError::ArityMismatch)
    } else {
        match args[0] {
            Term::List(xs) => if xs.len() > 0 {
                Ok(xs[0])
            } else {
                Err(EvalError::TypeError)
            },
            _ => Err(EvalError::TypeError),
        }
    }
}

pub open spec fn cdr_term(args: Seq<Term>) -> Result<Term, EvalError> {
    if args.len() != 1 {
        Err(EvalError::ArityMismatch)
    } else {
        match args[0] {
            Term::List(xs) => if xs.len() > 0 {
                Ok(Term::List(xs.drop_first()))
            } else {
                Err(EvalError::TypeError)
            },
            _ => Err(EvalError::TypeError),
        }
    }
}

pub open spec fn cons_term(args: Seq<Term>) -> Result<Term, EvalError> {
    if args.len() != 2 {
        Err(EvalError::ArityMismatch)
    } else {
        match args[1] {
            Term::List(xs) => Ok(Term::List(seq![args[0]] + xs)),
            _ => Err(EvalError::TypeError),
        }
    }
}

/// The integer comparisons.
#[derive(Clone, Copy, Debug, PartialEq, Eq, Structural)]
pub enum Comparison {
    Greater,
    Less,
    Equal,
}

pub open spec fn compares(op: Comparison, a: i64, b: i64) -> bool {
    match op {
        Comparison::Greater => a > b,
        Comparison::Less => a < b,
        Comparison::Equal => a == b,
    }
}

pub open spec fn compare_term(op: Comparison, args: Seq<Term>) -> Result<Term, EvalError> {
    if args.len() != 2 {
        Err(EvalError::ArityMismatch)
    } else {
        match (args[0], args[1]) {
            (Term::Integer(a), Term::Integer(b)) => Ok(bool_term(compares(op, a, b))),
            _ => Err(EvalError::TypeError),
        }
    }
}

pub open spec fn not_term(args: Seq<Term>) -> Result<Term, EvalError> {
    if args.len() != 1 {
        Err(EvalError::ArityMismatch)
    } else if args[0] == true_term() {
        Ok(false_term())
    } else if args[0] == false_term() {
        Ok(true_term())
    } else {
        Err(EvalError::TypeError)
    }
}

pub open spec fn equal_term(args: Seq<Term>) -> Result<Term, EvalError> {
    if args.len() != 2 {
        Err(EvalError::ArityMismatch)
    } else {
        Ok(bool_term(terms_equal(args[0], args[1])))
    }
}

/// A primitive applied to evaluated arguments.
pub open spec fn primitive(n: Seq<char>, args: Seq<Term>) -> Result<Term, EvalError> {
    if n == "+"@ {
        math_term(0, Arith::Add, args)
    } else if n == "*"@ {
        math_term(1, Arith::Mul, args)
    } else if n == "/"@ {
        math_first_term(Arith::Div, args)
    } else if n == "-"@ {
        math_first_term(Arith::Sub, args)
    } else if n == "car"@ {
        car_term(args)
    } else if n == "cdr"@ {
        cdr_term(args)
    } else if n == "cons"@ {
        cons_term(args)
    } else if n == "list"@ {
        Ok(Term::List(args))
    } else if n == ">"@ {
        compare_term(Comparison::Greater, args)
    } else if n == "<"@ {
        compare_term(Comparison::Less, args)
    } else if n == "="@ {
        compare_term(Comparison::Equal, args)
    } else if n == "equal?"@ {
        equal_term(args)
    } else if n == "not"@ {
        not_term(args)
    } else {
        Err(EvalError::NotApplicable)
    }
}

/// The `(name expression)` pairs of a binding list.
pub open spec fn is_binding(t: Term) -> bool {
    t matches Term::List(p) && p.len() == 2 && p[0] is Identifier
}

pub open spec fn binding_pairs(t: Term) -> Result<Seq<(Seq<char>, Term)>, EvalError> {
    match t {
        Term::List(items) => if forall|i: int| 0 <= i < items.len() ==> is_binding(#[trigger] items[i]) {
            Ok(Seq::new(items.len(), |i: int| (items[i]->List_0[0]->Identifier_0, items[i]->List_0[1])))
        } else {
            Err(EvalError::MalformedBinding)
        },
        _ => Err(EvalError::MalformedBinding),
    }
}

/// `env` with `names[i]` bound to `values[i]` in frame `at`, for `i < n`, in order.
pub open spec fn bind_params(env: Seq<Frame>, at: nat, names: Seq<Seq<char>>, values: Seq<Term>, n: nat) -> Seq<Frame>
    decreases n,
{
    if n == 0 {
        env
    } else {
        define(bind_params(env, at, names, values, (n - 1) as nat), at, names[n - 1], values[n - 1])
    }
}

pub open spec fn has_frame_room(env: Seq<Frame>) -> bool {
    env.len() < usize::MAX
}

/// `items[i..]` evaluated in order; the value of the last, or the first error.
/// Fails when there is nothing to evaluate.
pub open spec fn eval_seq(f: nat, env: Seq<Frame>, at: nat, items: Seq<Term>, i: int) -> Outcome
    decreases f, 1nat, items.len() - i,
{
    if i >= items.len() || i < 0 {
        (env, Err(EvalError::EmptyApplication))
    } else {
        let (env1, r) = eval_term(f, env, at, items[i]);
        if r is Err || i + 1 >= items.len() {
            (env1, r)
        } else {
            eval_seq(f, env1, at, items, i + 1)
        }
    }
}

/// `items[i..]` evaluated in order, their values appended to `acc`.
pub open spec fn eval_all(f: nat, env: Seq<Frame>, at: nat, items: Seq<Term>, i: int, acc: Seq<Term>) -> (Seq<Frame>, Result<Seq<Term>, EvalError>)
    decreases f, 1nat, items.len() - i,
{
    if i >= items.len() || i < 0 {
        (env, Ok(acc))
    } else {
        let (env1, r) = eval_term(f, env, at, items[i]);
        match r {
            Ok(v) => eval_all(f, env1, at, items, i + 1, acc.push(v)),
            Err(e) => (env1, Err(e)),
        }
    }
}

/// Binds `pairs[i..]` in frame `child`, each expression evaluated in frame `from`.
pub open spec fn let_bind(f: nat, env: Seq<Frame>, from: nat, child: nat, pairs: Seq<(Seq<char>, Term)>, i: int) -> (Seq<Frame>, Result<(), EvalError>)
    decreases f, 1nat, pairs.len() - i,
{
    if i >= pairs.len() || i < 0 {
        (env, Ok(()))
    } else {
        let (env1, r) = eval_term(f, env, from, pairs[i].1);
        match r {
            Ok(v) => let_bind(f, define(env1, child, pairs[i].0, v), from, child, pairs, i + 1),
            Err(e) => (env1, Err(e)),
        }
    }
}

/// `(and args...)` from `args[i]` on.
pub open spec fn and_args(f: nat, env: Seq<Frame>, at: nat, args: Seq<Term>, i: int) -> Outcome
    decreases f, 1nat, args.len() - i,
{
    if i >= args.len() || i < 0 {
        (env, Ok(true_term()))
    } else {
        let (env1, r) = eval_term(f, env, at, args[i]);
        match r {
            Ok(v) => if v == false_term() {
                (env1, Ok(false_term()))
            } else if v == true_term() {
                and_args(f, env1, at, args, i + 1)
            } else {
                (env1, Err(EvalError::TypeError))
            },
            Err(e) => (env1, Err(e)),
        }
    }
}

/// `(or args...)` from `args[i]` on.
pub open spec fn or_args(f: nat, env: Seq<Frame>, at: nat, args: Seq<Term>, i: int) -> Outcome
    decreases f, 1nat, args.len() - i,
{
    if i >= args.len() || i < 0 {
        (env, Ok(false_term()))
    } else {
        let (env1, r) = eval_term(f, env, at, args[i]);
        match r {
            Ok(v) => if v == true_term() {
                (env1, Ok(true_term()))
            } else if v == false_term() {
                or_args(f, env1, at, args, i + 1)
            } else {
                (env1, Err(EvalError::TypeError))
            },
            Err(e) => (env1, Err(e)),
        }
    }
}

/// `(cond clauses...)` from `clauses[i]` on.
pub open spec fn cond_clauses(f: nat, env: Seq<Frame>, at: nat, clauses: Seq<Term>, i: int) -> Outcome
    decreases f, 1nat, clauses.len() - i,
{
    if i >= clauses.len() || i < 0 {
        (env, Ok(false_term()))
    } else {
        match clauses[i] {
            Term::List(c) => if c.len() == 2 {
                let (env1, r) = eval_term(f, env, at, c[0]);
                match r {
                    Ok(v) => if v == true_term() {
                        eval_term(f, env1, at, c[1])
                    } else {
                        cond_clauses(f, env1, at, clauses, i + 1)
                    },
                    Err(e) => (env1, Err(e)),
                }
            } else {
                (env, Err(EvalError::MalformedCond))
            },
            _ => (env, Err(EvalError::MalformedCond)),
        }
    }
}

/// `(let bindings body...)`, or `let*` where `sequential`.
pub open spec fn let_form(f: nat, env: Seq<Frame>, at: nat, form: Seq<Term>, sequential: bool) -> Outcome
    decreases f, 2nat, 0int,
{
    if form.len() < 3 {
        (env, Err(EvalError::MalformedBinding))
    } else {
        match binding_pairs(form[1]) {
            Err(e) => (env, Err(e)),
            Ok(pairs) => if !has_frame_room(env) {
                (env, Err(EvalError::LimitExceeded))
            } else {
                let child = env.len();
                let from = if sequential { child } else { at };
                let (env1, r) = let_bind(f, push_frame(env, Some(at)), from, child, pairs, 0);
                match r {
                    Ok(_) => eval_seq(f, env1, child, form, 2),
                    Err(e) => (env1, Err(e)),
                }
            },
        }
    }
}

/// `(define name expression)`.
pub open spec fn define_form(f: nat, env: Seq<Frame>, at: nat, form: Seq<Term>) -> Outcome
    decreases f, 2nat, 0int,
{
    if form.len() != 3 {
        (env, Err(EvalError::MalformedBinding))
    } else {
        match form[1] {
            Term::Identifier(n) => {
                let (env1, r) = eval_term(f, env, at, form[2]);
                match r {
                    Ok(v) => (define(env1, at, n, v), Ok(unit_term())),
                    Err(e) => (env1, Err(e)),
                }
            },
            _ => (env, Err(EvalError::MalformedBinding)),
        }
    }
}

/// `(set! name expression)`: yields the value `name` held before.
pub open spec fn set_form(f: nat, env: Seq<Frame>, at: nat, form: Seq<Term>) -> Outcome
    decreases f, 2nat, 0int,
{
    if form.len() != 3 {
        (env, Err(EvalError::MalformedBinding))
    } else {
        match form[1] {
            Term::Identifier(n) => match lookup(env, at, n) {
                Some(previous) => {
                    let (env1, r) = eval_term(f, env, at, form[2]);
                    match r {
                        Ok(v) => (assign(env1, at, n, v), Ok(previous)),
                        Err(e) => (env1, Err(e)),
                    }
                },
                None => (env, Err(EvalError::UnboundAssignment)),
            },
            _ => (env, Err(EvalError::MalformedBinding)),
        }
    }
}

pub open spec fn all_identifiers(ts: Seq<Term>) -> bool {
    forall|i: int| 0 <= i < ts.len() ==> #[trigger] ts[i] is Identifier
}

/// `(lambda (params...) body...)`: a closure over a new child of frame `at`.
pub open spec fn lambda_form(env: Seq<Frame>, at: nat, form: Seq<Term>) -> Outcome {
    if form.len() < 3 {
        (env, Err(EvalError::InvalidParameterList))
    } else {
        match form[1] {
            Term::List(ps) => if !all_identifiers(ps) {
                (env, Err(EvalError::InvalidParameterList))
            } else if !has_frame_room(env) {
                (env, Err(EvalError::LimitExceeded))
            } else {
                (
                    push_frame(env, Some(at)),
                    Ok(
                        Term::Lambda {
                            scope: env.len(),
                            parameters: Seq::new(ps.len(), |i: int| ps[i]->Identifier_0),
                            body: Box::new(Term::List(form.subrange(2, form.len() as int))),
                        },
                    ),
                )
            },
            _ => (env, Err(EvalError::InvalidParameterList)),
        }
    }
}

/// A list whose head names a special form.
pub open spec fn special_form(f: nat, env: Seq<Frame>, at: nat, head: Seq<char>, form: Seq<Term>) -> Outcome
    decreases f, 3nat, 0int,
{
    if head == "let"@ {
        let_form(f, env, at, form, false)
    } else if head == "let*"@ {
        let_form(f, env, at, form, true)
    } else if head == "define"@ {
        define_form(f, env, at, form)
    } else if head == "set!"@ {
        set_form(f, env, at, form)
    } else if head == "lambda"@ {
        lambda_form(env, at, form)
    } else if head == "and"@ {
        if form.len() < 2 {
            (env, Err(EvalError::ArityMismatch))
        } else {
            and_args(f, env, at, form, 1)
        }
    } else if head == "or"@ {
        if form.len() < 2 {
            (env, Err(EvalError::ArityMismatch))
        } else {
            or_args(f, env, at, form, 1)
        }
    } else {
        cond_clauses(f, env, at, form, 1)
    }
}

/// A closure called with evaluated arguments: its body runs in a new child of
/// the captured frame holding the parameters.
pub open spec fn apply_term(f: nat, env: Seq<Frame>, head: Term, args: Seq<Term>) -> Outcome
    decreases f, 2nat, 0int,
{
    match head {
        Term::Identifier(n) => (env, primitive(n, args)),
        Term::Lambda { scope, parameters, body } => if parameters.len() != args.len() {
            (env, Err(EvalError::ArityMismatch))
        } else if scope >= env.len() {
            (env, Err(EvalError::NotApplicable))
        } else if !has_frame_room(env) {
            (env, Err(EvalError::LimitExceeded))
        } else {
            let child = env.len();
            let env1 = bind_params(push_frame(env, Some(scope)), child, parameters, args, args.len());
            match *body {
                Term::List(items) => eval_seq(f, env1, child, items, 0),
                _ => (env1, Err(EvalError::TypeError)),
            }
        },
        _ => (env, Err(EvalError::NotApplicable)),
    }
}

/// One expression evaluated in frame `at`, nested at most `fuel` deep.
pub open spec fn eval_term(fuel: nat, env: Seq<Frame>, at: nat, t: Term) -> Outcome
    decreases fuel, 0nat, 0int,
{
    if fuel == 0 {
        (env, Err(EvalError::LimitExceeded))
    } else {
        let f = (fuel - 1) as nat;
        match t {
            Term::Quoted(inner) => (env, Ok(*inner)),
            Term::Integer(_) => (env, Ok(t)),
            Term::Lambda { .. } => (env, Ok(t)),
            Term::Identifier(n) => (env, resolve(env, at, n)),
            Term::List(items) => if items.len() > 0 && items[0] is Identifier && is_special_form(
                items[0]->Identifier_0,
            ) {
                special_form(f, env, at, items[0]->Identifier_0, items)
            } else {
                let (env1, r) = eval_all(f, env, at, items, 0, Seq::empty());
                match r {
                    Ok(vals) => if vals.len() == 0 {
                        (env1, Err(EvalError::EmptyApplication))
                    } else {
                        apply_term(f, env1, vals[0], vals.drop_first())
                    },
                    Err(e) => (env1, Err(e)),
                }
            },
        }
    }
}

/// A sequence of expressions (a list) evaluated in order in frame `at`.
pub open spec fn eval_sequence(fuel: nat, env: Seq<Frame>, at: nat, t: Term) -> Outcome {
    match t {
        Term::List(items) => eval_seq(fuel, env, at, items, 0),
        _ => (env, Err(EvalError::TypeError)),
    }
}

/// The environment a program starts in: one frame binding `#t` and `#f`.
pub open spec fn root_env() -> Seq<Frame> {
    seq![Frame { parent: None, bindings: seq![("#t"@, true_term()), ("#f"@, false_term())] }]
}

/// The result of a whole program: its expressions evaluated in order in a
/// fresh root frame.
pub open spec fn program_result(program: Term) -> Result<Term, EvalError> {
    eval_sequence(MAX_DEPTH as nat, root_env(), 0, program).1
}

} // verus!
