//! The evaluator: special forms, primitives and closure application.
use vstd::prelude::*;

use crate::atom::{Atom, Closure, Term, names_view, terms_of};
use crate::error::EvalError;
use crate::scope::{Environment, Scope, bindings_view, new_child_scope, new_scope, push_frame};
use crate::semantics::{
    Arith, Comparison, MAX_DEPTH, all_identifiers, all_integers, and_args, apply_term, arith,
    bind_params, binding_pairs, bool_term, car_term, cdr_term, compare_term, cond_clauses,
    cons_term, define_form, equal_term, eval_all, eval_seq, eval_sequence, eval_term, false_term,
    fold_ints, has_frame_room, is_binding, is_primitive, is_special_form, lambda_form, let_bind,
    let_form, math_first_term, math_term, not_term, or_args, program_result, resolve, root_env,
    set_form, special_form, true_term,
};
use crate::util::prepend;

verus! {

/// The model of an evaluation result.
pub open spec fn res_view(r: Result<Atom, EvalError>) -> Result<Term, EvalError> {
    match r {
        Ok(a) => Ok(a@),
        Err(e) => Err(e),
    }
}

/// Whether the string `s` spells `word`.
fn is_name(s: &String, word: &str) -> (r: bool)
    ensures
        r == (s@ == word@),
{
    *s == String::from_str(word)
}

/// The boolean `#t`.
pub fn lithp_true() -> (r: Atom)
    ensures
        r@ == true_term(),
{
    Atom::Identifier(String::from_str("#t"))
}

/// The boolean `#f`.
pub fn lithp_false() -> (r: Atom)
    ensures
        r@ == false_term(),
{
    Atom::Identifier(String::from_str("#f"))
}

/// The boolean identifier for `value`.
pub fn lithp_bool(value: bool) -> (r: Atom)
    ensures
        r@ == bool_term(value),
{
    if value {
        lithp_true()
    } else {
        lithp_false()
    }
}

/// Whether `a` is the boolean `#t`.
fn is_true(a: &Atom) -> (r: bool)
    ensures
        r == (a@ == true_term()),
{
    match a {
        Atom::Identifier(s) => is_name(s, "#t"),
        _ => false,
    }
}

/// Whether `a` is the boolean `#f`.
fn is_false(a: &Atom) -> (r: bool)
    ensures
        r == (a@ == false_term()),
{
    match a {
        Atom::Identifier(s) => is_name(s, "#f"),
        _ => false,
    }
}

/// Copies of `items[from..]`.
fn copy_items(items: &Vec<Atom>, from: usize) -> (r: Vec<Atom>)
    requires
        from <= items@.len(),
    ensures
        terms_of(r@) == terms_of(items@).subrange(from as int, items@.len() as int),
{
    let mut out: Vec<Atom> = Vec::new();
    let mut i: usize = from;
    while i < items.len()
        invariant
            from <= i <= items@.len(),
            out@.len() == i - from,
            forall|j: int| 0 <= j < out@.len() ==> #[trigger] out@[j]@ == items@[j + from]@,
        decreases items@.len() - i,
    {
        out.push(items[i].clone());
        i = i + 1;
    }
    assert forall|j: int| 0 <= j < out@.len() implies terms_of(out@)[j] == terms_of(items@)[j + from] by {
        assert(out@[j]@ == items@[j + from]@);
    }
    assert(terms_of(out@) =~= terms_of(items@).subrange(from as int, items@.len() as int));
    out
}

fn is_special(name: &String) -> (r: bool)
    ensures
        r == is_special_form(name@),
{
    is_name(name, "let") || is_name(name, "let*") || is_name(name, "define") || is_name(name, "set!")
        || is_name(name, "lambda") || is_name(name, "and") || is_name(name, "or") || is_name(
        name,
        "cond",
    )
}

fn is_primitive_name(name: &String) -> (r: bool)
    ensures
        r == is_primitive(name@),
{
    is_name(name, "+") || is_name(name, "-") || is_name(name, "*") || is_name(name, "/")
        || is_name(name, "car") || is_name(name, "cdr") || is_name(name, "cons") || is_name(
        name,
        "list",
    ) || is_name(name, ">") || is_name(name, "<") || is_name(name, "=") || is_name(name, "equal?")
        || is_name(name, "not")
}

/// The value of identifier `name` seen from frame `at`: its binding, else the
/// name itself where it is built in.
fn try_get(env: &Environment, at: usize, name: &String) -> (r: Result<Atom, EvalError>)
    ensures
        res_view(r) == resolve(env@, at as nat, name@),
{
    match env.lookup(at, name.as_str()) {
        Some(atom) => Ok(atom),
        None => {
            if is_special(name) || is_primitive_name(name) {
                Ok(Atom::Identifier(name.clone()))
            } else {
                Err(EvalError::UnboundIdentifier)
            }
        },
    }
}

fn checked_arith(op: Arith, a: i64, b: i64) -> (r: Result<i64, EvalError>)
    ensures
        r == arith(op, a, b),
{
    match op {
        Arith::Add => match a.checked_add(b) {
            Some(v) => Ok(v),
            None => Err(EvalError::Overflow),
        },
        Arith::Sub => match a.checked_sub(b) {
            Some(v) => Ok(v),
            None => Err(EvalError::Overflow),
        },
        Arith::Mul => match a.checked_mul(b) {
            Some(v) => Ok(v),
            None => Err(EvalError::Overflow),
        },
        Arith::Div => if b == 0 {
            Err(EvalError::DivisionByZero)
        } else {
            match a.checked_div(b) {
                Some(v) => Ok(v),
                None => Err(EvalError::Overflow),
            }
        },
    }
}

/// Whether every argument is an integer.
fn integers_only(args: &Vec<Atom>) -> (r: bool)
    ensures
        r == all_integers(terms_of(args@)),
{
    let mut i: usize = 0;
    while i < args.len()
        invariant
            i <= args@.len(),
            forall|j: int| 0 <= j < i ==> #[trigger] terms_of(args@)[j] is Integer,
        decreases args@.len() - i,
    {
        match &args[i] {
            Atom::Integer(_) => {},
            _ => {
                assert(!(terms_of(args@)[i as int] is Integer));
                return false;
            },
        }
        i = i + 1;
    }
    true
}

/// Once a fold has failed, folding further elements keeps that failure.
proof fn lemma_fold_stays_failed(op: Arith, init: i64, args: Seq<Term>, k: nat, n: nat)
    requires
        k <= n,
        fold_ints(op, init, args, k) is Err,
    ensures
        fold_ints(op, init, args, n) == fold_ints(op, init, args, k),
    decreases n - k,
{
    if k < n {
        lemma_fold_stays_failed(op, init, args, k, (n - 1) as nat);
    }
}

/// `init` combined from the left with `args[from..]`, all integers.
fn fold_from(op: Arith, init: i64, args: &Vec<Atom>, from: usize) -> (r: Result<i64, EvalError>)
    requires
        from <= args@.len(),
        all_integers(terms_of(args@)),
    ensures
        r == fold_ints(
            op,
            init,
            terms_of(args@).subrange(from as int, args@.len() as int),
            (args@.len() - from) as nat,
        ),
{
    let ghost rest = terms_of(args@).subrange(from as int, args@.len() as int);
    let mut acc: i64 = init;
    let mut i: usize = from;
    while i < args.len()
        invariant
            from <= i <= args@.len(),
            all_integers(terms_of(args@)),
            rest == terms_of(args@).subrange(from as int, args@.len() as int),
            fold_ints(op, init, rest, (i - from) as nat) == Ok::<i64, EvalError>(acc),
        decreases args@.len() - i,
    {
        assert(terms_of(args@)[i as int] is Integer);
        let n: i64 = match &args[i] {
            Atom::Integer(n) => *n,
            _ => 0,
        };
        assert(rest[i - from] == terms_of(args@)[i as int]);
        match checked_arith(op, acc, n) {
            Ok(v) => {
                acc = v;
            },
            Err(e) => {
                proof {
                    lemma_fold_stays_failed(op, init, rest, (i - from + 1) as nat, (args@.len() - from) as nat);
                }
                return Err(e);
            },
        }
        i = i + 1;
    }
    Ok(acc)
}

/// `+` and `*`: the identity `start` combined with every argument.
pub fn math(start: i64, op: Arith, args: &Vec<Atom>) -> (r: Result<Atom, EvalError>)
    ensures
        res_view(r) == math_term(start, op, terms_of(args@)),
{
    if !integers_only(args) {
        return Err(EvalError::TypeError);
    }
    assert(terms_of(args@).subrange(0, args@.len() as int) =~= terms_of(args@));
    match fold_from(op, start, args, 0) {
        Ok(v) => Ok(Atom::Integer(v)),
        Err(e) => Err(e),
    }
}

/// `-` and `/`: the first argument combined with the others.
pub fn math_first(op: Arith, args: &Vec<Atom>) -> (r: Result<Atom, EvalError>)
    ensures
        res_view(r) == math_first_term(op, terms_of(args@)),
{
    if !integers_only(args) {
        return Err(EvalError::TypeError);
    }
    if args.len() == 0 {
        return Err(EvalError::ArityMismatch);
    }
    assert(terms_of(args@)[0] is Integer);
    let first: i64 = match &args[0] {
        Atom::Integer(n) => *n,
        _ => 0,
    };
    assert(terms_of(args@).subrange(1, args@.len() as int) =~= terms_of(args@).drop_first());
    match fold_from(op, first, args, 1) {
        Ok(v) => Ok(Atom::Integer(v)),
        Err(e) => Err(e),
    }
}

/// The first element of a non-empty list.
pub fn car(args: &Vec<Atom>) -> (r: Result<Atom, EvalError>)
    ensures
        res_view(r) == car_term(terms_of(args@)),
{
    if args.len() != 1 {
        return Err(EvalError::ArityMismatch);
    }
    assert(terms_of(args@)[0] == args@[0]@);
    match &args[0] {
        Atom::List(atoms) => {
            assert(args@[0]@ == Term::List(terms_of(atoms@)));
            if atoms.len() == 0 {
                Err(EvalError::TypeError)
            } else {
                assert(terms_of(atoms@)[0] == atoms@[0]@);
                Ok(atoms[0].clone())
            }
        },
        _ => Err(EvalError::TypeError),
    }
}

/// A non-empty list without its first element.
pub fn cdr(args: &Vec<Atom>) -> (r: Result<Atom, EvalError>)
    ensures
        res_view(r) == cdr_term(terms_of(args@)),
{
    if args.len() != 1 {
        return Err(EvalError::ArityMismatch);
    }
    assert(terms_of(args@)[0] == args@[0]@);
    match &args[0] {
        Atom::List(items) => {
            assert(args@[0]@ == Term::List(terms_of(items@)));
            if items.len() == 0 {
                Err(EvalError::TypeError)
            } else {
                let rest = copy_items(items, 1);
                assert(terms_of(items@).subrange(1, items@.len() as int) =~= terms_of(items@).drop_first());
                Ok(Atom::List(rest))
            }
        },
        _ => Err(EvalError::TypeError),
    }
}

/// A list with one more element in front.
pub fn cons(args: &Vec<Atom>) -> (r: Result<Atom, EvalError>)
    ensures
        res_view(r) == cons_term(terms_of(args@)),
{
    if args.len() != 2 {
        return Err(EvalError::ArityMismatch);
    }
    assert(terms_of(args@)[0] == args@[0]@);
    assert(terms_of(args@)[1] == args@[1]@);
    match &args[1] {
        Atom::List(vals) => {
            assert(args@[1]@ == Term::List(terms_of(vals@)));
            let mut tail = copy_items(vals, 0);
            let ghost tail0 = tail@;
            assert(terms_of(vals@).subrange(0, vals@.len() as int) =~= terms_of(vals@));
            let items = prepend(args[0].clone(), &mut tail);
            assert(terms_of(items@) =~= seq![args@[0]@] + terms_of(vals@)) by {
                assert forall|j: int| 0 <= j < items@.len() implies terms_of(items@)[j] == (seq![args@[0]@] + terms_of(vals@))[j] by {
                    if j > 0 {
                        assert(items@[j] == tail0[j - 1]);
                        assert(terms_of(tail0)[j - 1] == tail0[j - 1]@);
                    }
                }
            }
            Ok(Atom::List(items))
        },
        _ => Err(EvalError::TypeError),
    }
}

/// The arguments, collected into a list.
pub fn list(args: &Vec<Atom>) -> (r: Result<Atom, EvalError>)
    ensures
        res_view(r) == Ok::<Term, EvalError>(Term::List(terms_of(args@))),
{
    let items = copy_items(args, 0);
    assert(terms_of(args@).subrange(0, args@.len() as int) =~= terms_of(args@));
    Ok(Atom::List(items))
}

/// A comparison of exactly two integers, as a boolean.
pub fn binary_int_predicate(args: &Vec<Atom>, op: Comparison) -> (r: Result<Atom, EvalError>)
    ensures
        res_view(r) == compare_term(op, terms_of(args@)),
{
    if args.len() != 2 {
        return Err(EvalError::ArityMismatch);
    }
    match (&args[0], &args[1]) {
        (Atom::Integer(one), Atom::Integer(two)) => {
            let holds = match op {
                Comparison::Greater => *one > *two,
                Comparison::Less => *one < *two,
                Comparison::Equal => *one == *two,
            };
            Ok(lithp_bool(holds))
        },
        _ => Err(EvalError::TypeError),
    }
}

/// `>` on two integers.
pub fn gt(args: &Vec<Atom>) -> (r: Result<Atom, EvalError>)
    ensures
        res_view(r) == compare_term(Comparison::Greater, terms_of(args@)),
{
    binary_int_predicate(args, Comparison::Greater)
}

/// `<` on two integers.
pub fn lt(args: &Vec<Atom>) -> (r: Result<Atom, EvalError>)
    ensures
        res_view(r) == compare_term(Comparison::Less, terms_of(args@)),
{
    binary_int_predicate(args, Comparison::Less)
}

/// `=` on two integers.
pub fn eq(args: &Vec<Atom>) -> (r: Result<Atom, EvalError>)
    ensures
        res_view(r) == compare_term(Comparison::Equal, terms_of(args@)),
{
    binary_int_predicate(args, Comparison::Equal)
}

/// The negation of one boolean.
pub fn not(args: &Vec<Atom>) -> (r: Result<Atom, EvalError>)
    ensures
        res_view(r) == not_term(terms_of(args@)),
{
    if args.len() != 1 {
        return Err(EvalError::ArityMismatch);
    }
    if is_true(&args[0]) {
        Ok(lithp_false())
    } else if is_false(&args[0]) {
        Ok(lithp_true())
    } else {
        Err(EvalError::TypeError)
    }
}

/// `equal?`: structural equality of two values.
pub fn equal(args: &Vec<Atom>) -> (r: Result<Atom, EvalError>)
    ensures
        res_view(r) == equal_term(terms_of(args@)),
{
    if args.len() != 2 {
        return Err(EvalError::ArityMismatch);
    }
    Ok(lithp_bool(args[0].eq(&args[1])))
}

/// Evaluates a program: its expressions in order, in a fresh root frame that
/// binds `#t` and `#f`. Yields the value of the last one.
pub fn eval(atom: Atom) -> (r: Result<Atom, EvalError>)
    ensures
        res_view(r) == program_result(atom@),
{
    let mut env = Environment::new();
    let root = new_scope(&mut env);
    env.define(root, "#t", lithp_true());
    env.define(root, "#f", lithp_false());
    assert(env@[0].bindings =~= root_env()[0].bindings);
    assert(env@ =~= root_env());
    eval_atoms(&mut env, root, &atom, MAX_DEPTH)
}

/// Evaluates the elements of the list `atom` in order in frame `at` and yields
/// the value of the last one. `fuel` bounds how deeply evaluation may nest.
pub fn eval_atoms(env: &mut Environment, at: usize, atom: &Atom, fuel: u64) -> (r: Result<Atom, EvalError>)
    requires
        at < old(env)@.len(),
    ensures
        (final(env)@, res_view(r)) == eval_sequence(fuel as nat, old(env)@, at as nat, atom@),
        final(env)@.len() >= old(env)@.len(),
    decreases fuel, 2nat,
{
    match atom {
        Atom::List(atoms) => eval_body(env, at, atoms, 0, fuel),
        _ => Err(EvalError::TypeError),
    }
}

/// Evaluates `items[start..]` in order and yields the value of the last one.
fn eval_body(env: &mut Environment, at: usize, items: &Vec<Atom>, start: usize, fuel: u64) -> (r: Result<Atom, EvalError>)
    requires
        at < old(env)@.len(),
    ensures
        (final(env)@, res_view(r)) == eval_seq(fuel as nat, old(env)@, at as nat, terms_of(items@), start as int),
        final(env)@.len() >= old(env)@.len(),
    decreases fuel, 1nat,
{
    if start >= items.len() {
        return Err(EvalError::EmptyApplication);
    }
    let ghost ts = terms_of(items@);
    let ghost e0 = env@;
    let mut i: usize = start;
    loop
        invariant
            start <= i < items@.len(),
            ts == terms_of(items@),
            at < env@.len(),
            e0 == old(env)@,
            env@.len() >= e0.len(),
            eval_seq(fuel as nat, e0, at as nat, ts, start as int) == eval_seq(fuel as nat, env@, at as nat, ts, i as int),
        decreases items@.len() - i,
    {
        assert(ts[i as int] == items@[i as int]@);
        match eval_atom(env, at, &items[i], fuel) {
            Err(e) => {
                return Err(e);
            },
            Ok(v) => {
                if i == items.len() - 1 {
                    return Ok(v);
                }
            },
        }
        i = i + 1;
    }
}

/// Evaluates every element of `items` in order and yields their values.
fn eval_items(env: &mut Environment, at: usize, items: &Vec<Atom>, fuel: u64) -> (r: Result<Vec<Atom>, EvalError>)
    requires
        at < old(env)@.len(),
    ensures
        match r {
            Ok(v) => (final(env)@, Ok::<Seq<Term>, EvalError>(terms_of(v@))) == eval_all(fuel as nat, old(env)@, at as nat, terms_of(items@), 0, Seq::empty()),
            Err(e) => (final(env)@, Err::<Seq<Term>, EvalError>(e)) == eval_all(fuel as nat, old(env)@, at as nat, terms_of(items@), 0, Seq::empty()),
        },
        final(env)@.len() >= old(env)@.len(),
    decreases fuel, 1nat,
{
    let ghost ts = terms_of(items@);
    let ghost e0 = env@;
    let mut evaluated: Vec<Atom> = Vec::new();
    assert(terms_of(evaluated@) =~= Seq::<Term>::empty());
    let mut i: usize = 0;
    while i < items.len()
        invariant
            i <= items@.len(),
            ts == terms_of(items@),
            at < env@.len(),
            e0 == old(env)@,
            env@.len() >= e0.len(),
            eval_all(fuel as nat, e0, at as nat, ts, 0, Seq::empty()) == eval_all(fuel as nat, env@, at as nat, ts, i as int, terms_of(evaluated@)),
        decreases items@.len() - i,
    {
        assert(ts[i as int] == items@[i as int]@);
        match eval_atom(env, at, &items[i], fuel) {
            Err(e) => {
                return Err(e);
            },
            Ok(v) => {
                let ghost before = evaluated@;
                evaluated.push(v);
                assert(terms_of(evaluated@) =~= terms_of(before).push(v@));
            },
        }
        i = i + 1;
    }
    Ok(evaluated)
}

/// Evaluates one expression in frame `at`.
fn eval_atom(env: &mut Environment, at: usize, atom: &Atom, fuel: u64) -> (r: Result<Atom, EvalError>)
    requires
        at < old(env)@.len(),
    ensures
        (final(env)@, res_view(r)) == eval_term(fuel as nat, old(env)@, at as nat, atom@),
        final(env)@.len() >= old(env)@.len(),
    decreases fuel, 0nat,
{
    if fuel == 0 {
        return Err(EvalError::LimitExceeded);
    }
    let f = fuel - 1;
    match atom {
        Atom::Quoted(value) => Ok((**value).clone()),
        Atom::Integer(n) => Ok(Atom::Integer(*n)),
        Atom::Lambda(closure) => Ok(Atom::Lambda(closure.clone())),
        Atom::Identifier(name) => try_get(env, at, name),
        Atom::List(atoms) => {
            let ghost ts = terms_of(atoms@);
            assert(atom@ == Term::List(ts));
            if atoms.len() > 0 {
                assert(ts[0] == atoms@[0]@);
                match &atoms[0] {
                    Atom::Identifier(head) => {
                        if is_special(head) {
                            return eval_special(env, at, head, atoms, f);
                        }
                    },
                    _ => {},
                }
            }
            let mut args = match eval_items(env, at, atoms, f) {
                Ok(v) => v,
                Err(e) => {
                    return Err(e);
                },
            };
            if args.len() == 0 {
                return Err(EvalError::EmptyApplication);
            }
            let ghost vals = terms_of(args@);
            let func = args.remove(0);
            assert(terms_of(args@) =~= vals.drop_first());
            assert(vals[0] == func@);
            apply(env, &func, &args, f)
        },
    }
}

/// Dispatches a list whose head names a special form.
fn eval_special(env: &mut Environment, at: usize, head: &String, form: &Vec<Atom>, fuel: u64) -> (r: Result<Atom, EvalError>)
    requires
        at < old(env)@.len(),
    ensures
        (final(env)@, res_view(r)) == special_form(fuel as nat, old(env)@, at as nat, head@, terms_of(form@)),
        final(env)@.len() >= old(env)@.len(),
    decreases fuel, 4nat,
{
    if is_name(head, "let") {
        eval_let(env, at, form, fuel)
    } else if is_name(head, "let*") {
        eval_let_star(env, at, form, fuel)
    } else if is_name(head, "define") {
        eval_define(env, at, form, fuel)
    } else if is_name(head, "set!") {
        eval_set(env, at, form, fuel)
    } else if is_name(head, "lambda") {
        eval_lambda(env, at, form)
    } else if is_name(head, "and") {
        eval_and(env, at, form, fuel)
    } else if is_name(head, "or") {
        eval_or(env, at, form, fuel)
    } else {
        eval_cond(env, at, form, fuel)
    }
}

/// `(let bindings body...)`: every binding evaluated in the outer frame.
fn eval_let(env: &mut Environment, at: usize, form: &Vec<Atom>, fuel: u64) -> (r: Result<Atom, EvalError>)
    requires
        at < old(env)@.len(),
    ensures
        (final(env)@, res_view(r)) == let_form(fuel as nat, old(env)@, at as nat, terms_of(form@), false),
        final(env)@.len() >= old(env)@.len(),
    decreases fuel, 3nat,
{
    eval_let_form(env, at, form, false, fuel)
}

/// `(let* bindings body...)`: each binding sees the ones before it.
fn eval_let_star(env: &mut Environment, at: usize, form: &Vec<Atom>, fuel: u64) -> (r: Result<Atom, EvalError>)
    requires
        at < old(env)@.len(),
    ensures
        (final(env)@, res_view(r)) == let_form(fuel as nat, old(env)@, at as nat, terms_of(form@), true),
        final(env)@.len() >= old(env)@.len(),
    decreases fuel, 3nat,
{
    eval_let_form(env, at, form, true, fuel)
}

fn eval_let_form(env: &mut Environment, at: usize, form: &Vec<Atom>, sequential: bool, fuel: u64) -> (r: Result<Atom, EvalError>)
    requires
        at < old(env)@.len(),
    ensures
        (final(env)@, res_view(r)) == let_form(fuel as nat, old(env)@, at as nat, terms_of(form@), sequential),
        final(env)@.len() >= old(env)@.len(),
    decreases fuel, 2nat,
{
    let binding_list = match split_let_body(form) {
        Ok(b) => b,
        Err(e) => {
            return Err(e);
        },
    };
    assert(terms_of(form@)[1] == form@[1]@);
    let bindings = match extract_bindings(binding_list) {
        Ok(b) => b,
        Err(e) => {
            return Err(e);
        },
    };
    if env.len() >= usize::MAX {
        return Err(EvalError::LimitExceeded);
    }
    let child = new_child_scope(env, at);
    let from = if sequential {
        child
    } else {
        at
    };
    let ghost e1 = env@;
    let ghost pairs = bindings_view(bindings@);
    let mut i: usize = 0;
    while i < bindings.len()
        invariant
            i <= bindings@.len(),
            pairs == bindings_view(bindings@),
            child < env@.len(),
            from < env@.len(),
            env@.len() >= e1.len(),
            e1 == push_frame(old(env)@, Some(at as nat)),
            child == old(env)@.len(),
            from == (if sequential { child } else { at }),
            form@.len() >= 3,
            binding_pairs(terms_of(form@)[1]) == Ok::<Seq<(Seq<char>, Term)>, EvalError>(pairs),
            has_frame_room(old(env)@),
            let_bind(fuel as nat, e1, from as nat, child as nat, pairs, 0) == let_bind(fuel as nat, env@, from as nat, child as nat, pairs, i as int),
        decreases bindings@.len() - i,
    {
        let value = match eval_atom(env, from, &bindings[i].1, fuel) {
            Ok(v) => v,
            Err(e) => {
                return Err(e);
            },
        };
        env.define(child, bindings[i].0.as_str(), value);
        i = i + 1;
    }
    eval_body(env, child, form, 2, fuel)
}

/// `(define name expression)`: binds in the current frame; yields the empty identifier.
fn eval_define(env: &mut Environment, at: usize, form: &Vec<Atom>, fuel: u64) -> (r: Result<Atom, EvalError>)
    requires
        at < old(env)@.len(),
    ensures
        (final(env)@, res_view(r)) == define_form(fuel as nat, old(env)@, at as nat, terms_of(form@)),
        final(env)@.len() >= old(env)@.len(),
    decreases fuel, 1nat,
{
    if form.len() != 3 {
        return Err(EvalError::MalformedBinding);
    }
    assert(terms_of(form@)[1] == form@[1]@);
    assert(terms_of(form@)[2] == form@[2]@);
    match &form[1] {
        Atom::Identifier(name) => {
            let evaluated = match eval_atom(env, at, &form[2], fuel) {
                Ok(v) => v,
                Err(e) => {
                    return Err(e);
                },
            };
            env.define(at, name.as_str(), evaluated);
            Ok(Atom::Identifier(String::new()))
        },
        _ => Err(EvalError::MalformedBinding),
    }
}

/// `(set! name expression)`: overwrites the nearest binding; yields its previous value.
fn eval_set(env: &mut Environment, at: usize, form: &Vec<Atom>, fuel: u64) -> (r: Result<Atom, EvalError>)
    requires
        at < old(env)@.len(),
    ensures
        (final(env)@, res_view(r)) == set_form(fuel as nat, old(env)@, at as nat, terms_of(form@)),
        final(env)@.len() >= old(env)@.len(),
    decreases fuel, 1nat,
{
    if form.len() != 3 {
        return Err(EvalError::MalformedBinding);
    }
    assert(terms_of(form@)[1] == form@[1]@);
    assert(terms_of(form@)[2] == form@[2]@);
    match &form[1] {
        Atom::Identifier(name) => {
            match env.lookup(at, name.as_str()) {
                Some(old_value) => {
                    let evaluated = match eval_atom(env, at, &form[2], fuel) {
                        Ok(v) => v,
                        Err(e) => {
                            return Err(e);
                        },
                    };
                    let _ = Scope::set_inherited(env, at, name.as_str(), evaluated);
                    Ok(old_value)
                },
                None => Err(EvalError::UnboundAssignment),
            }
        },
        _ => Err(EvalError::MalformedBinding),
    }
}

/// `(lambda (params...) body...)`: a closure over a new child of frame `at`.
fn eval_lambda(env: &mut Environment, at: usize, form: &Vec<Atom>) -> (r: Result<Atom, EvalError>)
    requires
        at < old(env)@.len(),
    ensures
        (final(env)@, res_view(r)) == lambda_form(old(env)@, at as nat, terms_of(form@)),
        final(env)@.len() >= old(env)@.len(),
{
    if form.len() < 3 {
        return Err(EvalError::InvalidParameterList);
    }
    assert(terms_of(form@)[1] == form@[1]@);
    match &form[1] {
        Atom::List(params) => {
            let ghost ps = terms_of(params@);
            assert(form@[1]@ == Term::List(ps));
            let mut names: Vec<String> = Vec::new();
            let mut i: usize = 0;
            while i < params.len()
                invariant
                    i <= params@.len(),
                    ps == terms_of(params@),
                    form@.len() >= 3,
                    terms_of(form@)[1] == Term::List(ps),
                    env@ == old(env)@,
                    at < env@.len(),
                    names@.len() == i,
                    forall|j: int| 0 <= j < i ==> #[trigger] ps[j] is Identifier && names@[j]@ == ps[j]->Identifier_0,
                decreases params@.len() - i,
            {
                assert(ps[i as int] == params@[i as int]@);
                match &params[i] {
                    Atom::Identifier(n) => {
                        names.push(n.clone());
                    },
                    _ => {
                        assert(!all_identifiers(ps));
                        return Err(EvalError::InvalidParameterList);
                    },
                }
                i = i + 1;
            }
            assert(all_identifiers(ps));
            if env.len() >= usize::MAX {
                return Err(EvalError::LimitExceeded);
            }
            let scope = new_child_scope(env, at);
            let body = copy_items(form, 2);
            assert(names_view(names@) =~= Seq::new(ps.len(), |j: int| ps[j]->Identifier_0));
            let ghost nv = names_view(names@);
            let closure = Closure { scope, parameters: names, body: Box::new(Atom::List(body)) };
            assert(scope == old(env)@.len());
            assert(names_view(closure.parameters@) == nv);
            assert(nv == Seq::new(ps.len(), |j: int| ps[j]->Identifier_0));
            assert((*closure.body)@ == Term::List(terms_of(form@).subrange(2, form@.len() as int)));
            assert(Atom::Lambda(closure)@ == Term::Lambda {
                scope: old(env)@.len(),
                parameters: Seq::new(ps.len(), |j: int| ps[j]->Identifier_0),
                body: Box::new(Term::List(terms_of(form@).subrange(2, form@.len() as int))),
            });
            Ok(Atom::Lambda(closure))
        },
        _ => Err(EvalError::InvalidParameterList),
    }
}

/// `(and args...)`: `#f` at the first `#f`, later arguments left unevaluated.
fn eval_and(env: &mut Environment, at: usize, form: &Vec<Atom>, fuel: u64) -> (r: Result<Atom, EvalError>)
    requires
        at < old(env)@.len(),
    ensures
        (final(env)@, res_view(r)) == (if form@.len() < 2 {
            (old(env)@, Err::<Term, EvalError>(EvalError::ArityMismatch))
        } else {
            and_args(fuel as nat, old(env)@, at as nat, terms_of(form@), 1)
        }),
        final(env)@.len() >= old(env)@.len(),
    decreases fuel, 1nat,
{
    if form.len() < 2 {
        return Err(EvalError::ArityMismatch);
    }
    let ghost ts = terms_of(form@);
    let ghost e0 = env@;
    let mut i: usize = 1;
    while i < form.len()
        invariant
            1 <= i <= form@.len(),
            ts == terms_of(form@),
            at < env@.len(),
            e0 == old(env)@,
            env@.len() >= e0.len(),
            and_args(fuel as nat, e0, at as nat, ts, 1) == and_args(fuel as nat, env@, at as nat, ts, i as int),
        decreases form@.len() - i,
    {
        assert(ts[i as int] == form@[i as int]@);
        let evaluated = match eval_atom(env, at, &form[i], fuel) {
            Ok(v) => v,
            Err(e) => {
                return Err(e);
            },
        };
        if is_false(&evaluated) {
            return Ok(lithp_false());
        }
        if !is_true(&evaluated) {
            return Err(EvalError::TypeError);
        }
        i = i + 1;
    }
    Ok(lithp_true())
}

/// `(or args...)`: `#t` at the first `#t`, later arguments left unevaluated.
fn eval_or(env: &mut Environment, at: usize, form: &Vec<Atom>, fuel: u64) -> (r: Result<Atom, EvalError>)
    requires
        at < old(env)@.len(),
    ensures
        (final(env)@, res_view(r)) == (if form@.len() < 2 {
            (old(env)@, Err::<Term, EvalError>(EvalError::ArityMismatch))
        } else {
            or_args(fuel as nat, old(env)@, at as nat, terms_of(form@), 1)
        }),
        final(env)@.len() >= old(env)@.len(),
    decreases fuel, 1nat,
{
    if form.len() < 2 {
        return Err(EvalError::ArityMismatch);
    }
    let ghost ts = terms_of(form@);
    let ghost e0 = env@;
    let mut i: usize = 1;
    while i < form.len()
        invariant
            1 <= i <= form@.len(),
            ts == terms_of(form@),
            at < env@.len(),
            e0 == old(env)@,
            env@.len() >= e0.len(),
            or_args(fuel as nat, e0, at as nat, ts, 1) == or_args(fuel as nat, env@, at as nat, ts, i as int),
        decreases form@.len() - i,
    {
        assert(ts[i as int] == form@[i as int]@);
        let evaluated = match eval_atom(env, at, &form[i], fuel) {
            Ok(v) => v,
            Err(e) => {
                return Err(e);
            },
        };
        if is_true(&evaluated) {
            return Ok(lithp_true());
        }
        if !is_false(&evaluated) {
            return Err(EvalError::TypeError);
        }
        i = i + 1;
    }
    Ok(lithp_false())
}

/// `(cond (test result)...)`: the result of the first clause whose test is `#t`, else `#f`.
fn eval_cond(env: &mut Environment, at: usize, form: &Vec<Atom>, fuel: u64) -> (r: Result<Atom, EvalError>)
    requires
        at < old(env)@.len(),
    ensures
        (final(env)@, res_view(r)) == cond_clauses(fuel as nat, old(env)@, at as nat, terms_of(form@), 1),
        final(env)@.len() >= old(env)@.len(),
    decreases fuel, 1nat,
{
    let ghost ts = terms_of(form@);
    let ghost e0 = env@;
    let mut i: usize = 1;
    while i < form.len()
        invariant
            1 <= i,
            ts == terms_of(form@),
            at < env@.len(),
            e0 == old(env)@,
            env@.len() >= e0.len(),
            cond_clauses(fuel as nat, e0, at as nat, ts, 1) == cond_clauses(fuel as nat, env@, at as nat, ts, i as int),
        decreases form@.len() - i,
    {
        assert(ts[i as int] == form@[i as int]@);
        match &form[i] {
            Atom::List(clause) => {
                assert(form@[i as int]@ == Term::List(terms_of(clause@)));
                if clause.len() != 2 {
                    return Err(EvalError::MalformedCond);
                }
                assert(terms_of(clause@)[0] == clause@[0]@);
                assert(terms_of(clause@)[1] == clause@[1]@);
                let test = match eval_atom(env, at, &clause[0], fuel) {
                    Ok(v) => v,
                    Err(e) => {
                        return Err(e);
                    },
                };
                if is_true(&test) {
                    return eval_atom(env, at, &clause[1], fuel);
                }
            },
            _ => {
                return Err(EvalError::MalformedCond);
            },
        }
        i = i + 1;
    }
    Ok(lithp_false())
}

/// Applies an evaluated head to evaluated arguments; a closure's body may nest
/// at most `fuel` deep.
pub fn apply(env: &mut Environment, func: &Atom, args: &Vec<Atom>, fuel: u64) -> (r: Result<Atom, EvalError>)
    ensures
        (final(env)@, res_view(r)) == apply_term(fuel as nat, old(env)@, func@, terms_of(args@)),
        final(env)@.len() >= old(env)@.len(),
    decreases fuel, 4nat,
{
    match func {
        Atom::Identifier(name) => {
            if is_name(name, "+") {
                math(0, Arith::Add, args)
            } else if is_name(name, "*") {
                math(1, Arith::Mul, args)
            } else if is_name(name, "/") {
                math_first(Arith::Div, args)
            } else if is_name(name, "-") {
                math_first(Arith::Sub, args)
            } else if is_name(name, "car") {
                car(args)
            } else if is_name(name, "cdr") {
                cdr(args)
            } else if is_name(name, "cons") {
                cons(args)
            } else if is_name(name, "list") {
                list(args)
            } else if is_name(name, ">") {
                gt(args)
            } else if is_name(name, "<") {
                lt(args)
            } else if is_name(name, "=") {
                eq(args)
            } else if is_name(name, "equal?") {
                equal(args)
            } else if is_name(name, "not") {
                not(args)
            } else {
                Err(EvalError::NotApplicable)
            }
        },
        Atom::Lambda(closure) => apply_closure(env, closure, args, fuel),
        _ => Err(EvalError::NotApplicable),
    }
}

/// Calls a closure: its parameters bound in a new child of the captured frame,
/// then its body evaluated there.
pub fn apply_closure(env: &mut Environment, closure: &Closure, args: &Vec<Atom>, fuel: u64) -> (r: Result<Atom, EvalError>)
    ensures
        (final(env)@, res_view(r)) == apply_term(fuel as nat, old(env)@, Atom::Lambda(*closure)@, terms_of(args@)),
        final(env)@.len() >= old(env)@.len(),
    decreases fuel, 3nat,
{
    if closure.parameters.len() != args.len() {
        return Err(EvalError::ArityMismatch);
    }
    if closure.scope >= env.len() {
        return Err(EvalError::NotApplicable);
    }
    if env.len() >= usize::MAX {
        return Err(EvalError::LimitExceeded);
    }
    let call_scope = new_child_scope(env, closure.scope);
    let ghost e1 = env@;
    let ghost names = names_view(closure.parameters@);
    let ghost vals = terms_of(args@);
    let mut i: usize = 0;
    while i < args.len()
        invariant
            i <= args@.len(),
            args@.len() == closure.parameters@.len(),
            call_scope < env@.len(),
            env@.len() == e1.len(),
            names == names_view(closure.parameters@),
            vals == terms_of(args@),
            env@ == bind_params(e1, call_scope as nat, names, vals, i as nat),
        decreases args@.len() - i,
    {
        assert(vals[i as int] == args@[i as int]@);
        env.define(call_scope, closure.parameters[i].as_str(), args[i].clone());
        i = i + 1;
    }
    eval_atoms(env, call_scope, &closure.body, fuel)
}

/// The binding list of a `let` or `let*` form, which must have a body.
fn split_let_body(form: &Vec<Atom>) -> (r: Result<&Atom, EvalError>)
    ensures
        match r {
            Ok(b) => form@.len() >= 3 && *b == form@[1],
            Err(e) => form@.len() < 3 && e == EvalError::MalformedBinding,
        },
{
    if form.len() >= 3 {
        Ok(&form[1])
    } else {
        Err(EvalError::MalformedBinding)
    }
}

/// The `(name expression)` pairs of a binding list.
fn extract_bindings(atom_list: &Atom) -> (r: Result<Vec<(String, Atom)>, EvalError>)
    ensures
        match r {
            Ok(v) => binding_pairs(atom_list@) == Ok::<Seq<(Seq<char>, Term)>, EvalError>(bindings_view(v@)),
            Err(e) => binding_pairs(atom_list@) == Err::<Seq<(Seq<char>, Term)>, EvalError>(e),
        },
{
    match atom_list {
        Atom::List(atoms) => {
            let ghost ts = terms_of(atoms@);
            assert(atom_list@ == Term::List(ts));
            let mut bindings: Vec<(String, Atom)> = Vec::new();
            let mut i: usize = 0;
            while i < atoms.len()
                invariant
                    i <= atoms@.len(),
                    ts == terms_of(atoms@),
                    atom_list@ == Term::List(ts),
                    bindings@.len() == i,
                    forall|j: int| 0 <= j < i ==> #[trigger] is_binding(ts[j]) && bindings_view(bindings@)[j] == (ts[j]->List_0[0]->Identifier_0, ts[j]->List_0[1]),
                decreases atoms@.len() - i,
            {
                assert(ts[i as int] == atoms@[i as int]@);
                match extract_binding(&atoms[i]) {
                    Ok(b) => {
                        let ghost before = bindings@;
                        bindings.push(b);
                        assert forall|j: int| 0 <= j < i implies bindings_view(bindings@)[j] == bindings_view(before)[j] by {
                            assert(bindings@[j] == before[j]);
                        }
                    },
                    Err(e) => {
                        assert(!is_binding(ts[i as int]));
                        return Err(e);
                    },
                }
                i = i + 1;
            }
            assert(bindings_view(bindings@) =~= Seq::new(ts.len(), |j: int| (ts[j]->List_0[0]->Identifier_0, ts[j]->List_0[1])));
            Ok(bindings)
        },
        _ => Err(EvalError::MalformedBinding),
    }
}

/// One `(name expression)` pair.
fn extract_binding(atom: &Atom) -> (r: Result<(String, Atom), EvalError>)
    ensures
        match r {
            Ok(p) => is_binding(atom@) && p.0@ == atom@->List_0[0]->Identifier_0 && p.1@ == atom@->List_0[1],
            Err(e) => !is_binding(atom@) && e == EvalError::MalformedBinding,
        },
{
    match atom {
        Atom::List(binding) => {
            assert(atom@ == Term::List(terms_of(binding@)));
            if binding.len() != 2 {
                return Err(EvalError::MalformedBinding);
            }
            assert(terms_of(binding@)[0] == binding@[0]@);
            assert(terms_of(binding@)[1] == binding@[1]@);
            match &binding[0] {
                Atom::Identifier(name) => Ok((name.clone(), binding[1].clone())),
                _ => Err(EvalError::MalformedBinding),
            }
        },
        _ => Err(EvalError::MalformedBinding),
    }
}

} // verus!
