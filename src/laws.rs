//! Properties of the evaluator, stated over the meaning of programs.
use vstd::prelude::*;

use crate::atom::{Term, terms_equal};
use crate::error::EvalError;
use crate::scope::{Frame, lookup, owner, newest_index};
use crate::semantics::{
    Arith, MAX_DEPTH, and_args, apply_term, cond_clauses, eval_all, eval_seq, eval_sequence,
    eval_term, false_term, fold_ints, is_special_form, primitive, program_result, resolve,
    root_env, set_form, special_form, true_term,
};

verus! {

/// The characters of every name the evaluator gives a meaning to.
pub proof fn lemma_names()
    ensures
        "#t"@ == seq!['#', 't'],
        "#f"@ == seq!['#', 'f'],
        "let"@ == seq!['l', 'e', 't'],
        "let*"@ == seq!['l', 'e', 't', '*'],
        "define"@ == seq!['d', 'e', 'f', 'i', 'n', 'e'],
        "set!"@ == seq!['s', 'e', 't', '!'],
        "lambda"@ == seq!['l', 'a', 'm', 'b', 'd', 'a'],
        "and"@ == seq!['a', 'n', 'd'],
        "or"@ == seq!['o', 'r'],
        "cond"@ == seq!['c', 'o', 'n', 'd'],
        "+"@ == seq!['+'],
        "-"@ == seq!['-'],
        "*"@ == seq!['*'],
        "/"@ == seq!['/'],
        "car"@ == seq!['c', 'a', 'r'],
        "cdr"@ == seq!['c', 'd', 'r'],
        "cons"@ == seq!['c', 'o', 'n', 's'],
        "list"@ == seq!['l', 'i', 's', 't'],
        ">"@ == seq!['>'],
        "<"@ == seq!['<'],
        "="@ == seq!['='],
        "equal?"@ == seq!['e', 'q', 'u', 'a', 'l', '?'],
        "not"@ == seq!['n', 'o', 't'],
{
    reveal_strlit("#t");
    reveal_strlit("#f");
    reveal_strlit("let");
    reveal_strlit("let*");
    reveal_strlit("define");
    reveal_strlit("set!");
    reveal_strlit("lambda");
    reveal_strlit("and");
    reveal_strlit("or");
    reveal_strlit("cond");
    reveal_strlit("+");
    reveal_strlit("-");
    reveal_strlit("*");
    reveal_strlit("/");
    reveal_strlit("car");
    reveal_strlit("cdr");
    reveal_strlit("cons");
    reveal_strlit("list");
    reveal_strlit(">");
    reveal_strlit("<");
    reveal_strlit("=");
    reveal_strlit("equal?");
    reveal_strlit("not");
}

/// Nothing but `#t` and `#f` is bound in the root frame.
pub proof fn lemma_root_unbound(n: Seq<char>)
    requires
        n != "#t"@,
        n != "#f"@,
    ensures
        lookup(root_env(), 0, n) is None,
{
    let b = root_env()[0].bindings;
    assert(b.drop_last().drop_last() =~= Seq::empty());
    assert(b.drop_last() =~= seq![("#t"@, true_term())]);
    assert(newest_index(b.drop_last().drop_last(), n) is None);
    assert(newest_index(b.drop_last(), n) is None);
    assert(newest_index(b, n) is None);
    assert(owner(root_env(), 0, n) is None);
}

/// `(+ a b)` evaluates to `a + b` whenever the sum fits in 64 signed bits.
pub proof fn law_add_two(a: i64, b: i64)
    requires
        i64::MIN <= a + b <= i64::MAX,
    ensures
        program_result(
            Term::List(seq![Term::List(seq![Term::Identifier("+"@), Term::Integer(a), Term::Integer(b)])]),
        ) == Ok::<Term, EvalError>(Term::Integer((a + b) as i64)),
{
    lemma_names();
    let e = Term::List(seq![Term::Identifier("+"@), Term::Integer(a), Term::Integer(b)]);
    let items = seq![Term::Identifier("+"@), Term::Integer(a), Term::Integer(b)];
    let env = root_env();
    assert(!is_special_form("+"@));
    lemma_root_unbound("+"@);
    assert(resolve(env, 0, "+"@) == Ok::<Term, EvalError>(Term::Identifier("+"@)));
    let f = (MAX_DEPTH - 1) as nat;
    assert(eval_term(f, env, 0, items[0]) == (env, Ok::<Term, EvalError>(Term::Identifier("+"@))));
    let v1 = seq![Term::Identifier("+"@)];
    let v2 = v1.push(Term::Integer(a));
    assert(v2.push(Term::Integer(b)) =~= items);
    assert(eval_term(f, env, 0, items[1]) == (env, Ok::<Term, EvalError>(Term::Integer(a))));
    assert(eval_term(f, env, 0, items[2]) == (env, Ok::<Term, EvalError>(Term::Integer(b))));
    assert(eval_all(f, env, 0, items, 3, items) == (env, Ok::<Seq<Term>, EvalError>(items)));
    assert(eval_all(f, env, 0, items, 2, v2) == (env, Ok::<Seq<Term>, EvalError>(items)));
    assert(eval_all(f, env, 0, items, 1, v1) == (env, Ok::<Seq<Term>, EvalError>(items)));
    assert(Seq::<Term>::empty().push(items[0]) =~= v1);
    assert(eval_all(f, env, 0, items, 0, Seq::empty()) == (env, Ok::<Seq<Term>, EvalError>(items)));
    assert(fold_ints(Arith::Add, 0, seq![Term::Integer(a), Term::Integer(b)], 0) == Ok::<i64, EvalError>(0));
    assert(fold_ints(Arith::Add, 0, seq![Term::Integer(a), Term::Integer(b)], 1) == Ok::<i64, EvalError>(a));
    assert(items.drop_first() =~= seq![Term::Integer(a), Term::Integer(b)]);
    assert(eval_term(MAX_DEPTH as nat, env, 0, e).1 == Ok::<Term, EvalError>(Term::Integer((a + b) as i64)));
}

/// The root frame binds `#t` and `#f` to themselves.
pub proof fn lemma_root_booleans()
    ensures
        lookup(root_env(), 0, "#t"@) == Some(true_term()),
        lookup(root_env(), 0, "#f"@) == Some(false_term()),
{
    lemma_names();
    let b = root_env()[0].bindings;
    assert(b.drop_last() =~= seq![("#t"@, true_term())]);
    assert(newest_index(b, "#f"@) == Some(1int));
    assert(newest_index(b.drop_last(), "#t"@) == Some(0int));
    assert(newest_index(b, "#t"@) == Some(0int));
    assert(owner(root_env(), 0, "#t"@) == Some(0nat));
    assert(owner(root_env(), 0, "#f"@) == Some(0nat));
}

/// The value of a program of one expression is the value of that expression.
proof fn lemma_single(e: Term)
    ensures
        program_result(Term::List(seq![e])) == eval_term(MAX_DEPTH as nat, root_env(), 0, e).1,
{
    let items = seq![e];
    assert(eval_sequence(MAX_DEPTH as nat, root_env(), 0, Term::List(items)) == eval_seq(
        MAX_DEPTH as nat,
        root_env(),
        0,
        items,
        0,
    ));
}

/// `(set! n e)` on a name that no frame binds fails with an unbound
/// assignment, whatever `e` is.
pub proof fn law_set_unbound(n: Seq<char>, e: Term)
    requires
        n != "#t"@,
        n != "#f"@,
    ensures
        program_result(Term::List(seq![Term::List(seq![Term::Identifier("set!"@), Term::Identifier(n), e])]))
            == Err::<Term, EvalError>(EvalError::UnboundAssignment),
{
    lemma_names();
    lemma_root_unbound(n);
    let form = seq![Term::Identifier("set!"@), Term::Identifier(n), e];
    lemma_single(Term::List(form));
    let f = (MAX_DEPTH - 1) as nat;
    assert(is_special_form("set!"@));
    assert(set_form(f, root_env(), 0, form).1 == Err::<Term, EvalError>(EvalError::UnboundAssignment));
    assert(special_form(f, root_env(), 0, "set!"@, form).1 == Err::<Term, EvalError>(EvalError::UnboundAssignment));
}

/// `(cond (#f 1) (#t 2) clauses...)` evaluates to `2`: the first clause whose
/// test is `#t` wins and the clauses after it are not looked at.
pub proof fn law_cond_first_true(clauses: Seq<Term>)
    ensures
        program_result(
            Term::List(
                seq![
                    Term::List(
                        seq![
                            Term::Identifier("cond"@),
                            Term::List(seq![Term::Identifier("#f"@), Term::Integer(1)]),
                            Term::List(seq![Term::Identifier("#t"@), Term::Integer(2)]),
                        ] + clauses,
                    ),
                ],
            ),
        ) == Ok::<Term, EvalError>(Term::Integer(2)),
{
    lemma_names();
    lemma_root_booleans();
    let form = seq![
        Term::Identifier("cond"@),
        Term::List(seq![Term::Identifier("#f"@), Term::Integer(1)]),
        Term::List(seq![Term::Identifier("#t"@), Term::Integer(2)]),
    ] + clauses;
    lemma_single(Term::List(form));
    let f = (MAX_DEPTH - 1) as nat;
    let env = root_env();
    assert(form[0] == Term::Identifier("cond"@));
    assert(form[1] == Term::List(seq![Term::Identifier("#f"@), Term::Integer(1)]));
    assert(form[2] == Term::List(seq![Term::Identifier("#t"@), Term::Integer(2)]));
    assert(is_special_form("cond"@));
    assert(eval_term(f, env, 0, Term::Identifier("#f"@)) == (env, Ok::<Term, EvalError>(false_term())));
    assert(eval_term(f, env, 0, Term::Identifier("#t"@)) == (env, Ok::<Term, EvalError>(true_term())));
    assert(eval_term(f, env, 0, Term::Integer(2)) == (env, Ok::<Term, EvalError>(Term::Integer(2))));
    assert(cond_clauses(f, env, 0, form, 2) == (env, Ok::<Term, EvalError>(Term::Integer(2))));
    assert(cond_clauses(f, env, 0, form, 1) == (env, Ok::<Term, EvalError>(Term::Integer(2))));
    assert(special_form(f, env, 0, "cond"@, form) == (env, Ok::<Term, EvalError>(Term::Integer(2))));
}

/// `(and #t #t #f args...)` evaluates to `#f` whatever follows: the arguments
/// after the first `#f` are not evaluated.
pub proof fn law_and_short_circuit(args: Seq<Term>)
    ensures
        program_result(
            Term::List(
                seq![
                    Term::List(
                        seq![
                            Term::Identifier("and"@),
                            Term::Identifier("#t"@),
                            Term::Identifier("#t"@),
                            Term::Identifier("#f"@),
                        ] + args,
                    ),
                ],
            ),
        ) == Ok::<Term, EvalError>(false_term()),
{
    lemma_names();
    lemma_root_booleans();
    let form = seq![
        Term::Identifier("and"@),
        Term::Identifier("#t"@),
        Term::Identifier("#t"@),
        Term::Identifier("#f"@),
    ] + args;
    lemma_single(Term::List(form));
    let f = (MAX_DEPTH - 1) as nat;
    let env = root_env();
    assert(form[0] == Term::Identifier("and"@));
    assert(form[1] == Term::Identifier("#t"@));
    assert(form[2] == Term::Identifier("#t"@));
    assert(form[3] == Term::Identifier("#f"@));
    assert(is_special_form("and"@));
    assert(eval_term(f, env, 0, Term::Identifier("#f"@)) == (env, Ok::<Term, EvalError>(false_term())));
    assert(eval_term(f, env, 0, Term::Identifier("#t"@)) == (env, Ok::<Term, EvalError>(true_term())));
    assert(and_args(f, env, 0, form, 3) == (env, Ok::<Term, EvalError>(false_term())));
    assert(and_args(f, env, 0, form, 2) == (env, Ok::<Term, EvalError>(false_term())));
    assert(and_args(f, env, 0, form, 1) == (env, Ok::<Term, EvalError>(false_term())));
    assert(special_form(f, env, 0, "and"@, form) == (env, Ok::<Term, EvalError>(false_term())));
}

/// A closure is `equal?` to nothing, not even to itself.
pub proof fn law_closures_never_equal(c: Term, other: Term)
    requires
        c is Lambda,
    ensures
        primitive("equal?"@, seq![c, other]) == Ok::<Term, EvalError>(false_term()),
        primitive("equal?"@, seq![other, c]) == Ok::<Term, EvalError>(false_term()),
{
    lemma_names();
    assert(!terms_equal(c, other));
    assert(!terms_equal(other, c));
}

/// A closure called with a number of arguments other than its number of
/// parameters fails with an arity mismatch, and changes no frame.
pub proof fn law_closure_arity(fuel: nat, env: Seq<Frame>, c: Term, args: Seq<Term>)
    requires
        c is Lambda,
        c->parameters.len() != args.len(),
    ensures
        apply_term(fuel, env, c, args) == (env, Err::<Term, EvalError>(EvalError::ArityMismatch)),
{
}

/// `car` of anything but a non-empty list is a type error, never a failure of
/// the evaluator itself.
pub proof fn law_car_needs_list(x: Term)
    requires
        !(x matches Term::List(xs) && xs.len() > 0),
    ensures
        primitive("car"@, seq![x]) == Err::<Term, EvalError>(EvalError::TypeError),
{
    lemma_names();
}

} // verus!
