use lithp::atom::Atom;
use lithp::error::EvalError;
use lithp::eval::eval;
use lithp::parser::Parser;
use lithp::tokenizer::tokenize;

fn run(program: &str) -> Result<Atom, EvalError> {
    let tokens = tokenize(program).expect("tokens");
    let ast = Parser::new(tokens).parse().expect("syntax");
    eval(ast)
}

fn text(program: &str) -> String {
    run(program).expect("value").to_text()
}

#[test]
fn add_two_integers() {
    assert_eq!(text("(+ 2 3)"), "5");
    assert_eq!(text("(+ (- 0 4) 9)"), "5");
}

#[test]
fn empty_sum_and_product() {
    assert_eq!(text("(+ )"), "0");
    assert_eq!(text("(* )"), "1");
}

#[test]
fn subtraction_and_division_fold_left() {
    assert_eq!(text("(- 10 3 2)"), "5");
    assert_eq!(text("(/ 20 2 5)"), "2");
}

#[test]
fn car_and_cdr_of_list() {
    assert_eq!(text("(car (list 1 2 3))"), "1");
    assert_eq!(text("(cdr (list 1 2 3))"), "( 2 3 )");
}

#[test]
fn cons_onto_list() {
    assert_eq!(text("(cons 1 (list 2 3))"), "( 1 2 3 )");
}

#[test]
fn let_bindings_see_outer_scope() {
    assert_eq!(text("(let ((x 1)) (let ((x 2)(y x)) y))"), "1");
}

#[test]
fn let_star_bindings_are_sequential() {
    assert_eq!(text("(let* ((x 1)(y x)) y)"), "1");
}

#[test]
fn set_overwrites_definition() {
    assert_eq!(text("(define x 5) (set! x 6) x"), "6");
}

#[test]
fn set_of_undefined_name_fails() {
    assert_eq!(run("(set! y 1)"), Err(EvalError::UnboundAssignment));
}

#[test]
fn closure_captures_defining_environment() {
    assert_eq!(text("(define f (let ((x 1)) (lambda () x))) (define x 2) (f)"), "1");
}

#[test]
fn cond_first_true_clause_wins() {
    assert_eq!(text("(cond (#f 1)(#t 2)(#t 3))"), "2");
}

#[test]
fn and_stops_at_first_false() {
    assert_eq!(text("(and #t #t #f)"), "#f");
    assert_eq!(text("(and #t #f (car 1))"), "#f");
}

#[test]
fn arity_and_type_violations_are_errors() {
    assert_eq!(run("(car 1)"), Err(EvalError::TypeError));
    assert_eq!(run("(+ 1 x)"), Err(EvalError::UnboundIdentifier));
    assert_eq!(run("(+ 1 car)"), Err(EvalError::TypeError));
    assert_eq!(run("((lambda (a b) a) 1)"), Err(EvalError::ArityMismatch));
}

#[test]
fn equal_is_structural() {
    assert_eq!(text("(equal? (list 1 (list 2)) (list 1 (list 2)))"), "#t");
    assert_eq!(text("(equal? (lambda () 1) (lambda () 1))"), "#f");
    assert_eq!(text("(define f (lambda () 1)) (equal? f f)"), "#f");
}

#[test]
fn quoted_values_are_not_evaluated() {
    assert_eq!(text("'(undefined 1 2)"), "( undefined 1 2 )");
    assert_eq!(text("''x"), "' x");
}

#[test]
fn rendering_of_values() {
    assert_eq!(text("(list)"), "( )");
    assert_eq!(text("(list 1 (list 2 3) car)"), "( 1 ( 2 3 ) car )");
    assert_eq!(text("(lambda (x) x)"), "<lambda>");
    assert_eq!(text("(- 0 9223372036854775807 1)"), "-9223372036854775808");
    assert_eq!(text("(define x 1)"), "");
}

#[test]
fn sequence_yields_last_value() {
    assert_eq!(text("1 2 3"), "3");
}

#[test]
fn recursive_closure() {
    let program = "(define fact (lambda (n) (cond ((= n 0) 1) (#t (* n (fact (- n 1))))))) (fact 20)";
    assert_eq!(text(program), "2432902008176640000");
}

#[test]
fn closure_sees_later_mutation_of_captured_frame() {
    let program = "(define counter (let ((n 0)) (lambda () (set! n (+ n 1)) n))) (counter) (counter)";
    assert_eq!(text(program), "2");
}

#[test]
fn define_inside_closure_does_not_leak() {
    let program = "(define f (lambda () (define y 7) y)) (f) y";
    assert_eq!(run(program), Err(EvalError::UnboundIdentifier));
}

#[test]
fn set_returns_previous_value() {
    assert_eq!(text("(define x 5) (set! x 6)"), "5");
}

#[test]
fn or_and_not() {
    assert_eq!(text("(or #f #f #t)"), "#t");
    assert_eq!(text("(or #f #f)"), "#f");
    assert_eq!(text("(or #t (car 1))"), "#t");
    assert_eq!(text("(not #t)"), "#f");
    assert_eq!(text("(not (= 1 2))"), "#t");
}

#[test]
fn integer_comparisons() {
    assert_eq!(text("(> 3 2)"), "#t");
    assert_eq!(text("(< 3 2)"), "#f");
    assert_eq!(text("(= 4 4)"), "#t");
}

#[test]
fn cond_without_true_clause_is_false() {
    assert_eq!(text("(cond (#f 1))"), "#f");
    assert_eq!(text("(cond)"), "#f");
}

#[test]
fn error_unbound_identifier() {
    assert_eq!(run("nothing"), Err(EvalError::UnboundIdentifier));
}

#[test]
fn error_empty_application() {
    assert_eq!(run("()"), Err(EvalError::EmptyApplication));
}

#[test]
fn error_arity_mismatch() {
    assert_eq!(run("(car (list 1) (list 2))"), Err(EvalError::ArityMismatch));
    assert_eq!(run("(cons 1)"), Err(EvalError::ArityMismatch));
    assert_eq!(run("(- )"), Err(EvalError::ArityMismatch));
    assert_eq!(run("(and)"), Err(EvalError::ArityMismatch));
    assert_eq!(run("(not #t #f)"), Err(EvalError::ArityMismatch));
    assert_eq!(run("(equal? 1)"), Err(EvalError::ArityMismatch));
}

#[test]
fn error_type() {
    assert_eq!(run("(car (list))"), Err(EvalError::TypeError));
    assert_eq!(run("(cdr 5)"), Err(EvalError::TypeError));
    assert_eq!(run("(cons 1 2)"), Err(EvalError::TypeError));
    assert_eq!(run("(> 1 #t)"), Err(EvalError::TypeError));
    assert_eq!(run("(not 1)"), Err(EvalError::TypeError));
    assert_eq!(run("(and #t 1)"), Err(EvalError::TypeError));
}

#[test]
fn error_malformed_cond() {
    assert_eq!(run("(cond (#t))"), Err(EvalError::MalformedCond));
    assert_eq!(run("(cond 1)"), Err(EvalError::MalformedCond));
}

#[test]
fn error_invalid_parameter_list() {
    assert_eq!(run("(lambda (1) 1)"), Err(EvalError::InvalidParameterList));
    assert_eq!(run("(lambda (x))"), Err(EvalError::InvalidParameterList));
}

#[test]
fn error_not_applicable() {
    assert_eq!(run("(1 2)"), Err(EvalError::NotApplicable));
    assert_eq!(run("((list 1) 2)"), Err(EvalError::NotApplicable));
}

#[test]
fn error_division_by_zero() {
    assert_eq!(run("(/ 1 0)"), Err(EvalError::DivisionByZero));
}

#[test]
fn error_overflow() {
    assert_eq!(run("(+ 9223372036854775807 1)"), Err(EvalError::Overflow));
    assert_eq!(run("(* 4294967296 4294967296)"), Err(EvalError::Overflow));
}

#[test]
fn error_malformed_binding() {
    assert_eq!(run("(let ((x)) x)"), Err(EvalError::MalformedBinding));
    assert_eq!(run("(let ((x 1)))"), Err(EvalError::MalformedBinding));
    assert_eq!(run("(define 1 2)"), Err(EvalError::MalformedBinding));
    assert_eq!(run("(set! x)"), Err(EvalError::MalformedBinding));
    assert_eq!(run("(let 1)"), Err(EvalError::MalformedBinding));
}

#[test]
fn deep_recursion_within_the_limit() {
    let program = "(define count (lambda (n) (cond ((= n 0) 0) (#t (+ 1 (count (- n 1))))))) (count 250)";
    assert_eq!(text(program), "250");
}

#[test]
fn runaway_recursion_is_an_error() {
    let program = "(define count (lambda (n) (cond ((= n 0) 0) (#t (+ 1 (count (- n 1))))))) (count 1000)";
    assert_eq!(run(program), Err(EvalError::LimitExceeded));
}
