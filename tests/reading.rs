use lithp::error::{EvalError, SyntaxError};
use lithp::eval::{eval_atoms, lithp_true};
use lithp::parser::Parser;
use lithp::scope::{Environment, Scope, new_child_scope, new_scope};
use lithp::atom::Atom;
use lithp::tokenizer::{Token, tokenize};

fn parse(program: &str) -> Result<Atom, SyntaxError> {
    let tokens = tokenize(program)?;
    Parser::new(tokens).parse()
}

#[test]
fn tokens_come_last_first() {
    let tokens = tokenize("(+ 12 'x)").expect("tokens");
    assert_eq!(tokens.len(), 6);
    assert!(matches!(tokens[0], Token::CloseParen));
    assert!(matches!(&tokens[1], Token::Identifier(s) if s == "x"));
    assert!(matches!(tokens[2], Token::Quote));
    assert!(matches!(tokens[3], Token::Integer(12)));
    assert!(matches!(&tokens[4], Token::Identifier(s) if s == "+"));
    assert!(matches!(tokens[5], Token::OpenParen));
}

#[test]
fn unicode_whitespace_separates_tokens() {
    let tokens = tokenize("a\u{3000}b\tc").expect("tokens");
    assert_eq!(tokens.len(), 3);
}

#[test]
fn integer_literal_out_of_range() {
    assert!(matches!(tokenize("99999999999999999999"), Err(SyntaxError::IntegerOutOfRange)));
    assert!(matches!(tokenize("9223372036854775807").expect("tokens")[0], Token::Integer(9223372036854775807)));
}

#[test]
fn parse_renders_program_list() {
    assert_eq!(parse("(a (b 1) 'c)").expect("ast").to_text(), "( ( a ( b 1 ) ' c ) )");
    assert_eq!(parse("").expect("ast").to_text(), "( )");
}

#[test]
fn syntax_errors() {
    assert!(matches!(parse("(a"), Err(SyntaxError::UnclosedList)));
    assert!(matches!(parse("("), Err(SyntaxError::EmptyListBody)));
    assert!(matches!(parse("a)"), Err(SyntaxError::LeftoverTokens)));
    assert!(matches!(parse("'"), Err(SyntaxError::UnexpectedEnd)));
    assert!(matches!(parse("(')"), Err(SyntaxError::UnexpectedToken)));
}

#[test]
fn frames_define_lookup_and_assign() {
    let mut env = Environment::new();
    let root = new_scope(&mut env);
    env.define(root, "x", Atom::Integer(1));
    let child = new_child_scope(&mut env, root);
    env.define(child, "y", Atom::Integer(2));
    assert!(matches!(env.lookup(child, "x"), Some(Atom::Integer(1))));
    assert!(matches!(env.lookup(root, "y"), None));
    let previous = Scope::set_inherited(&mut env, child, "x", Atom::Integer(3));
    assert!(matches!(previous, Some(Atom::Integer(1))));
    assert!(matches!(env.lookup(root, "x"), Some(Atom::Integer(3))));
    assert!(matches!(Scope::set_inherited(&mut env, child, "z", Atom::Integer(0)), None));
    assert!(matches!(env.scopes[child].get(&env, "x"), Some(Atom::Integer(3))));
}

#[test]
fn newest_local_binding_shadows() {
    let mut scope = Scope::new();
    scope.set_local("a", Atom::Integer(1));
    scope.set_local("a", Atom::Integer(2));
    assert!(matches!(scope.get_local("a"), Some(Atom::Integer(2))));
    assert!(matches!(scope.get_local("b"), None));
}

#[test]
fn depth_limit_is_an_error() {
    let mut env = Environment::new();
    let root = new_scope(&mut env);
    env.define(root, "#t", lithp_true());
    let program = parse("(define f (lambda () (f))) (f)").expect("ast");
    assert_eq!(eval_atoms(&mut env, root, &program, 40).err(), Some(EvalError::LimitExceeded));
}

#[test]
fn structural_equality_of_atoms() {
    let a = parse("(1 (2 x) 'y)").expect("ast");
    let b = parse("(1 (2 x) 'y)").expect("ast");
    let c = parse("(1 (2 z) 'y)").expect("ast");
    assert!(a == b);
    assert!(a != c);
}
