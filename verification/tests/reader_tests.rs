//! Token-level tests of the reader, and of the pieces the lowering exposes.

use compiler::ast::Expression;
use compiler::env::Environment;
use compiler::instr::{Instr, Opcode};
use compiler::lower::{lower_expression, lower_expressions};
use compiler::reader::{
    consume_bool, consume_bytes, consume_character, consume_expression, consume_expressions,
    consume_form, consume_int, consume_null, consume_symbol, consume_whitespace, is_ascii_printable,
    is_delimiter, is_symbol_char, is_symbol_start_char, starts_with_delimiter,
};

#[test]
fn delimiters() {
    assert!(is_delimiter(b' '));
    assert!(is_delimiter(b'\t'));
    assert!(is_delimiter(b'\n'));
    assert!(is_delimiter(b'('));
    assert!(is_delimiter(b')'));
    assert!(!is_delimiter(b'a'));
    assert!(!is_delimiter(b';'));
    assert!(starts_with_delimiter(b""));
    assert!(starts_with_delimiter(b" x"));
    assert!(!starts_with_delimiter(b"x "));
}

#[test]
fn character_classes() {
    assert!(is_ascii_printable(b'!'));
    assert!(is_ascii_printable(b'~'));
    assert!(!is_ascii_printable(b' '));
    assert!(!is_ascii_printable(b'\n'));
    assert!(is_symbol_start_char(b'a'));
    assert!(is_symbol_start_char(b'-'));
    assert!(is_symbol_start_char(b'?'));
    assert!(!is_symbol_start_char(b'3'));
    assert!(is_symbol_char(b'3'));
    assert!(!is_symbol_char(b'('));
}

#[test]
fn consume_int_requires_delimiter() {
    assert_eq!(consume_int(b"42"), Some((42, &b""[..])));
    assert_eq!(consume_int(b"42 x"), Some((42, &b" x"[..])));
    assert_eq!(consume_int(b"42x"), None);
    assert_eq!(consume_int(b"x42"), None);
    assert_eq!(consume_int(b""), None);
}

#[test]
fn consume_bool_cases() {
    assert_eq!(consume_bool(b"#t"), Some((true, &b""[..])));
    assert_eq!(consume_bool(b"#F)"), Some((false, &b")"[..])));
    assert_eq!(consume_bool(b"#x"), None);
    assert_eq!(consume_bool(b"#tx"), None);
}

#[test]
fn consume_character_cases() {
    assert_eq!(consume_character(b"#\\a"), Some((b'a', &b""[..])));
    assert_eq!(consume_character(b"#\\( "), Some((b'(', &b" "[..])));
    assert_eq!(consume_character(b"#\\ab"), None);
    assert_eq!(consume_character(b"#\\ "), None);
}

#[test]
fn consume_null_and_bytes() {
    assert_eq!(consume_null(b"'()x"), Some(&b"x"[..]));
    assert_eq!(consume_null(b"'( )"), None);
    assert_eq!(consume_bytes(b"abc", b"ab"), Some(&b"c"[..]));
    assert_eq!(consume_bytes(b"abc", b"ac"), None);
}

#[test]
fn consume_symbol_cases() {
    assert_eq!(consume_symbol(b"abc"), Some((&b"abc"[..], &b""[..])));
    assert_eq!(consume_symbol(b"a1- b"), Some((&b"a1-"[..], &b" b"[..])));
    assert_eq!(consume_symbol(b"char->integer)"), Some((&b"char->integer"[..], &b")"[..])));
    assert_eq!(consume_symbol(b"1ab"), None);
    assert_eq!(consume_symbol(b"ab\"") , None);
}

#[test]
fn consume_whitespace_stops_at_nonspace() {
    assert_eq!(consume_whitespace(b"  \t\nx y"), &b"x y"[..]);
    assert_eq!(consume_whitespace(b"x"), &b"x"[..]);
    assert_eq!(consume_whitespace(b""), &b""[..]);
}

#[test]
fn consume_expression_priority() {
    // a digit run is claimed by the integer production, not the symbol one
    match consume_expression(b"12 x").expect("no hard failure") {
        Some((Expression::Int(12), rest)) => assert_eq!(rest, b" x"),
        other => panic!("unexpected: {:?}", other),
    }
    match consume_expression(b"-12 x").expect("no hard failure") {
        Some((Expression::Symbol(name), _)) => assert_eq!(name, b"-12".to_vec()),
        other => panic!("unexpected: {:?}", other),
    }
    assert!(consume_expression(b"]").expect("no hard failure").is_none());
}

#[test]
fn consume_form_backtracks_without_close() {
    assert!(consume_form(b"(1 2").expect("no hard failure").is_none());
    match consume_form(b"( 1 2 )x").expect("no hard failure") {
        Some((args, rest)) => {
            assert_eq!(args.len(), 2);
            assert_eq!(rest, b"x");
        },
        None => panic!("form should match"),
    }
}

#[test]
fn consume_expressions_is_greedy() {
    let (es, rest) = consume_expressions(b"1 2 ]").expect("no hard failure");
    assert_eq!(es.len(), 2);
    assert_eq!(rest, b"]");
}

#[test]
fn environment_resolves_latest_binding() {
    let mut env = Environment::new();
    assert_eq!(env.resolve(b"x"), None);
    env.bind(b"x".to_vec(), 0);
    env.bind(b"y".to_vec(), 1);
    assert_eq!(env.resolve(b"x"), Some(0));
    assert_eq!(env.resolve(b"y"), Some(1));
    env.bind(b"x".to_vec(), 2);
    assert_eq!(env.resolve(b"x"), Some(2));
    assert!(env.contains(b"y"));
    assert!(!env.contains(b"z"));
}

#[test]
fn lower_expression_emits_instructions() {
    let env = Environment::new();
    let code = lower_expression(Expression::Int(7), &env, 0).expect("literal lowers");
    assert_eq!(code, vec![Instr::LoadInt(7)]);

    let form = Expression::Form(vec![
        Expression::Symbol(b"add1".to_vec()),
        Expression::Int(1),
    ]);
    let code = lower_expression(form, &env, 0).expect("unary call lowers");
    assert_eq!(code, vec![Instr::LoadInt(1), Instr::Op(Opcode::Add1)]);
}

#[test]
fn lower_symbol_fetches_its_slot() {
    let mut env = Environment::new();
    env.bind(b"x".to_vec(), 3);
    let code = lower_expression(Expression::Symbol(b"x".to_vec()), &env, 4).expect("bound symbol");
    assert_eq!(code, vec![Instr::Get(3)]);
}

#[test]
fn lower_expressions_discards_all_but_last() {
    let env = Environment::new();
    let code = lower_expressions(
        vec![Expression::Int(1), Expression::Int(2), Expression::Int(3)],
        &env,
        0,
    )
    .expect("sequence lowers");
    assert_eq!(
        code,
        vec![
            Instr::LoadInt(1),
            Instr::Forget,
            Instr::LoadInt(2),
            Instr::Forget,
            Instr::LoadInt(3),
        ]
    );
}
