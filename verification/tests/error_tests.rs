//! Every compile-fatal condition, each from an input that provokes it. The
//! test names ending in the arity and binding faults follow the conditions
//! they exercise.

use compiler::compile_all;
use compiler::error::CompileError;

fn err(input: &[u8]) -> CompileError {
    compile_all(input).expect_err("program should fail to compile")
}

#[test]
fn invalid_let_binding_list() {
    let e = err(b"(let 1 1)");
    assert!(matches!(e, CompileError::LetBindingsNotForm));
    assert_eq!(e.message(), "let bindings is not a form");
}

#[test]
fn invalid_let_binding_list_entry() {
    let e = err(b"(let (1) 1)");
    assert!(matches!(e, CompileError::LetBindingNotForm));
    assert_eq!(e.message(), "let binding is not a form");
}

#[test]
fn let_binding_too_many_args() {
    let e = err(b"(let ((x 1 1)) x)");
    assert!(matches!(e, CompileError::LetBindingWrongCount));
    assert_eq!(e.message(), "let binding has incorrect argument count.");
}

#[test]
fn let_binding_duplicate_key() {
    match err(b"(let ((x 1) (x 1)) x)") {
        CompileError::DuplicateBinding(name) => assert_eq!(name, b"x".to_vec()),
        other => panic!("wrong error: {:?}", other),
    }
}

#[test]
fn let_binding_list_not_nested() {
    let e = err(b"(let (x 1) x)");
    assert!(matches!(e, CompileError::LetBindingNotForm));
    assert_eq!(e.message(), "let binding is not a form");
}

#[test]
fn let_binding_name_not_symbol() {
    let e = err(b"(let ((1 2)) 3)");
    assert!(matches!(e, CompileError::LetBindingNameNotSymbol));
}

#[test]
fn let_empty_body() {
    let e = err(b"(let ((x 1)))");
    assert!(matches!(e, CompileError::LetEmptyBody));
}

#[test]
fn too_few_if_args() {
    match err(b"(if)") {
        CompileError::IfArity(n) => assert_eq!(n, 0),
        other => panic!("wrong error: {:?}", other),
    }
}

#[test]
fn too_many_if_args() {
    match err(b"(if 1 2 3 4)") {
        CompileError::IfArity(n) => assert_eq!(n, 4),
        other => panic!("wrong error: {:?}", other),
    }
    assert_eq!(err(b"(if 1 2 3 4)").message(), "Invalid argument count to if: 4");
}

#[test]
fn leftover_data() {
    match err(b"]") {
        CompileError::Leftover(rest) => assert_eq!(rest, b"]".to_vec()),
        other => panic!("wrong error: {:?}", other),
    }
}

#[test]
fn leftover_after_complete_parse() {
    // a matched token must end at a delimiter; 12x is not the integer 12
    match err(b"12x") {
        CompileError::Leftover(rest) => assert_eq!(rest, b"12x".to_vec()),
        other => panic!("wrong error: {:?}", other),
    }
    match err(b"42 ]") {
        CompileError::Leftover(rest) => assert_eq!(rest, b"]".to_vec()),
        other => panic!("wrong error: {:?}", other),
    }
}

#[test]
fn unterminated_block_comment_is_leftover() {
    // one open, one nested open, only one close: nothing is consumed
    match err(b"#| #| |#") {
        CompileError::Leftover(rest) => assert_eq!(rest, b"#| #| |#".to_vec()),
        other => panic!("wrong error: {:?}", other),
    }
}

#[test]
fn too_few_unary_args() {
    match err(b"(not)") {
        CompileError::UnaryArity(name, n) => {
            assert_eq!(name, b"not".to_vec());
            assert_eq!(n, 0);
        },
        other => panic!("wrong error: {:?}", other),
    }
}

#[test]
fn too_many_unary_args() {
    match err(b"(not 1 2)") {
        CompileError::UnaryArity(name, n) => {
            assert_eq!(name, b"not".to_vec());
            assert_eq!(n, 2);
        },
        other => panic!("wrong error: {:?}", other),
    }
}

#[test]
fn too_few_nary_args() {
    match err(b"(-)") {
        CompileError::FoldArity(name, n) => {
            assert_eq!(name, b"-".to_vec());
            assert_eq!(n, 0);
        },
        other => panic!("wrong error: {:?}", other),
    }
    assert!(err(b"(-)")
        .message()
        .starts_with("Too few arguments provided to NaryFold primitive function"));
}

#[test]
fn use_undefined_variable() {
    match err(b"a") {
        CompileError::UnresolvedSymbol(name) => assert_eq!(name, b"a".to_vec()),
        other => panic!("wrong error: {:?}", other),
    }
    assert_eq!(err(b"a").message(), "Couldn't find environment entry for \"a\"");
}

#[test]
fn empty_form() {
    assert!(matches!(err(b"()"), CompileError::EmptyForm));
}

#[test]
fn head_not_symbol() {
    assert!(matches!(err(b"(1 2)"), CompileError::HeadNotSymbol));
}

#[test]
fn unknown_primitive() {
    match err(b"(frobnicate 1)") {
        CompileError::UnknownPrimitive(name) => assert_eq!(name, b"frobnicate".to_vec()),
        other => panic!("wrong error: {:?}", other),
    }
}

#[test]
fn calling_a_local_binding_is_unsupported() {
    // a local binding shadows any primitive name; calling it must fail, not
    // silently resolve
    match err(b"(let ((f 1)) (f))") {
        CompileError::CallUnsupported(name) => assert_eq!(name, b"f".to_vec()),
        other => panic!("wrong error: {:?}", other),
    }
    match err(b"(let ((add1 1)) (add1 2))") {
        CompileError::CallUnsupported(name) => assert_eq!(name, b"add1".to_vec()),
        other => panic!("wrong error: {:?}", other),
    }
}

#[test]
fn unrecognized_string_escape_is_fatal() {
    match err(b"\"a\\qb\"") {
        CompileError::BadStringEscape(b) => assert_eq!(b, b'q'),
        other => panic!("wrong error: {:?}", other),
    }
}

#[test]
fn unterminated_string_is_leftover() {
    match err(b"\"abc") {
        CompileError::Leftover(rest) => assert_eq!(rest, b"\"abc".to_vec()),
        other => panic!("wrong error: {:?}", other),
    }
}

#[test]
fn error_reported_from_inside_a_form() {
    // a fatal condition inside a nested subtree aborts the whole compilation
    assert!(matches!(err(b"(add1 (not))"), CompileError::UnaryArity(_, 0)));
    assert!(matches!(err(b"(+ 1 b)"), CompileError::UnresolvedSymbol(_)));
}
