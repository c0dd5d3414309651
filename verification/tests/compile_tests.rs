//! End-to-end tests: whole programs through `compile_all`, checked against
//! the exact instruction listing.

use compiler::compile_all;

fn lines(input: &[u8]) -> Vec<String> {
    compile_all(input).expect("program should compile")
}

#[test]
fn integer_literal_round_trip() {
    assert_eq!(lines(b"42"), vec!["LOAD64 42".to_string()]);
}

#[test]
fn boolean_literal_round_trip() {
    assert_eq!(lines(b"#t"), vec!["LOAD64 #t".to_string()]);
    assert_eq!(lines(b"#f"), vec!["LOAD64 #f".to_string()]);
    assert_eq!(lines(b"#T"), vec!["LOAD64 #t".to_string()]);
    assert_eq!(lines(b"#F"), vec!["LOAD64 #f".to_string()]);
}

#[test]
fn character_literal_round_trip() {
    assert_eq!(lines(b"#\\a"), vec!["LOAD64 #\\x61".to_string()]);
    assert_eq!(lines(b"#\\~"), vec!["LOAD64 #\\x7e".to_string()]);
    assert_eq!(lines(b"#\\0"), vec!["LOAD64 #\\x30".to_string()]);
}

#[test]
fn null_literal_round_trip() {
    assert_eq!(lines(b"'()"), vec!["LOAD64 NULL".to_string()]);
}

#[test]
fn string_literal_builds_from_characters() {
    assert_eq!(
        lines(b"\"ab\\n\""),
        vec![
            "LOAD64 #\\x61".to_string(),
            "LOAD64 #\\x62".to_string(),
            "LOAD64 #\\xa".to_string(),
            "STRING 3".to_string(),
        ]
    );
    assert_eq!(lines(b"\"\""), vec!["STRING 0".to_string()]);
}

#[test]
fn string_escapes() {
    assert_eq!(
        lines(b"\"\\\\\\t\\\"\""),
        vec![
            "LOAD64 #\\x5c".to_string(),
            "LOAD64 #\\x9".to_string(),
            "LOAD64 #\\x22".to_string(),
            "STRING 3".to_string(),
        ]
    );
    // a backslash before a literal line break continues the line as a newline
    assert_eq!(
        lines(b"\"a\\\nb\""),
        vec![
            "LOAD64 #\\x61".to_string(),
            "LOAD64 #\\xa".to_string(),
            "LOAD64 #\\x62".to_string(),
            "STRING 3".to_string(),
        ]
    );
}

#[test]
fn integer_wraps_at_64_bits() {
    // one past u64::MAX wraps to zero, per fixed-width accumulation
    assert_eq!(lines(b"18446744073709551616"), vec!["LOAD64 0".to_string()]);
    assert_eq!(
        lines(b"18446744073709551615"),
        vec!["LOAD64 18446744073709551615".to_string()]
    );
}

#[test]
fn unary_primitive() {
    assert_eq!(lines(b"(add1 2)"), vec!["LOAD64 2".to_string(), "ADD1".to_string()]);
    assert_eq!(lines(b"(not #f)"), vec!["LOAD64 #f".to_string(), "NOT".to_string()]);
    assert_eq!(
        lines(b"(char->integer #\\a)"),
        vec!["LOAD64 #\\x61".to_string(), "CHARTOINT".to_string()]
    );
}

#[test]
fn fold_pads_missing_operands_with_identity() {
    // (+) folds two synthesized zeros
    assert_eq!(
        lines(b"(+)"),
        vec!["LOAD64 0".to_string(), "LOAD64 0".to_string(), "ADD".to_string()]
    );
    // (+ 1) pads one leading zero
    assert_eq!(
        lines(b"(+ 1)"),
        vec!["LOAD64 0".to_string(), "LOAD64 1".to_string(), "ADD".to_string()]
    );
    // (* 3) pads with the multiplicative identity
    assert_eq!(
        lines(b"(* 3)"),
        vec!["LOAD64 1".to_string(), "LOAD64 3".to_string(), "MUL".to_string()]
    );
    // (- 5) is zero minus five
    assert_eq!(
        lines(b"(- 5)"),
        vec!["LOAD64 0".to_string(), "LOAD64 5".to_string(), "SUB".to_string()]
    );
}

#[test]
fn fold_chains_left_to_right() {
    assert_eq!(
        lines(b"(+ 1 2 3)"),
        vec![
            "LOAD64 1".to_string(),
            "LOAD64 2".to_string(),
            "ADD".to_string(),
            "LOAD64 3".to_string(),
            "ADD".to_string(),
        ]
    );
}

#[test]
fn all_pairs_with_too_few_operands_is_true() {
    // operands are still evaluated and discarded; the result is literal true
    assert_eq!(lines(b"(<)"), vec!["LOAD64 #t".to_string()]);
    assert_eq!(
        lines(b"(< 1)"),
        vec!["LOAD64 1".to_string(), "FORGET".to_string(), "LOAD64 #t".to_string()]
    );
}

#[test]
fn all_pairs_compares_adjacent_operands() {
    assert_eq!(
        lines(b"(< 1 2)"),
        vec![
            "LOAD64 1".to_string(),
            "LOAD64 2".to_string(),
            "GET 0".to_string(),
            "GET 1".to_string(),
            "LT".to_string(),
            "FALL".to_string(),
            "FALL".to_string(),
        ]
    );
    assert_eq!(
        lines(b"(< 1 2 3)"),
        vec![
            "LOAD64 1".to_string(),
            "LOAD64 2".to_string(),
            "LOAD64 3".to_string(),
            "GET 0".to_string(),
            "GET 1".to_string(),
            "LT".to_string(),
            "GET 1".to_string(),
            "GET 2".to_string(),
            "LT".to_string(),
            "AND".to_string(),
            "FALL".to_string(),
            "FALL".to_string(),
            "FALL".to_string(),
        ]
    );
}

#[test]
fn all_pairs_uses_each_operators_own_opcode() {
    assert_eq!(
        lines(b"(= 1 2)"),
        vec![
            "LOAD64 1".to_string(),
            "LOAD64 2".to_string(),
            "GET 0".to_string(),
            "GET 1".to_string(),
            "EQ".to_string(),
            "FALL".to_string(),
            "FALL".to_string(),
        ]
    );
    assert_eq!(
        lines(b"(eq? 1 2)"),
        vec![
            "LOAD64 1".to_string(),
            "LOAD64 2".to_string(),
            "GET 0".to_string(),
            "GET 1".to_string(),
            "EQP".to_string(),
            "FALL".to_string(),
            "FALL".to_string(),
        ]
    );
}

#[test]
fn if_without_alternative() {
    assert_eq!(
        lines(b"(if 1 2)"),
        vec![
            "LOAD64 1".to_string(),
            "LOAD64 #f".to_string(),
            "EQP".to_string(),
            "CJUMP 2".to_string(),
            "LOAD64 2".to_string(),
            "JUMP 1".to_string(),
            "LOAD64 UNSPECIFIED".to_string(),
        ]
    );
}

#[test]
fn if_jump_distances_count_instructions() {
    // the consequent here is three instructions plus its jump; the
    // alternative is one
    assert_eq!(
        lines(b"(if #t (+ 1 2) 9)"),
        vec![
            "LOAD64 #t".to_string(),
            "LOAD64 #f".to_string(),
            "EQP".to_string(),
            "CJUMP 4".to_string(),
            "LOAD64 1".to_string(),
            "LOAD64 2".to_string(),
            "ADD".to_string(),
            "JUMP 1".to_string(),
            "LOAD64 9".to_string(),
        ]
    );
}

#[test]
fn let_binds_stack_slots_in_order() {
    assert_eq!(
        lines(b"(let ((x 1)) x)"),
        vec!["LOAD64 1".to_string(), "GET 0".to_string(), "FALL".to_string()]
    );
    assert_eq!(
        lines(b"(let ((x 1) (y 2)) y)"),
        vec![
            "LOAD64 1".to_string(),
            "LOAD64 2".to_string(),
            "GET 1".to_string(),
            "FALL".to_string(),
            "FALL".to_string(),
        ]
    );
}

#[test]
fn let_shadowing_takes_effect_only_in_the_body() {
    // the inner x resolves to the inner slot; the initializer's x to the
    // outer one
    assert_eq!(
        lines(b"(let ((x 1)) (let ((x (add1 x))) x))"),
        vec![
            "LOAD64 1".to_string(),
            "GET 0".to_string(),
            "ADD1".to_string(),
            "GET 1".to_string(),
            "FALL".to_string(),
            "FALL".to_string(),
        ]
    );
}

#[test]
fn let_body_sequences_with_discards() {
    assert_eq!(
        lines(b"(let ((x 1)) 2 x)"),
        vec![
            "LOAD64 1".to_string(),
            "LOAD64 2".to_string(),
            "FORGET".to_string(),
            "GET 0".to_string(),
            "FALL".to_string(),
        ]
    );
}

#[test]
fn top_level_program_is_a_sequence() {
    assert_eq!(
        lines(b"1 2"),
        vec!["LOAD64 1".to_string(), "FORGET".to_string(), "LOAD64 2".to_string()]
    );
    assert_eq!(lines(b""), Vec::<String>::new());
    assert_eq!(lines(b"   \n\t "), Vec::<String>::new());
}

#[test]
fn comments_are_atmosphere() {
    assert_eq!(lines(b"; hello\n42"), vec!["LOAD64 42".to_string()]);
    assert_eq!(lines(b"#| block |# 42"), vec!["LOAD64 42".to_string()]);
    assert_eq!(lines(b"#| outer #| inner |# still |# 42"), vec!["LOAD64 42".to_string()]);
    assert_eq!(lines(b"#;(+ 1 2) 5"), vec!["LOAD64 5".to_string()]);
    assert_eq!(lines(b"#; 7 5"), vec!["LOAD64 5".to_string()]);
}

#[test]
fn all_pairs_fetches_resting_slots_at_depth() {
    // under one binding the operands rest at slots 1 and 2, and the fetches
    // name those slots
    assert_eq!(
        lines(b"(let ((x 1)) (< x 2))"),
        vec![
            "LOAD64 1".to_string(),
            "GET 0".to_string(),
            "LOAD64 2".to_string(),
            "GET 1".to_string(),
            "GET 2".to_string(),
            "LT".to_string(),
            "FALL".to_string(),
            "FALL".to_string(),
            "FALL".to_string(),
        ]
    );
}

#[test]
fn if_inside_let() {
    assert_eq!(
        lines(b"(let ((x 1)) (if x 2 3))"),
        vec![
            "LOAD64 1".to_string(),
            "GET 0".to_string(),
            "LOAD64 #f".to_string(),
            "EQP".to_string(),
            "CJUMP 2".to_string(),
            "LOAD64 2".to_string(),
            "JUMP 1".to_string(),
            "LOAD64 3".to_string(),
            "FALL".to_string(),
        ]
    );
}

#[test]
fn nested_if_jump_distances_compose() {
    // the outer consequent holds a whole inner conditional; its jump distance
    // counts every instruction of that inner lowering
    assert_eq!(
        lines(b"(if 1 (if 2 3) 4)"),
        vec![
            "LOAD64 1".to_string(),
            "LOAD64 #f".to_string(),
            "EQP".to_string(),
            "CJUMP 8".to_string(),
            "LOAD64 2".to_string(),
            "LOAD64 #f".to_string(),
            "EQP".to_string(),
            "CJUMP 2".to_string(),
            "LOAD64 3".to_string(),
            "JUMP 1".to_string(),
            "LOAD64 UNSPECIFIED".to_string(),
            "JUMP 1".to_string(),
            "LOAD64 4".to_string(),
        ]
    );
}
