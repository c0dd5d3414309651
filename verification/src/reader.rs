//! The reader: a backtracking recursive-descent parser from raw bytes to
//! expression trees. Each token production has a spec-level mirror over
//! `Seq<u8>`; the executable functions are proved to return exactly what the
//! mirror says.

use vstd::prelude::*;
use vstd::slice::{slice_subrange, slice_to_vec};
use vstd::arithmetic::div_mod::lemma_add_mod_noop;
use crate::error::CompileError;
use crate::ast::{deep_view_seq, Expression, ExprV};
use crate::error::ErrV;

verus! {

// ---------------------------------------------------------------------------
// Lexical predicates
// ---------------------------------------------------------------------------

/// ASCII whitespace: space, tab, line feed, form feed, carriage return.
pub open spec fn is_ws_byte(v: u8) -> bool {
    v == ' ' as u8 || v == '\t' as u8 || v == '\n' as u8 || v == 12 || v == '\r' as u8
}

/// A delimiter legally terminates a token: whitespace or a parenthesis
/// (end of input is handled by `delim_at`).
pub open spec fn spec_is_delimiter(v: u8) -> bool {
    is_ws_byte(v) || v == '(' as u8 || v == ')' as u8
}

/// The position `i` in `s` is a valid token end: past the input, or at a
/// delimiter byte.
pub open spec fn delim_at(s: Seq<u8>, i: int) -> bool {
    i >= s.len() || spec_is_delimiter(s[i])
}

pub open spec fn is_digit_byte(v: u8) -> bool {
    '0' as u8 <= v && v <= '9' as u8
}

/// Printable ASCII: everything from `!` to `~` (letters, digits, punctuation).
pub open spec fn spec_is_ascii_printable(v: u8) -> bool {
    0x21 <= v && v <= 0x7e
}

/// Symbols start with a letter or one of a fixed punctuation set.
pub open spec fn spec_is_symbol_start_char(v: u8) -> bool {
    ||| ('A' as u8 <= v && v <= 'Z' as u8)
    ||| ('a' as u8 <= v && v <= 'z' as u8)
    ||| v == '-' as u8 || v == '+' as u8 || v == '=' as u8 || v == '_' as u8 || v == '*' as u8 || v == '&' as u8
    ||| v == '^' as u8 || v == '%' as u8 || v == '$' as u8 || v == '!' as u8 || v == '~' as u8 || v == ':' as u8
    ||| v == '|' as u8 || v == '\\' as u8 || v == '?' as u8 || v == '/' as u8 || v == '<' as u8 || v == '>' as u8
}

/// Symbols continue with symbol-start characters or digits.
pub open spec fn spec_is_symbol_char(v: u8) -> bool {
    spec_is_symbol_start_char(v) || is_digit_byte(v)
}

#[verifier::when_used_as_spec(spec_is_delimiter)]
pub fn is_delimiter(v: u8) -> (r: bool)
    ensures
        r == spec_is_delimiter(v),
{
    v == ' ' as u8 || v == '\t' as u8 || v == '\n' as u8 || v == 12 || v == '\r' as u8 || v == '(' as u8 || v == ')' as u8
}

pub fn starts_with_delimiter(input: &[u8]) -> (r: bool)
    ensures
        r == delim_at(input@, 0),
{
    input.len() == 0 || is_delimiter(input[0])
}

#[verifier::when_used_as_spec(spec_is_ascii_printable)]
pub fn is_ascii_printable(v: u8) -> (r: bool)
    ensures
        r == spec_is_ascii_printable(v),
{
    0x21 <= v && v <= 0x7e
}

#[verifier::when_used_as_spec(spec_is_symbol_start_char)]
pub fn is_symbol_start_char(v: u8) -> (r: bool)
    ensures
        r == spec_is_symbol_start_char(v),
{
    ('A' as u8 <= v && v <= 'Z' as u8) || ('a' as u8 <= v && v <= 'z' as u8) || v == '-' as u8 || v == '+' as u8 || v == '=' as u8
        || v == '_' as u8 || v == '*' as u8 || v == '&' as u8 || v == '^' as u8 || v == '%' as u8 || v == '$' as u8 || v == '!' as u8
        || v == '~' as u8 || v == ':' as u8 || v == '|' as u8 || v == '\\' as u8 || v == '?' as u8 || v == '/' as u8 || v == '<' as u8
        || v == '>' as u8
}

#[verifier::when_used_as_spec(spec_is_symbol_char)]
pub fn is_symbol_char(v: u8) -> (r: bool)
    ensures
        r == spec_is_symbol_char(v),
{
    is_symbol_start_char(v) || ('0' as u8 <= v && v <= '9' as u8)
}

// ---------------------------------------------------------------------------
// Token runs and values
// ---------------------------------------------------------------------------

/// Length of the leading run of ASCII whitespace.
pub open spec fn ws_run_len(s: Seq<u8>) -> int
    decreases s.len(),
{
    if s.len() == 0 || !is_ws_byte(s[0]) {
        0
    } else {
        1 + ws_run_len(s.skip(1))
    }
}

/// Length of the leading run of decimal digits.
pub open spec fn digit_run_len(s: Seq<u8>) -> int
    decreases s.len(),
{
    if s.len() == 0 || !is_digit_byte(s[0]) {
        0
    } else {
        1 + digit_run_len(s.skip(1))
    }
}

/// Length of the leading run of symbol-continuation characters.
pub open spec fn symbol_char_run_len(s: Seq<u8>) -> int
    decreases s.len(),
{
    if s.len() == 0 || !spec_is_symbol_char(s[0]) {
        0
    } else {
        1 + symbol_char_run_len(s.skip(1))
    }
}

/// Length of a symbol token at the head of `s`: a symbol-start character
/// followed by symbol-continuation characters; zero if none.
pub open spec fn symbol_run_len(s: Seq<u8>) -> int {
    if s.len() == 0 || !spec_is_symbol_start_char(s[0]) {
        0
    } else {
        1 + symbol_char_run_len(s.skip(1))
    }
}

/// One past the largest unsigned 64-bit value.
pub open spec fn u64_mod() -> int {
    0x1_0000_0000_0000_0000
}

/// The value of a digit string read in base 10, wrapping as unsigned 64-bit
/// arithmetic does.
pub open spec fn dec_value(digits: Seq<u8>) -> int
    decreases digits.len(),
{
    if digits.len() == 0 {
        0
    } else {
        (dec_value(digits.drop_last()) * 10 + (digits.last() - '0' as u8)) % u64_mod()
    }
}

pub proof fn lemma_ws_run_le(s: Seq<u8>)
    ensures
        0 <= ws_run_len(s) <= s.len(),
    decreases s.len(),
{
    if s.len() > 0 && is_ws_byte(s[0]) {
        lemma_ws_run_le(s.skip(1));
    }
}

pub proof fn lemma_digit_run_le(s: Seq<u8>)
    ensures
        0 <= digit_run_len(s) <= s.len(),
    decreases s.len(),
{
    if s.len() > 0 && is_digit_byte(s[0]) {
        lemma_digit_run_le(s.skip(1));
    }
}

pub proof fn lemma_symbol_char_run_le(s: Seq<u8>)
    ensures
        0 <= symbol_char_run_len(s) <= s.len(),
    decreases s.len(),
{
    if s.len() > 0 && spec_is_symbol_char(s[0]) {
        lemma_symbol_char_run_le(s.skip(1));
    }
}

pub proof fn lemma_symbol_run_le(s: Seq<u8>)
    ensures
        0 <= symbol_run_len(s) <= s.len(),
{
    if s.len() > 0 && spec_is_symbol_start_char(s[0]) {
        lemma_symbol_char_run_le(s.skip(1));
    }
}

// ---------------------------------------------------------------------------
// Token productions
// ---------------------------------------------------------------------------

/// Whether `s` starts with `p`.
pub open spec fn starts_with(s: Seq<u8>, p: Seq<u8>) -> bool {
    s.len() >= p.len() && s.take(p.len() as int) == p
}

/// An integer literal: one or more digits followed by a delimiter, read in
/// base 10 with unsigned 64-bit wrapping.
pub open spec fn int_token(s: Seq<u8>) -> Option<(u64, Seq<u8>)> {
    let k = digit_run_len(s);
    if k > 0 && delim_at(s, k) {
        Some((dec_value(s.take(k)) as u64, s.skip(k)))
    } else {
        None
    }
}

/// A boolean literal: `#t`, `#T`, `#f` or `#F` followed by a delimiter.
pub open spec fn bool_token(s: Seq<u8>) -> Option<(bool, Seq<u8>)> {
    if s.len() >= 2 && s[0] == '#' as u8 && (s[1] == 't' as u8 || s[1] == 'T' as u8) && delim_at(
        s,
        2,
    ) {
        Some((true, s.skip(2)))
    } else if s.len() >= 2 && s[0] == '#' as u8 && (s[1] == 'f' as u8 || s[1] == 'F' as u8)
        && delim_at(s, 2) {
        Some((false, s.skip(2)))
    } else {
        None
    }
}

/// A character literal: `#\` then one printable ASCII character, followed by
/// a delimiter.
pub open spec fn char_token(s: Seq<u8>) -> Option<(u8, Seq<u8>)> {
    if s.len() >= 3 && s[0] == '#' as u8 && s[1] == '\\' as u8 && spec_is_ascii_printable(s[2])
        && delim_at(s, 3) {
        Some((s[2], s.skip(3)))
    } else {
        None
    }
}

/// The null literal: the exact three bytes `'()`.
pub open spec fn null_token(s: Seq<u8>) -> Option<Seq<u8>> {
    if s.len() >= 3 && s[0] == '\'' as u8 && s[1] == '(' as u8 && s[2] == ')' as u8 {
        Some(s.skip(3))
    } else {
        None
    }
}

/// A symbol token followed by a delimiter.
pub open spec fn symbol_token(s: Seq<u8>) -> Option<(Seq<u8>, Seq<u8>)> {
    let k = symbol_run_len(s);
    if k > 0 && delim_at(s, k) {
        Some((s.take(k), s.skip(k)))
    } else {
        None
    }
}

/// The character named by a string escape introduced with a backslash; a bare
/// line break after the backslash continues the line as a newline character.
pub open spec fn escape_char(b: u8) -> Option<u8> {
    if b == '\\' as u8 {
        Some('\\' as u8)
    } else if b == 'n' as u8 {
        Some('\n' as u8)
    } else if b == 't' as u8 {
        Some('\t' as u8)
    } else if b == '"' as u8 {
        Some('"' as u8)
    } else if b == '\n' as u8 {
        Some('\n' as u8)
    } else {
        None
    }
}

/// The body of a string literal, scanned after the opening quote: the decoded
/// content and the byte count consumed through the closing quote. `Ok(None)`
/// is an unterminated string (the production backtracks); an unrecognized
/// escape is a hard failure.
pub open spec fn string_body(s: Seq<u8>) -> Result<Option<(Seq<u8>, int)>, ErrV>
    decreases s.len(),
{
    if s.len() == 0 {
        Ok(None)
    } else if s[0] == '"' as u8 {
        Ok(Some((Seq::empty(), 1)))
    } else if s[0] == '\\' as u8 {
        if s.len() < 2 {
            Ok(None)
        } else {
            match escape_char(s[1]) {
                None => Err(ErrV::BadStringEscape(s[1])),
                Some(ch) => match string_body(s.skip(2)) {
                    Ok(Some((content, k))) => Ok(Some((seq![ch] + content, 2 + k))),
                    Ok(None) => Ok(None),
                    Err(e) => Err(e),
                },
            }
        }
    } else {
        match string_body(s.skip(1)) {
            Ok(Some((content, k))) => Ok(Some((seq![s[0]] + content, 1 + k))),
            Ok(None) => Ok(None),
            Err(e) => Err(e),
        }
    }
}

/// A string literal: quote-delimited, with escapes decoded.
pub open spec fn string_token(s: Seq<u8>) -> Result<Option<(Seq<u8>, Seq<u8>)>, ErrV> {
    if s.len() >= 1 && s[0] == '"' as u8 {
        match string_body(s.skip(1)) {
            Ok(Some((content, k))) => Ok(Some((content, s.skip(1 + k)))),
            Ok(None) => Ok(None),
            Err(e) => Err(e),
        }
    } else {
        Ok(None)
    }
}

pub proof fn lemma_string_body_len(s: Seq<u8>)
    ensures
        string_body(s) matches Ok(Some((content, k))) ==> 1 <= k <= s.len(),
    decreases s.len(),
{
    if s.len() > 0 && s[0] != '"' as u8 {
        if s[0] == '\\' as u8 {
            if s.len() >= 2 {
                lemma_string_body_len(s.skip(2));
            }
        } else {
            lemma_string_body_len(s.skip(1));
        }
    }
}

// ---------------------------------------------------------------------------
// Comments
// ---------------------------------------------------------------------------

/// Bytes consumed by a line comment starting at the `;`: everything through
/// the first line break, or the rest of the input.
pub open spec fn line_comment_len(s: Seq<u8>) -> int
    decreases s.len(),
{
    if s.len() == 0 {
        0
    } else if s[0] == '\n' as u8 {
        1
    } else {
        1 + line_comment_len(s.skip(1))
    }
}

pub proof fn lemma_line_comment_len(s: Seq<u8>)
    ensures
        0 <= line_comment_len(s) <= s.len(),
        s.len() > 0 ==> 1 <= line_comment_len(s),
    decreases s.len(),
{
    if s.len() > 0 && s[0] != '\n' as u8 {
        lemma_line_comment_len(s.skip(1));
    }
}

/// Bytes consumed until `depth` nested block comments all close, scanning
/// after an opening `#|`; `None` if the input ends first.
pub open spec fn block_comment_end(s: Seq<u8>, depth: int) -> Option<int>
    decreases s.len(),
{
    if depth <= 0 {
        Some(0)
    } else if s.len() < 2 {
        None
    } else if s[0] == '|' as u8 && s[1] == '#' as u8 {
        match block_comment_end(s.skip(2), depth - 1) {
            Some(k) => Some(2 + k),
            None => None,
        }
    } else if s[0] == '#' as u8 && s[1] == '|' as u8 {
        match block_comment_end(s.skip(2), depth + 1) {
            Some(k) => Some(2 + k),
            None => None,
        }
    } else {
        match block_comment_end(s.skip(1), depth) {
            Some(k) => Some(1 + k),
            None => None,
        }
    }
}

pub proof fn lemma_block_comment_end(s: Seq<u8>, depth: int)
    ensures
        block_comment_end(s, depth) matches Some(k) ==> 0 <= k <= s.len(),
    decreases s.len(),
{
    if depth > 0 && s.len() >= 2 {
        if s[0] == '|' as u8 && s[1] == '#' as u8 {
            lemma_block_comment_end(s.skip(2), depth - 1);
        } else if s[0] == '#' as u8 && s[1] == '|' as u8 {
            lemma_block_comment_end(s.skip(2), depth + 1);
        } else {
            lemma_block_comment_end(s.skip(1), depth);
        }
    }
}

// ---------------------------------------------------------------------------
// Atmosphere and expressions
// ---------------------------------------------------------------------------

/// Skips whitespace and all three comment forms: line comments, nested block
/// comments, and datum comments. An unterminated block comment, or a datum
/// comment with no expression after it, consumes nothing and the caller's
/// production fails on the leftover bytes. A hard failure inside a commented
/// datum aborts the compilation.
pub open spec fn atmosphere_token(s: Seq<u8>) -> Result<Seq<u8>, ErrV>
    decreases s.len(), 3int,
    via atmosphere_token_decreases
{
    if s.len() == 0 {
        Ok(s)
    } else if is_ws_byte(s[0]) {
        atmosphere_token(s.skip(1))
    } else if s[0] == ';' as u8 {
        atmosphere_token(s.skip(line_comment_len(s)))
    } else if s.len() >= 2 && s[0] == '#' as u8 && s[1] == '|' as u8 {
        match block_comment_end(s.skip(2), 1) {
            None => Ok(s),
            Some(k) => atmosphere_token(s.skip(2 + k)),
        }
    } else if s.len() >= 2 && s[0] == '#' as u8 && s[1] == ';' as u8 {
        match atmosphere_token(s.skip(2)) {
            Err(e) => Err(e),
            Ok(t) => if t.len() < s.len() {
                match expr_token(t) {
                    Err(e) => Err(e),
                    Ok(None) => Ok(s),
                    Ok(Some((discarded, rest))) => if rest.len() < s.len() {
                        atmosphere_token(rest)
                    } else {
                        // the reader always consumes input on a match; never taken
                        Ok(rest)
                    },
                }
            } else {
                // the skipper never grows its input; never taken
                Ok(s)
            },
        }
    } else {
        Ok(s)
    }
}

#[via_fn]
proof fn atmosphere_token_decreases(s: Seq<u8>) {
    lemma_line_comment_len(s);
    if s.len() >= 2 {
        lemma_block_comment_end(s.skip(2), 1);
    }
}

/// One expression, by the first production that matches: integer, boolean,
/// character, null, symbol, string, form. `Ok(None)` means no production
/// matched at this position.
pub open spec fn expr_token(s: Seq<u8>) -> Result<Option<(ExprV, Seq<u8>)>, ErrV>
    decreases s.len(), 1int,
{
    match int_token(s) {
        Some((v, rest)) => Ok(Some((ExprV::Int(v), rest))),
        None => match bool_token(s) {
            Some((v, rest)) => Ok(Some((ExprV::Bool(v), rest))),
            None => match char_token(s) {
                Some((v, rest)) => Ok(Some((ExprV::Char(v), rest))),
                None => match null_token(s) {
                    Some(rest) => Ok(Some((ExprV::Null, rest))),
                    None => match symbol_token(s) {
                        Some((name, rest)) => Ok(Some((ExprV::Symbol(name), rest))),
                        None => match string_token(s) {
                            Err(e) => Err(e),
                            Ok(Some((content, rest))) => Ok(Some((ExprV::Str(content), rest))),
                            Ok(None) => match form_token(s) {
                                Err(e) => Err(e),
                                Ok(Some((args, rest))) => Ok(Some((ExprV::Form(args), rest))),
                                Ok(None) => Ok(None),
                            },
                        },
                    },
                },
            },
        },
    }
}

/// As many expressions as match, greedily, atmosphere skipped after each;
/// returns them with the remainder where no production matched.
pub open spec fn exprs_token(s: Seq<u8>) -> Result<(Seq<ExprV>, Seq<u8>), ErrV>
    decreases s.len(), 2int,
{
    match expr_token(s) {
        Err(e) => Err(e),
        Ok(None) => Ok((Seq::empty(), s)),
        Ok(Some((e, rest))) => if rest.len() < s.len() {
            match atmosphere_token(rest) {
                Err(err) => Err(err),
                Ok(rest2) => if rest2.len() <= rest.len() {
                    match exprs_token(rest2) {
                        Err(err) => Err(err),
                        Ok((es, fin)) => Ok((seq![e] + es, fin)),
                    }
                } else {
                    // the skipper never grows its input; never taken
                    Ok((seq![e], rest2))
                },
            }
        } else {
            // the reader always consumes input on a match; never taken
            Ok((seq![e], rest))
        },
    }
}

/// A form: `(`, expressions with atmosphere around them, `)`. A missing
/// closing parenthesis is a backtrack, not an error.
pub open spec fn form_token(s: Seq<u8>) -> Result<Option<(Seq<ExprV>, Seq<u8>)>, ErrV>
    decreases s.len(), 0int,
{
    if s.len() >= 1 && s[0] == '(' as u8 {
        match atmosphere_token(s.skip(1)) {
            Err(e) => Err(e),
            Ok(t) => if t.len() < s.len() {
                match exprs_token(t) {
                    Err(e) => Err(e),
                    Ok((args, u)) => if u.len() < s.len() {
                        match atmosphere_token(u) {
                            Err(e) => Err(e),
                            Ok(w) => if w.len() >= 1 && w[0] == ')' as u8 {
                                Ok(Some((args, w.skip(1))))
                            } else {
                                Ok(None)
                            },
                        }
                    } else {
                        // expressions never grow the input; never taken
                        Ok(None)
                    },
                }
            } else {
                // the skipper never grows its input; never taken
                Ok(None)
            },
        }
    } else {
        Ok(None)
    }
}

// ---------------------------------------------------------------------------
// Progress: the reader consumes input
// ---------------------------------------------------------------------------

/// The atmosphere skipper never grows its input.
pub proof fn lemma_atmosphere_progress(s: Seq<u8>)
    ensures
        atmosphere_token(s) matches Ok(t) ==> t.len() <= s.len(),
    decreases s.len(), 3int,
{
    if s.len() == 0 {
    } else if is_ws_byte(s[0]) {
        lemma_atmosphere_progress(s.skip(1));
    } else if s[0] == ';' as u8 {
        lemma_line_comment_len(s);
        lemma_atmosphere_progress(s.skip(line_comment_len(s)));
    } else if s.len() >= 2 && s[0] == '#' as u8 && s[1] == '|' as u8 {
        lemma_block_comment_end(s.skip(2), 1);
        match block_comment_end(s.skip(2), 1) {
            None => {},
            Some(k) => {
                lemma_atmosphere_progress(s.skip(2 + k));
            },
        }
    } else if s.len() >= 2 && s[0] == '#' as u8 && s[1] == ';' as u8 {
        lemma_atmosphere_progress(s.skip(2));
        match atmosphere_token(s.skip(2)) {
            Err(e) => {},
            Ok(t) => {
                assert(t.len() < s.len());
                lemma_expr_progress(t);
                match expr_token(t) {
                    Err(e) => {},
                    Ok(None) => {},
                    Ok(Some((discarded, rest))) => {
                        assert(rest.len() < s.len());
                        lemma_atmosphere_progress(rest);
                    },
                }
            },
        }
    } else {
    }
}

/// A matched expression consumes at least one byte.
pub proof fn lemma_expr_progress(s: Seq<u8>)
    ensures
        expr_token(s) matches Ok(Some((e, rest))) ==> rest.len() < s.len(),
    decreases s.len(), 1int,
{
    lemma_digit_run_le(s);
    lemma_symbol_run_le(s);
    lemma_string_body_len(s.skip(1));
    lemma_form_progress(s);
}

/// Reading a run of expressions never grows the input.
pub proof fn lemma_exprs_progress(s: Seq<u8>)
    ensures
        exprs_token(s) matches Ok((es, fin)) ==> fin.len() <= s.len(),
    decreases s.len(), 2int,
{
    lemma_expr_progress(s);
    match expr_token(s) {
        Err(e) => {},
        Ok(None) => {},
        Ok(Some((e, rest))) => {
            lemma_atmosphere_progress(rest);
            match atmosphere_token(rest) {
                Err(err) => {},
                Ok(rest2) => {
                    lemma_exprs_progress(rest2);
                },
            }
        },
    }
}

/// A matched form consumes at least one byte.
pub proof fn lemma_form_progress(s: Seq<u8>)
    ensures
        form_token(s) matches Ok(Some((args, rest))) ==> rest.len() < s.len(),
    decreases s.len(), 0int,
{
    if s.len() >= 1 && s[0] == '(' as u8 {
        lemma_atmosphere_progress(s.skip(1));
        match atmosphere_token(s.skip(1)) {
            Err(e) => {},
            Ok(t) => {
                if t.len() < s.len() {
                    lemma_exprs_progress(t);
                    match exprs_token(t) {
                        Err(e) => {},
                        Ok((args, u)) => {
                            if u.len() < s.len() {
                                lemma_atmosphere_progress(u);
                            }
                        },
                    }
                }
            },
        }
    }
}

// ---------------------------------------------------------------------------
// Run characterizations: a scan that stops at the first non-member found the
// run length
// ---------------------------------------------------------------------------

proof fn lemma_digit_run_char(s: Seq<u8>, i: int)
    requires
        0 <= i <= s.len(),
        forall|j: int| 0 <= j < i ==> is_digit_byte(s[j]),
        i == s.len() || !is_digit_byte(s[i]),
    ensures
        digit_run_len(s) == i,
    decreases i,
{
    if i > 0 {
        lemma_digit_run_char(s.skip(1), i - 1);
    }
}

proof fn lemma_symbol_char_run_char(s: Seq<u8>, i: int)
    requires
        0 <= i <= s.len(),
        forall|j: int| 0 <= j < i ==> spec_is_symbol_char(s[j]),
        i == s.len() || !spec_is_symbol_char(s[i]),
    ensures
        symbol_char_run_len(s) == i,
    decreases i,
{
    if i > 0 {
        lemma_symbol_char_run_char(s.skip(1), i - 1);
    }
}

proof fn lemma_line_comment_char(s: Seq<u8>, i: int)
    requires
        0 <= i <= s.len(),
        forall|j: int| 0 <= j < i ==> s[j] != '\n' as u8,
        i == s.len() || s[i] == '\n' as u8,
    ensures
        line_comment_len(s) == if i < s.len() {
            i + 1
        } else {
            i
        },
    decreases i,
{
    if i > 0 {
        lemma_line_comment_char(s.skip(1), i - 1);
    }
}

// ---------------------------------------------------------------------------
// The executable reader
// ---------------------------------------------------------------------------

/// Consumes `pattern` off the front of `input`, or fails.
pub fn consume_bytes<'a>(input: &'a [u8], pattern: &[u8]) -> (r: Option<&'a [u8]>)
    ensures
        match r {
            Some(rest) => starts_with(input@, pattern@) && rest@ == input@.skip(
                pattern@.len() as int,
            ),
            None => !starts_with(input@, pattern@),
        },
{
    if input.len() < pattern.len() {
        return None;
    }
    let mut i: usize = 0;
    while i < pattern.len()
        invariant
            0 <= i <= pattern@.len() <= input@.len(),
            forall|j: int| 0 <= j < i ==> input@[j] == pattern@[j],
        decreases pattern@.len() - i,
    {
        if input[i] != pattern[i] {
            proof {
                assert(input@.take(pattern@.len() as int)[i as int] != pattern@[i as int]);
            }
            return None;
        }
        i = i + 1;
    }
    proof {
        assert(input@.take(pattern@.len() as int) =~= pattern@);
    }
    Some(slice_subrange(input, pattern.len(), input.len()))
}

/// An integer literal: a nonempty digit run followed by a delimiter,
/// accumulated base 10 with unsigned 64-bit wrapping.
pub fn consume_int(input: &[u8]) -> (r: Option<(u64, &[u8])>)
    ensures
        match r {
            Some((v, rest)) => int_token(input@) == Some((v, rest@)),
            None => int_token(input@) is None,
        },
{
    let ghost s = input@;
    let mut k: usize = 0;
    let mut acc: u64 = 0;
    while k < input.len() && '0' as u8 <= input[k] && input[k] <= '9' as u8
        invariant
            0 <= k <= s.len(),
            s == input@,
            forall|j: int| 0 <= j < k ==> is_digit_byte(s[j]),
            acc == dec_value(s.take(k as int)),
        decreases s.len() - k,
    {
        let d = input[k] - '0' as u8;
        let ghost acc0 = acc;
        acc = acc.wrapping_mul(10).wrapping_add(d as u64);
        proof {
            lemma_add_mod_noop(acc0 as int * 10, d as int, u64_mod());
            assert(acc == (acc0 as int * 10 + d) % u64_mod());
            assert(s.take(k + 1).drop_last() =~= s.take(k as int));
            assert(s.take(k + 1).last() == s[k as int]);
        }
        k = k + 1;
    }
    proof {
        lemma_digit_run_char(s, k as int);
    }
    if k == 0 {
        return None;
    }
    let rest = slice_subrange(input, k, input.len());
    if starts_with_delimiter(rest) {
        proof {
            assert(rest@ == s.skip(k as int));
            assert(delim_at(s, k as int) == delim_at(rest@, 0));
        }
        Some((acc, rest))
    } else {
        proof {
            assert(delim_at(s, k as int) == delim_at(rest@, 0));
        }
        None
    }
}

/// A boolean literal: `#t`, `#T`, `#f` or `#F` followed by a delimiter.
pub fn consume_bool(input: &[u8]) -> (r: Option<(bool, &[u8])>)
    ensures
        match r {
            Some((v, rest)) => bool_token(input@) == Some((v, rest@)),
            None => bool_token(input@) is None,
        },
{
    if input.len() < 2 || input[0] != '#' as u8 {
        return None;
    }
    let c = input[1];
    let value = if c == 't' as u8 || c == 'T' as u8 {
        true
    } else if c == 'f' as u8 || c == 'F' as u8 {
        false
    } else {
        return None;
    };
    let rest = slice_subrange(input, 2, input.len());
    if starts_with_delimiter(rest) {
        proof {
            assert(delim_at(input@, 2) == delim_at(rest@, 0));
        }
        Some((value, rest))
    } else {
        proof {
            assert(delim_at(input@, 2) == delim_at(rest@, 0));
        }
        None
    }
}

/// A character literal: `#\` then one printable character, then a delimiter.
pub fn consume_character<'a>(input: &'a [u8]) -> (r: Option<(u8, &'a [u8])>)
    ensures
        match r {
            Some((c, rest)) => char_token(input@) == Some((c, rest@)),
            None => char_token(input@) is None,
        },
{
    let pat: Vec<u8> = vec!['#' as u8, '\\' as u8];
    proof {
        assert(pat@ =~= seq!['#' as u8, '\\' as u8]);
    }
    match consume_bytes(input, pat.as_slice()) {
        Some(tail) => {
            proof {
                assert(input@.take(2)[0] == input@[0] && input@.take(2)[1] == input@[1]);
            }
            if tail.len() > 0 && is_ascii_printable(tail[0]) {
                let rest = slice_subrange(tail, 1, tail.len());
                proof {
                    assert(tail@[0] == input@[2]);
                    assert(rest@ =~= input@.skip(3));
                    assert(delim_at(input@, 3) == delim_at(rest@, 0));
                }
                if starts_with_delimiter(rest) {
                    Some((tail[0], rest))
                } else {
                    None
                }
            } else {
                proof {
                    if tail@.len() > 0 {
                        assert(tail@[0] == input@[2]);
                    }
                }
                None
            }
        },
        None => {
            proof {
                if input@.len() >= 3 && input@[0] == '#' as u8 && input@[1] == '\\' as u8 {
                    assert(input@.take(2) =~= pat@);
                }
            }
            None
        },
    }
}

/// The null literal `'()`.
pub fn consume_null<'a>(input: &'a [u8]) -> (r: Option<&'a [u8]>)
    ensures
        match r {
            Some(rest) => null_token(input@) == Some(rest@),
            None => null_token(input@) is None,
        },
{
    let pat: Vec<u8> = vec!['\'' as u8, '(' as u8, ')' as u8];
    proof {
        assert(pat@ =~= seq!['\'' as u8, '(' as u8, ')' as u8]);
    }
    match consume_bytes(input, pat.as_slice()) {
        Some(rest) => {
            proof {
                assert(input@.take(3)[0] == input@[0] && input@.take(3)[1] == input@[1]
                    && input@.take(3)[2] == input@[2]);
            }
            Some(rest)
        },
        None => {
            proof {
                if input@.len() >= 3 && input@[0] == '\'' as u8 && input@[1] == '(' as u8
                    && input@[2] == ')' as u8 {
                    assert(input@.take(3) =~= pat@);
                }
            }
            None
        },
    }
}

/// A symbol: a symbol-start character, symbol-continuation characters, then a
/// delimiter.
pub fn consume_symbol<'a>(input: &'a [u8]) -> (r: Option<(&'a [u8], &'a [u8])>)
    ensures
        match r {
            Some((sym, rest)) => symbol_token(input@) == Some((sym@, rest@)),
            None => symbol_token(input@) is None,
        },
{
    let ghost s = input@;
    if input.len() == 0 || !is_symbol_start_char(input[0]) {
        return None;
    }
    let mut k: usize = 1;
    while k < input.len() && is_symbol_char(input[k])
        invariant
            1 <= k <= s.len(),
            s == input@,
            spec_is_symbol_start_char(s[0]),
            forall|j: int| 1 <= j < k ==> spec_is_symbol_char(s[j]),
        decreases s.len() - k,
    {
        k = k + 1;
    }
    proof {
        assert(forall|j: int| 0 <= j < k - 1 ==> spec_is_symbol_char(s.skip(1)[j]));
        lemma_symbol_char_run_char(s.skip(1), k - 1);
        assert(symbol_run_len(s) == k);
    }
    let sym = slice_subrange(input, 0, k);
    let rest = slice_subrange(input, k, input.len());
    proof {
        assert(sym@ =~= s.take(k as int));
        assert(delim_at(s, k as int) == delim_at(rest@, 0));
    }
    if starts_with_delimiter(rest) {
        Some((sym, rest))
    } else {
        None
    }
}

/// A string literal: quote-delimited, escapes decoded; an unterminated string
/// backtracks, an unrecognized escape aborts.
pub fn consume_string<'a>(input: &'a [u8]) -> (r: Result<Option<(Vec<u8>, &'a [u8])>, CompileError>)
    ensures
        match r {
            Ok(Some((content, rest))) => string_token(input@) == Ok::<
                Option<(Seq<u8>, Seq<u8>)>,
                ErrV,
            >(Some((content@, rest@))),
            Ok(None) => string_token(input@) == Ok::<Option<(Seq<u8>, Seq<u8>)>, ErrV>(None),
            Err(e) => string_token(input@) == Err::<Option<(Seq<u8>, Seq<u8>)>, ErrV>(e@),
        },
{
    let ghost s = input@;
    if input.len() == 0 || input[0] != '"' as u8 {
        return Ok(None);
    }
    let mut content: Vec<u8> = Vec::new();
    let mut pos: usize = 1;
    proof {
        match string_body(s.skip(1)) {
            Ok(Some((tail, k2))) => {
                assert(content@ + tail =~= tail);
            },
            Ok(None) => {},
            Err(e) => {},
        }
    }
    loop
        invariant
            1 <= pos <= s.len(),
            s == input@,
            input@.len() >= 1 && input@[0] == '"' as u8,
            string_token(s) == (match string_body(s.skip(pos as int)) {
                Ok(Some((tail, k2))) => Ok::<Option<(Seq<u8>, Seq<u8>)>, ErrV>(
                    Some((content@ + tail, s.skip(pos + k2))),
                ),
                Ok(None) => Ok(None),
                Err(e) => Err(e),
            }),
        decreases s.len() - pos,
    {
        let ghost tail_s = s.skip(pos as int);
        if pos >= input.len() {
            // end of input before the closing quote: unterminated, no match
            return Ok(None);
        }
        let c = input[pos];
        proof {
            assert(tail_s[0] == c);
        }
        if c == '"' as u8 {
            let rest = slice_subrange(input, pos + 1, input.len());
            proof {
                assert(string_body(tail_s) == Ok::<Option<(Seq<u8>, int)>, ErrV>(
                    Some((Seq::empty(), 1)),
                ));
                assert(content@ + Seq::<u8>::empty() =~= content@);
                assert(rest@ =~= s.skip(pos + 1));
            }
            return Ok(Some((content, rest)));
        }
        if c == '\\' as u8 {
            if pos + 1 >= input.len() {
                proof {
                    assert(tail_s.len() < 2);
                }
                return Ok(None);
            }
            let e = input[pos + 1];
            proof {
                assert(tail_s.len() >= 2 && tail_s[1] == e);
            }
            let decoded: u8 = if e == '\\' as u8 {
                '\\' as u8
            } else if e == 'n' as u8 {
                '\n' as u8
            } else if e == 't' as u8 {
                '\t' as u8
            } else if e == '"' as u8 {
                '"' as u8
            } else if e == '\n' as u8 {
                '\n' as u8
            } else {
                proof {
                    assert(escape_char(e) is None);
                }
                return Err(CompileError::BadStringEscape(e));
            };
            proof {
                assert(escape_char(e) == Some(decoded));
                assert(tail_s.skip(2) =~= s.skip(pos + 2));
                match string_body(s.skip(pos + 2)) {
                    Ok(Some((ct, k))) => {
                        assert(string_body(tail_s) == Ok::<Option<(Seq<u8>, int)>, ErrV>(
                            Some((seq![decoded] + ct, 2 + k)),
                        ));
                        assert(content@ + (seq![decoded] + ct) =~= content@.push(decoded) + ct);
                    },
                    Ok(None) => {},
                    Err(e2) => {},
                }
            }
            content.push(decoded);
            pos = pos + 2;
        } else {
            proof {
                assert(tail_s.skip(1) =~= s.skip(pos + 1));
                match string_body(s.skip(pos + 1)) {
                    Ok(Some((ct, k))) => {
                        assert(string_body(tail_s) == Ok::<Option<(Seq<u8>, int)>, ErrV>(
                            Some((seq![c] + ct, 1 + k)),
                        ));
                        assert(content@ + (seq![c] + ct) =~= content@.push(c) + ct);
                    },
                    Ok(None) => {},
                    Err(e2) => {},
                }
            }
            content.push(c);
            pos = pos + 1;
        }
    }
}

/// Skips leading ASCII whitespace, nothing else.
pub fn consume_whitespace<'a>(input: &'a [u8]) -> (r: &'a [u8])
    ensures
        r@ == input@.skip(ws_run_len(input@)),
    decreases input@.len(),
{
    let ws = input.len() > 0 && {
        let c = input[0];
        c == ' ' as u8 || c == '\t' as u8 || c == '\n' as u8 || c == 12 || c == '\r' as u8
    };
    if !ws {
        proof {
            assert(input@.skip(0) =~= input@);
        }
        input
    } else {
        let r = consume_whitespace(slice_subrange(input, 1, input.len()));
        proof {
            lemma_ws_run_le(input@.skip(1));
            assert(input@.skip(1).skip(ws_run_len(input@.skip(1))) =~= input@.skip(
                1 + ws_run_len(input@.skip(1))));
        }
        r
    }
}

/// Skips whitespace and all three comment forms.
#[verifier::loop_isolation(false)]
pub fn consume_atmosphere<'a>(input: &'a [u8]) -> (r: Result<&'a [u8], CompileError>)
    ensures
        match r {
            Ok(rest) => atmosphere_token(input@) == Ok::<Seq<u8>, ErrV>(rest@),
            Err(e) => atmosphere_token(input@) == Err::<Seq<u8>, ErrV>(e@),
        },
    decreases input@.len(), 3int,
{
    let ghost s = input@;
    if input.len() == 0 {
        return Ok(input);
    }
    let c = input[0];
    if c == ' ' as u8 || c == '\t' as u8 || c == '\n' as u8 || c == 12 || c == '\r' as u8 {
        return consume_atmosphere(slice_subrange(input, 1, input.len()));
    }
    if c == ';' as u8 {
        let mut i: usize = 0;
        while i < input.len() && input[i] != '\n' as u8
            invariant
                0 <= i <= s.len(),
                s == input@,
                forall|j: int| 0 <= j < i ==> s[j] != '\n' as u8,
            decreases s.len() - i,
        {
            i = i + 1;
        }
        proof {
            lemma_line_comment_char(s, i as int);
        }
        let k = if i < input.len() {
            i + 1
        } else {
            i
        };
        return consume_atmosphere(slice_subrange(input, k, input.len()));
    }
    if input.len() >= 2 && c == '#' as u8 && input[1] == '|' as u8 {
        let mut pos: usize = 2;
        let mut depth: usize = 1;
        loop
            invariant
                2 <= pos <= s.len(),
                s.len() >= 2,
                s == input@,
                depth >= 1,
                depth <= pos,
                (match block_comment_end(s.skip(pos as int), depth as int) {
                    Some(k) => block_comment_end(s.skip(2), 1) == Some(pos - 2 + k),
                    None => block_comment_end(s.skip(2), 1) is None,
                }),
            decreases s.len() - pos,
        {
            let ghost tail_s = s.skip(pos as int);
            if pos >= input.len() - 1 {
                // input ends inside the comment: unterminated, consume nothing
                proof {
                    assert(tail_s.len() < 2);
                    assert(block_comment_end(s.skip(2), 1) is None);
                }
                return Ok(input);
            }
            let a = input[pos];
            let b = input[pos + 1];
            proof {
                assert(tail_s.len() >= 2 && tail_s[0] == a && tail_s[1] == b);
                assert(tail_s.skip(2) =~= s.skip(pos + 2));
                assert(tail_s.skip(1) =~= s.skip(pos + 1));
            }
            if a == '|' as u8 && b == '#' as u8 {
                if depth == 1 {
                    proof {
                        assert(block_comment_end(s.skip(pos + 2), 0) == Some(0int));
                        assert(block_comment_end(s.skip(2), 1) == Some(pos as int));
                    }
                    return consume_atmosphere(slice_subrange(input, pos + 2, input.len()));
                }
                depth = depth - 1;
                pos = pos + 2;
            } else if a == '#' as u8 && b == '|' as u8 {
                depth = depth + 1;
                pos = pos + 2;
            } else {
                pos = pos + 1;
            }
        }
    }
    if input.len() >= 2 && c == '#' as u8 && input[1] == ';' as u8 {
        let after = slice_subrange(input, 2, input.len());
        match consume_atmosphere(after) {
            Err(e) => return Err(e),
            Ok(t) => {
                proof {
                    lemma_atmosphere_progress(s.skip(2));
                    assert(t@.len() < s.len());
                }
                match consume_expression(t) {
                    Err(e) => return Err(e),
                    Ok(None) => return Ok(input),
                    Ok(Some((_discarded, rest))) => {
                        proof {
                            lemma_expr_progress(t@);
                            assert(rest@.len() < s.len());
                        }
                        return consume_atmosphere(rest);
                    },
                }
            },
        }
    }
    Ok(input)
}

/// One expression, by the first production that matches.
pub fn consume_expression<'a>(input: &'a [u8]) -> (r: Result<
    Option<(Expression, &'a [u8])>,
    CompileError,
>)
    ensures
        match r {
            Ok(Some((e, rest))) => expr_token(input@) == Ok::<
                Option<(ExprV, Seq<u8>)>,
                ErrV,
            >(Some((e.deep_view(), rest@))),
            Ok(None) => expr_token(input@) == Ok::<Option<(ExprV, Seq<u8>)>, ErrV>(None),
            Err(e) => expr_token(input@) == Err::<Option<(ExprV, Seq<u8>)>, ErrV>(e@),
        },
    decreases input@.len(), 1int,
{
    if let Some((v, rest)) = consume_int(input) {
        return Ok(Some((Expression::Int(v), rest)));
    }
    if let Some((v, rest)) = consume_bool(input) {
        return Ok(Some((Expression::Bool(v), rest)));
    }
    if let Some((v, rest)) = consume_character(input) {
        return Ok(Some((Expression::Char(v), rest)));
    }
    if let Some(rest) = consume_null(input) {
        return Ok(Some((Expression::Null, rest)));
    }
    if let Some((sym, rest)) = consume_symbol(input) {
        return Ok(Some((Expression::Symbol(slice_to_vec(sym)), rest)));
    }
    match consume_string(input) {
        Err(e) => return Err(e),
        Ok(Some((content, rest))) => {
            return Ok(Some((Expression::Str(content), rest)));
        },
        Ok(None) => {},
    }
    match consume_form(input) {
        Err(e) => Err(e),
        Ok(Some((args, rest))) => Ok(Some((Expression::Form(args), rest))),
        Ok(None) => Ok(None),
    }
}

/// As many expressions as match, greedily, atmosphere skipped after each.
pub fn consume_expressions<'a>(input: &'a [u8]) -> (r: Result<
    (Vec<Expression>, &'a [u8]),
    CompileError,
>)
    ensures
        match r {
            Ok((es, rest)) => exprs_token(input@) == Ok::<(Seq<ExprV>, Seq<u8>), ErrV>(
                (deep_view_seq(es@), rest@),
            ),
            Err(e) => exprs_token(input@) == Err::<(Seq<ExprV>, Seq<u8>), ErrV>(e@),
        },
    decreases input@.len(), 2int,
{
    let ghost s = input@;
    match consume_expression(input) {
        Err(e) => Err(e),
        Ok(None) => {
            let es: Vec<Expression> = Vec::new();
            proof {
                assert(deep_view_seq(es@) =~= Seq::<ExprV>::empty());
            }
            Ok((es, input))
        },
        Ok(Some((e, rest))) => {
            proof {
                lemma_expr_progress(s);
                assert(rest@.len() < s.len());
            }
            match consume_atmosphere(rest) {
                Err(err) => Err(err),
                Ok(rest2) => {
                    proof {
                        lemma_atmosphere_progress(rest@);
                        assert(rest2@.len() <= rest@.len());
                    }
                    match consume_expressions(rest2) {
                        Err(err) => Err(err),
                        Ok((mut es, fin)) => {
                            let ghost tail = es@;
                            es.insert(0, e);
                            proof {
                                assert(es@ =~= seq![e] + tail);
                                assert((seq![e] + tail)[0] == e);
                                assert((seq![e] + tail).skip(1) =~= tail);
                                assert(deep_view_seq(es@) =~= seq![e.deep_view()] + deep_view_seq(
                                    tail));
                            }
                            Ok((es, fin))
                        },
                    }
                },
            }
        },
    }
}

/// A form: `(`, expressions, `)`; a missing closing parenthesis backtracks.
pub fn consume_form<'a>(input: &'a [u8]) -> (r: Result<
    Option<(Vec<Expression>, &'a [u8])>,
    CompileError,
>)
    ensures
        match r {
            Ok(Some((args, rest))) => form_token(input@) == Ok::<
                Option<(Seq<ExprV>, Seq<u8>)>,
                ErrV,
            >(Some((deep_view_seq(args@), rest@))),
            Ok(None) => form_token(input@) == Ok::<Option<(Seq<ExprV>, Seq<u8>)>, ErrV>(None),
            Err(e) => form_token(input@) == Err::<Option<(Seq<ExprV>, Seq<u8>)>, ErrV>(e@),
        },
    decreases input@.len(), 0int,
{
    let ghost s = input@;
    let open_pat: Vec<u8> = vec!['(' as u8];
    proof {
        assert(open_pat@ =~= seq!['(' as u8]);
        if s.len() >= 1 {
            assert(s.take(1) =~= seq![s[0]]);
        }
    }
    match consume_bytes(input, open_pat.as_slice()) {
        None => Ok(None),
        Some(after) => {
            match consume_atmosphere(after) {
                Err(e) => Err(e),
                Ok(t) => {
                    proof {
                        lemma_atmosphere_progress(s.skip(1));
                        assert(t@.len() < s.len());
                    }
                    match consume_expressions(t) {
                        Err(e) => Err(e),
                        Ok((args, u)) => {
                            proof {
                                lemma_exprs_progress(t@);
                                assert(u@.len() < s.len());
                            }
                            match consume_atmosphere(u) {
                                Err(e) => Err(e),
                                Ok(w) => {
                                    let close_pat: Vec<u8> = vec![')' as u8];
                                    proof {
                                        assert(close_pat@ =~= seq![')' as u8]);
                                        if w@.len() >= 1 {
                                            assert(w@.take(1) =~= seq![w@[0]]);
                                        }
                                    }
                                    match consume_bytes(w, close_pat.as_slice()) {
                                        Some(rest) => Ok(Some((args, rest))),
                                        None => Ok(None),
                                    }
                                },
                            }
                        },
                    }
                },
            }
        },
    }
}

} // verus!
