//! The static table of built-in operators: each name maps to an arity
//! strategy and the opcode mnemonic it lowers to, so the recognizer and the
//! code generator cannot drift apart.

use vstd::prelude::*;
use crate::bytes::bytes_eq;
use crate::instr::Opcode;

verus! {

/// How a primitive consumes its arguments.
#[derive(Clone, Copy, Debug, PartialEq, Eq, Structural)]
pub enum PrimitiveFnArity {
    /// Exactly one argument.
    Unary,
    /// A chained relational comparison; carries the implementation arity.
    NaryAllPairs(usize),
    /// A left-associative binary reduction; carries the implementation arity,
    /// the minimum argument count, and the identity literal synthesized for
    /// missing leading operands.
    NaryFold(usize, usize, u64),
}

/// The bytes of `let`.
pub open spec fn kw_let() -> Seq<u8> {
    seq!['l' as u8, 'e' as u8, 't' as u8]
}

/// The bytes of `if`.
pub open spec fn kw_if() -> Seq<u8> {
    seq!['i' as u8, 'f' as u8]
}

/// The bytes of `add1`.
pub open spec fn kw_add1() -> Seq<u8> {
    seq!['a' as u8, 'd' as u8, 'd' as u8, '1' as u8]
}

/// The bytes of `sub1`.
pub open spec fn kw_sub1() -> Seq<u8> {
    seq!['s' as u8, 'u' as u8, 'b' as u8, '1' as u8]
}

/// The bytes of `+`.
pub open spec fn kw_plus() -> Seq<u8> {
    seq!['+' as u8]
}

/// The bytes of `-`.
pub open spec fn kw_minus() -> Seq<u8> {
    seq!['-' as u8]
}

/// The bytes of `*`.
pub open spec fn kw_star() -> Seq<u8> {
    seq!['*' as u8]
}

/// The bytes of `<`.
pub open spec fn kw_lt() -> Seq<u8> {
    seq!['<' as u8]
}

/// The bytes of `=`.
pub open spec fn kw_num_eq() -> Seq<u8> {
    seq!['=' as u8]
}

/// The bytes of `eq?`.
pub open spec fn kw_eqp() -> Seq<u8> {
    seq!['e' as u8, 'q' as u8, '?' as u8]
}

/// The bytes of `zero?`.
pub open spec fn kw_zerop() -> Seq<u8> {
    seq!['z' as u8, 'e' as u8, 'r' as u8, 'o' as u8, '?' as u8]
}

/// The bytes of `integer?`.
pub open spec fn kw_integerp() -> Seq<u8> {
    seq!['i' as u8, 'n' as u8, 't' as u8, 'e' as u8, 'g' as u8, 'e' as u8, 'r' as u8, '?' as u8]
}

/// The bytes of `boolean?`.
pub open spec fn kw_booleanp() -> Seq<u8> {
    seq!['b' as u8, 'o' as u8, 'o' as u8, 'l' as u8, 'e' as u8, 'a' as u8, 'n' as u8, '?' as u8]
}

/// The bytes of `char?`.
pub open spec fn kw_charp() -> Seq<u8> {
    seq!['c' as u8, 'h' as u8, 'a' as u8, 'r' as u8, '?' as u8]
}

/// The bytes of `null?`.
pub open spec fn kw_nullp() -> Seq<u8> {
    seq!['n' as u8, 'u' as u8, 'l' as u8, 'l' as u8, '?' as u8]
}

/// The bytes of `not`.
pub open spec fn kw_not() -> Seq<u8> {
    seq!['n' as u8, 'o' as u8, 't' as u8]
}

/// The bytes of `char->integer`.
pub open spec fn kw_char_to_integer() -> Seq<u8> {
    seq!['c' as u8, 'h' as u8, 'a' as u8, 'r' as u8, '-' as u8, '>' as u8, 'i' as u8, 'n' as u8, 't' as u8, 'e' as u8, 'g' as u8, 'e' as u8, 'r' as u8]
}

/// The bytes of `integer->char`.
pub open spec fn kw_integer_to_char() -> Seq<u8> {
    seq!['i' as u8, 'n' as u8, 't' as u8, 'e' as u8, 'g' as u8, 'e' as u8, 'r' as u8, '-' as u8, '>' as u8, 'c' as u8, 'h' as u8, 'a' as u8, 'r' as u8]
}

/// The classification and mnemonic of a primitive operator name.
pub open spec fn spec_lookup_primitive(name: Seq<u8>) -> Option<(PrimitiveFnArity, Opcode)> {
    if name == kw_add1() {
        Some((PrimitiveFnArity::Unary, Opcode::Add1))
    } else if name == kw_sub1() {
        Some((PrimitiveFnArity::Unary, Opcode::Sub1))
    } else if name == kw_plus() {
        Some((PrimitiveFnArity::NaryFold(2, 0, 0), Opcode::Add))
    } else if name == kw_minus() {
        Some((PrimitiveFnArity::NaryFold(2, 1, 0), Opcode::Sub))
    } else if name == kw_star() {
        Some((PrimitiveFnArity::NaryFold(2, 0, 1), Opcode::Mul))
    } else if name == kw_lt() {
        Some((PrimitiveFnArity::NaryAllPairs(2), Opcode::Lt))
    } else if name == kw_num_eq() {
        Some((PrimitiveFnArity::NaryAllPairs(2), Opcode::NumEq))
    } else if name == kw_eqp() {
        Some((PrimitiveFnArity::NaryAllPairs(2), Opcode::IdEq))
    } else if name == kw_zerop() {
        Some((PrimitiveFnArity::Unary, Opcode::IsZero))
    } else if name == kw_integerp() {
        Some((PrimitiveFnArity::Unary, Opcode::IsInt))
    } else if name == kw_booleanp() {
        Some((PrimitiveFnArity::Unary, Opcode::IsBool))
    } else if name == kw_charp() {
        Some((PrimitiveFnArity::Unary, Opcode::IsChar))
    } else if name == kw_nullp() {
        Some((PrimitiveFnArity::Unary, Opcode::IsNull))
    } else if name == kw_not() {
        Some((PrimitiveFnArity::Unary, Opcode::Not))
    } else if name == kw_char_to_integer() {
        Some((PrimitiveFnArity::Unary, Opcode::CharToInt))
    } else if name == kw_integer_to_char() {
        Some((PrimitiveFnArity::Unary, Opcode::IntToChar))
    } else {
        None
    }
}

/// Looks a form head up in the primitive table.
pub fn lookup_primitive(name: &[u8]) -> (r: Option<(PrimitiveFnArity, Opcode)>)
    ensures
        r == spec_lookup_primitive(name@),
{
    let k_add1: Vec<u8> = vec!['a' as u8, 'd' as u8, 'd' as u8, '1' as u8];
    proof { assert(k_add1@ =~= kw_add1()); }
    if bytes_eq(name, k_add1.as_slice()) {
        return Some((PrimitiveFnArity::Unary, Opcode::Add1));
    }
    let k_sub1: Vec<u8> = vec!['s' as u8, 'u' as u8, 'b' as u8, '1' as u8];
    proof { assert(k_sub1@ =~= kw_sub1()); }
    if bytes_eq(name, k_sub1.as_slice()) {
        return Some((PrimitiveFnArity::Unary, Opcode::Sub1));
    }
    let k_plus: Vec<u8> = vec!['+' as u8];
    proof { assert(k_plus@ =~= kw_plus()); }
    if bytes_eq(name, k_plus.as_slice()) {
        return Some((PrimitiveFnArity::NaryFold(2, 0, 0), Opcode::Add));
    }
    let k_minus: Vec<u8> = vec!['-' as u8];
    proof { assert(k_minus@ =~= kw_minus()); }
    if bytes_eq(name, k_minus.as_slice()) {
        return Some((PrimitiveFnArity::NaryFold(2, 1, 0), Opcode::Sub));
    }
    let k_star: Vec<u8> = vec!['*' as u8];
    proof { assert(k_star@ =~= kw_star()); }
    if bytes_eq(name, k_star.as_slice()) {
        return Some((PrimitiveFnArity::NaryFold(2, 0, 1), Opcode::Mul));
    }
    let k_lt: Vec<u8> = vec!['<' as u8];
    proof { assert(k_lt@ =~= kw_lt()); }
    if bytes_eq(name, k_lt.as_slice()) {
        return Some((PrimitiveFnArity::NaryAllPairs(2), Opcode::Lt));
    }
    let k_num_eq: Vec<u8> = vec!['=' as u8];
    proof { assert(k_num_eq@ =~= kw_num_eq()); }
    if bytes_eq(name, k_num_eq.as_slice()) {
        return Some((PrimitiveFnArity::NaryAllPairs(2), Opcode::NumEq));
    }
    let k_eqp: Vec<u8> = vec!['e' as u8, 'q' as u8, '?' as u8];
    proof { assert(k_eqp@ =~= kw_eqp()); }
    if bytes_eq(name, k_eqp.as_slice()) {
        return Some((PrimitiveFnArity::NaryAllPairs(2), Opcode::IdEq));
    }
    let k_zerop: Vec<u8> = vec!['z' as u8, 'e' as u8, 'r' as u8, 'o' as u8, '?' as u8];
    proof { assert(k_zerop@ =~= kw_zerop()); }
    if bytes_eq(name, k_zerop.as_slice()) {
        return Some((PrimitiveFnArity::Unary, Opcode::IsZero));
    }
    let k_integerp: Vec<u8> = vec!['i' as u8, 'n' as u8, 't' as u8, 'e' as u8, 'g' as u8, 'e' as u8, 'r' as u8, '?' as u8];
    proof { assert(k_integerp@ =~= kw_integerp()); }
    if bytes_eq(name, k_integerp.as_slice()) {
        return Some((PrimitiveFnArity::Unary, Opcode::IsInt));
    }
    let k_booleanp: Vec<u8> = vec!['b' as u8, 'o' as u8, 'o' as u8, 'l' as u8, 'e' as u8, 'a' as u8, 'n' as u8, '?' as u8];
    proof { assert(k_booleanp@ =~= kw_booleanp()); }
    if bytes_eq(name, k_booleanp.as_slice()) {
        return Some((PrimitiveFnArity::Unary, Opcode::IsBool));
    }
    let k_charp: Vec<u8> = vec!['c' as u8, 'h' as u8, 'a' as u8, 'r' as u8, '?' as u8];
    proof { assert(k_charp@ =~= kw_charp()); }
    if bytes_eq(name, k_charp.as_slice()) {
        return Some((PrimitiveFnArity::Unary, Opcode::IsChar));
    }
    let k_nullp: Vec<u8> = vec!['n' as u8, 'u' as u8, 'l' as u8, 'l' as u8, '?' as u8];
    proof { assert(k_nullp@ =~= kw_nullp()); }
    if bytes_eq(name, k_nullp.as_slice()) {
        return Some((PrimitiveFnArity::Unary, Opcode::IsNull));
    }
    let k_not: Vec<u8> = vec!['n' as u8, 'o' as u8, 't' as u8];
    proof { assert(k_not@ =~= kw_not()); }
    if bytes_eq(name, k_not.as_slice()) {
        return Some((PrimitiveFnArity::Unary, Opcode::Not));
    }
    let k_char_to_integer: Vec<u8> = vec!['c' as u8, 'h' as u8, 'a' as u8, 'r' as u8, '-' as u8, '>' as u8, 'i' as u8, 'n' as u8, 't' as u8, 'e' as u8, 'g' as u8, 'e' as u8, 'r' as u8];
    proof { assert(k_char_to_integer@ =~= kw_char_to_integer()); }
    if bytes_eq(name, k_char_to_integer.as_slice()) {
        return Some((PrimitiveFnArity::Unary, Opcode::CharToInt));
    }
    let k_integer_to_char: Vec<u8> = vec!['i' as u8, 'n' as u8, 't' as u8, 'e' as u8, 'g' as u8, 'e' as u8, 'r' as u8, '-' as u8, '>' as u8, 'c' as u8, 'h' as u8, 'a' as u8, 'r' as u8];
    proof { assert(k_integer_to_char@ =~= kw_integer_to_char()); }
    if bytes_eq(name, k_integer_to_char.as_slice()) {
        return Some((PrimitiveFnArity::Unary, Opcode::IntToChar));
    }
    None
}

} // verus!
