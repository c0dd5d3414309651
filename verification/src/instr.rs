//! The target instruction set and its textual surface: one instruction per
//! line, a mnemonic followed by space-separated operands. Lowering produces
//! `Instr` values; `instr_to_string` prints one as the downstream machine
//! expects it.

use vstd::prelude::*;
use vstd::string::StringExecFns;

verus! {

/// Opcodes that take no operand in the instruction text.
#[derive(Clone, Copy, Debug, PartialEq, Eq, Structural)]
pub enum Opcode {
    Add1,
    Sub1,
    Add,
    Sub,
    Mul,
    Lt,
    NumEq,
    IdEq,
    IsZero,
    IsInt,
    IsBool,
    IsChar,
    IsNull,
    Not,
    CharToInt,
    IntToChar,
    And,
}

/// One instruction line of the target machine.
#[derive(Clone, Copy, Debug, PartialEq, Eq, Structural)]
pub enum Instr {
    /// `LOAD64 <n>`: push an integer literal.
    LoadInt(u64),
    /// `LOAD64 #t` / `LOAD64 #f`: push a boolean literal.
    LoadBool(bool),
    /// `LOAD64 #\x<hex>`: push a character literal.
    LoadChar(u8),
    /// `LOAD64 NULL`: push the null literal.
    LoadNull,
    /// `LOAD64 UNSPECIFIED`: push the unspecified value.
    LoadUnspecified,
    /// `GET <slot>`: push a copy of the value in a stack slot.
    Get(usize),
    /// `FORGET`: discard the value on top of the stack.
    Forget,
    /// `FALL`: discard the top binding slot.
    Fall,
    /// `JUMP <n>`: skip the next `n` instructions unconditionally.
    Jump(usize),
    /// `CJUMP <n>`: pop a boolean, skip the next `n` instructions if it holds.
    CJump(usize),
    /// `STRING <n>`: pop `n` characters and push the string made of them.
    MakeString(usize),
    /// A bare opcode mnemonic.
    Op(Opcode),
}

// ---------------------------------------------------------------------------
// Numerals
// ---------------------------------------------------------------------------

/// The character for one digit value below 16: `0`..`9` then `a`..`f`.
pub open spec fn digit_char(d: int) -> char {
    if d < 10 {
        ((48 + d) as u8) as char
    } else {
        ((87 + d) as u8) as char
    }
}

/// Decimal digits of `n`, most significant first; empty when `n <= 0`.
pub open spec fn dec_digits(n: int) -> Seq<char>
    decreases n,
{
    if n <= 0 {
        Seq::empty()
    } else {
        dec_digits(n / 10).push(digit_char(n % 10))
    }
}

/// Decimal text of a nonnegative number.
pub open spec fn dec_str(n: int) -> Seq<char> {
    if n == 0 {
        seq!['0']
    } else {
        dec_digits(n)
    }
}

/// Lowercase hexadecimal digits of `n`, most significant first.
pub open spec fn hex_digits(n: int) -> Seq<char>
    decreases n,
{
    if n <= 0 {
        Seq::empty()
    } else {
        hex_digits(n / 16).push(digit_char(n % 16))
    }
}

/// Lowercase hexadecimal text of a nonnegative number, without padding.
pub open spec fn hex_str(n: int) -> Seq<char> {
    if n == 0 {
        seq!['0']
    } else {
        hex_digits(n)
    }
}

/// Relies on `String::push`, which appends the given character to the end of
/// the string.
pub assume_specification[ String::push ](s: &mut String, c: char)
    ensures
        final(s)@ == old(s)@.push(c),
;

/// The digits of a buffer taken in reverse order, as characters.
spec fn digits_rev(ds: Seq<u8>) -> Seq<char> {
    Seq::new(ds.len(), |i: int| digit_char(ds[ds.len() - 1 - i] as int))
}

/// Appends the decimal text of `n` to `out`.
pub(crate) fn push_u64_decimal(out: &mut String, n: u64)
    ensures
        final(out)@ == old(out)@ + dec_str(n as int),
{
    if n == 0 {
        out.push('0');
        assert(old(out)@.push('0') =~= old(out)@ + dec_str(0));
        return ;
    }
    let mut digits: Vec<u8> = Vec::new();
    let mut x = n;
    while x > 0
        invariant
            dec_digits(n as int) =~= dec_digits(x as int) + digits_rev(digits@),
            forall|j: int| 0 <= j < digits@.len() ==> digits@[j] < 10,
            n > 0,
            x == 0 ==> digits@.len() > 0,
        decreases x,
    {
        let d = (x % 10) as u8;
        proof {
            let ds = digits@;
            assert(digits_rev(ds.push(d)) =~= seq![digit_char(d as int)] + digits_rev(ds));
            assert(dec_digits(x as int) == dec_digits(x as int / 10).push(digit_char(x as int % 10)));
            assert(dec_digits(x as int) + digits_rev(ds) =~= dec_digits((x / 10) as int)
                + digits_rev(ds.push(d)));
        }
        digits.push(d);
        x = x / 10;
    }
    assert(dec_digits(n as int) =~= digits_rev(digits@));
    let ghost ds = digits@;
    let mut i = digits.len();
    while i > 0
        invariant
            i <= digits@.len(),
            digits@ == ds,
            forall|j: int| 0 <= j < ds.len() ==> ds[j] < 10,
            out@ =~= old(out)@ + digits_rev(ds).take(ds.len() - i),
        decreases i,
    {
        i = i - 1;
        let c = (48 + digits[i]) as char;
        proof {
            assert(digit_char(ds[i as int] as int) == c);
            assert(digits_rev(ds)[ds.len() - 1 - i as int] == c);
            assert(digits_rev(ds).take(ds.len() - i as int) =~= digits_rev(ds).take(
                ds.len() - i as int - 1).push(c));
        }
        out.push(c);
    }
    assert(digits_rev(ds).take(ds.len() as int) =~= digits_rev(ds));
    assert(dec_str(n as int) == dec_digits(n as int));
}

/// Appends the lowercase hexadecimal text of `v` to `out`.
fn push_u8_hex(out: &mut String, v: u8)
    ensures
        final(out)@ == old(out)@ + hex_str(v as int),
{
    if v == 0 {
        out.push('0');
        assert(old(out)@.push('0') =~= old(out)@ + hex_str(0));
    } else if v < 16 {
        let c = if v < 10 {
            (48 + v) as char
        } else {
            (87 + v) as char
        };
        out.push(c);
        proof {
            reveal_with_fuel(hex_digits, 2);
            assert(hex_digits(v as int) =~= seq![digit_char(v as int)]);
            assert(old(out)@.push(c) =~= old(out)@ + hex_str(v as int));
        }
    } else {
        let hi = v / 16;
        let lo = v % 16;
        let chi = if hi < 10 {
            (48 + hi) as char
        } else {
            (87 + hi) as char
        };
        let clo = if lo < 10 {
            (48 + lo) as char
        } else {
            (87 + lo) as char
        };
        out.push(chi);
        out.push(clo);
        proof {
            reveal_with_fuel(hex_digits, 3);
            assert(hex_digits(hi as int) =~= seq![digit_char(hi as int)]);
            assert(hex_digits(v as int) =~= seq![digit_char(hi as int), digit_char(lo as int)]);
            assert(old(out)@.push(chi).push(clo) =~= old(out)@ + hex_str(v as int));
        }
    }
}

// ---------------------------------------------------------------------------
// Instruction text
// ---------------------------------------------------------------------------

/// The mnemonic of a bare opcode.
pub open spec fn opcode_text(op: Opcode) -> Seq<char> {
    match op {
        Opcode::Add1 => "ADD1"@,
        Opcode::Sub1 => "SUB1"@,
        Opcode::Add => "ADD"@,
        Opcode::Sub => "SUB"@,
        Opcode::Mul => "MUL"@,
        Opcode::Lt => "LT"@,
        Opcode::NumEq => "EQ"@,
        Opcode::IdEq => "EQP"@,
        Opcode::IsZero => "ZEROP"@,
        Opcode::IsInt => "INTEGERP"@,
        Opcode::IsBool => "BOOLEANP"@,
        Opcode::IsChar => "CHARP"@,
        Opcode::IsNull => "NULLP"@,
        Opcode::Not => "NOT"@,
        Opcode::CharToInt => "CHARTOINT"@,
        Opcode::IntToChar => "INTTOCHAR"@,
        Opcode::And => "AND"@,
    }
}

/// The full text of one instruction line.
pub open spec fn instr_text(i: Instr) -> Seq<char> {
    match i {
        Instr::LoadInt(n) => "LOAD64 "@ + dec_str(n as int),
        Instr::LoadBool(b) => if b {
            "LOAD64 #t"@
        } else {
            "LOAD64 #f"@
        },
        Instr::LoadChar(c) => "LOAD64 #\\x"@ + hex_str(c as int),
        Instr::LoadNull => "LOAD64 NULL"@,
        Instr::LoadUnspecified => "LOAD64 UNSPECIFIED"@,
        Instr::Get(n) => "GET "@ + dec_str(n as int),
        Instr::Forget => "FORGET"@,
        Instr::Fall => "FALL"@,
        Instr::Jump(n) => "JUMP "@ + dec_str(n as int),
        Instr::CJump(n) => "CJUMP "@ + dec_str(n as int),
        Instr::MakeString(n) => "STRING "@ + dec_str(n as int),
        Instr::Op(op) => opcode_text(op),
    }
}

fn opcode_mnemonic(op: Opcode) -> (r: &'static str)
    ensures
        r@ == opcode_text(op),
{
    match op {
        Opcode::Add1 => "ADD1",
        Opcode::Sub1 => "SUB1",
        Opcode::Add => "ADD",
        Opcode::Sub => "SUB",
        Opcode::Mul => "MUL",
        Opcode::Lt => "LT",
        Opcode::NumEq => "EQ",
        Opcode::IdEq => "EQP",
        Opcode::IsZero => "ZEROP",
        Opcode::IsInt => "INTEGERP",
        Opcode::IsBool => "BOOLEANP",
        Opcode::IsChar => "CHARP",
        Opcode::IsNull => "NULLP",
        Opcode::Not => "NOT",
        Opcode::CharToInt => "CHARTOINT",
        Opcode::IntToChar => "INTTOCHAR",
        Opcode::And => "AND",
    }
}

/// Prints one instruction line exactly as the target machine expects it.
pub fn instr_to_string(i: &Instr) -> (r: String)
    ensures
        r@ == instr_text(*i),
{
    let mut out = String::new();
    match i {
        Instr::LoadInt(n) => {
            out.append("LOAD64 ");
            push_u64_decimal(&mut out, *n);
        },
        Instr::LoadBool(b) => {
            if *b {
                out.append("LOAD64 #t");
            } else {
                out.append("LOAD64 #f");
            }
        },
        Instr::LoadChar(c) => {
            out.append("LOAD64 #\\x");
            push_u8_hex(&mut out, *c);
        },
        Instr::LoadNull => {
            out.append("LOAD64 NULL");
        },
        Instr::LoadUnspecified => {
            out.append("LOAD64 UNSPECIFIED");
        },
        Instr::Get(n) => {
            out.append("GET ");
            push_u64_decimal(&mut out, *n as u64);
        },
        Instr::Forget => {
            out.append("FORGET");
        },
        Instr::Fall => {
            out.append("FALL");
        },
        Instr::Jump(n) => {
            out.append("JUMP ");
            push_u64_decimal(&mut out, *n as u64);
        },
        Instr::CJump(n) => {
            out.append("CJUMP ");
            push_u64_decimal(&mut out, *n as u64);
        },
        Instr::MakeString(n) => {
            out.append("STRING ");
            push_u64_decimal(&mut out, *n as u64);
        },
        Instr::Op(op) => {
            out.append(opcode_mnemonic(*op));
        },
    }
    proof {
        assert(Seq::<char>::empty() + instr_text(*i) =~= instr_text(*i));
    }
    out
}

} // verus!
