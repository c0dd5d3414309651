//! The compile-fatal conditions. Reading apart, a failed production is not an
//! error (the caller backtracks); these variants are the conditions that abort
//! the whole compilation.

use vstd::prelude::*;
use vstd::string::StringExecFns;
use crate::instr::{dec_str, push_u64_decimal};

verus! {

/// Every way a compilation can fail. Name payloads carry the offending
/// fragment as raw symbol bytes; `Leftover` carries the unconsumed input.
#[derive(Debug)]
pub enum CompileError {
    /// A form with nothing in head position: `()`.
    EmptyForm,
    /// A form whose head is not a symbol: `(1 2)`.
    HeadNotSymbol,
    /// The head symbol is a local binding; calling it is not yet supported.
    CallUnsupported(Vec<u8>),
    /// `let` with no binding list, or one that is not a form.
    LetBindingsNotForm,
    /// An entry of a `let` binding list that is not a form.
    LetBindingNotForm,
    /// A `let` binding form with other than two parts.
    LetBindingWrongCount,
    /// A `let` binding whose first part is not a symbol.
    LetBindingNameNotSymbol,
    /// A `let` form with no body expressions.
    LetEmptyBody,
    /// The same name bound twice in one `let` binding list.
    DuplicateBinding(Vec<u8>),
    /// `if` applied to other than 2 or 3 arguments; carries the count.
    IfArity(usize),
    /// A unary primitive applied to other than one argument.
    UnaryArity(Vec<u8>, usize),
    /// A fold primitive applied to fewer arguments than it requires.
    FoldArity(Vec<u8>, usize),
    /// A form head that is neither a special form nor a known primitive.
    UnknownPrimitive(Vec<u8>),
    /// A symbol reference with no enclosing binding.
    UnresolvedSymbol(Vec<u8>),
    /// A string escape other than the recognized ones.
    BadStringEscape(u8),
    /// Unconsumed bytes after the last parsable top-level expression.
    Leftover(Vec<u8>),
}

/// The spec-level shape of a `CompileError`.
pub enum ErrV {
    EmptyForm,
    HeadNotSymbol,
    CallUnsupported(Seq<u8>),
    LetBindingsNotForm,
    LetBindingNotForm,
    LetBindingWrongCount,
    LetBindingNameNotSymbol,
    LetEmptyBody,
    DuplicateBinding(Seq<u8>),
    IfArity(usize),
    UnaryArity(Seq<u8>, usize),
    FoldArity(Seq<u8>, usize),
    UnknownPrimitive(Seq<u8>),
    UnresolvedSymbol(Seq<u8>),
    BadStringEscape(u8),
    Leftover(Seq<u8>),
}

impl View for CompileError {
    type V = ErrV;

    open spec fn view(&self) -> ErrV {
        match self {
            CompileError::EmptyForm => ErrV::EmptyForm,
            CompileError::HeadNotSymbol => ErrV::HeadNotSymbol,
            CompileError::CallUnsupported(n) => ErrV::CallUnsupported(n@),
            CompileError::LetBindingsNotForm => ErrV::LetBindingsNotForm,
            CompileError::LetBindingNotForm => ErrV::LetBindingNotForm,
            CompileError::LetBindingWrongCount => ErrV::LetBindingWrongCount,
            CompileError::LetBindingNameNotSymbol => ErrV::LetBindingNameNotSymbol,
            CompileError::LetEmptyBody => ErrV::LetEmptyBody,
            CompileError::DuplicateBinding(n) => ErrV::DuplicateBinding(n@),
            CompileError::IfArity(n) => ErrV::IfArity(*n),
            CompileError::UnaryArity(n, c) => ErrV::UnaryArity(n@, *c),
            CompileError::FoldArity(n, c) => ErrV::FoldArity(n@, *c),
            CompileError::UnknownPrimitive(n) => ErrV::UnknownPrimitive(n@),
            CompileError::UnresolvedSymbol(n) => ErrV::UnresolvedSymbol(n@),
            CompileError::BadStringEscape(b) => ErrV::BadStringEscape(*b),
            CompileError::Leftover(rest) => ErrV::Leftover(rest@),
        }
    }
}


/// The bytes of an offending fragment, as text.
pub open spec fn bytes_text(s: Seq<u8>) -> Seq<char> {
    Seq::new(s.len(), |i: int| s[i] as char)
}

/// The diagnostic for each compile-fatal condition: the violated condition
/// and its offending fragment.
pub open spec fn error_text(e: ErrV) -> Seq<char> {
    match e {
        ErrV::EmptyForm => "Empty form!"@,
        ErrV::HeadNotSymbol => "First entry in form is invalid."@,
        ErrV::CallUnsupported(n) => "Function calls are not yet implemented: "@ + bytes_text(n),
        ErrV::LetBindingsNotForm => "let bindings is not a form"@,
        ErrV::LetBindingNotForm => "let binding is not a form"@,
        ErrV::LetBindingWrongCount => "let binding has incorrect argument count."@,
        ErrV::LetBindingNameNotSymbol => "let binding args are not (Symbol, Expr)"@,
        ErrV::LetEmptyBody => "let form has an empty body"@,
        ErrV::DuplicateBinding(n) => "Duplicate key in let binding: "@ + bytes_text(n),
        ErrV::IfArity(c) => "Invalid argument count to if: "@ + dec_str(c as int),
        ErrV::UnaryArity(n, c) => "incorrect argument count for unary primitive function "@
            + bytes_text(n) + ": "@ + dec_str(c as int),
        ErrV::FoldArity(n, c) => "Too few arguments provided to NaryFold primitive function "@
            + bytes_text(n),
        ErrV::UnknownPrimitive(n) => "Cannot resolve symbol '"@ + bytes_text(n) + "'"@,
        ErrV::UnresolvedSymbol(n) => "Couldn't find environment entry for \""@ + bytes_text(n)
            + "\""@,
        ErrV::BadStringEscape(b) => "Unrecognized string escape: \\"@ + seq![b as char],
        ErrV::Leftover(bytes) => "Leftover data: "@ + bytes_text(bytes),
    }
}

/// Appends an offending fragment's bytes to a diagnostic.
fn push_bytes_text(out: &mut String, v: &Vec<u8>)
    ensures
        final(out)@ == old(out)@ + bytes_text(v@),
{
    let mut i: usize = 0;
    while i < v.len()
        invariant
            i <= v@.len(),
            out@ =~= old(out)@ + bytes_text(v@).take(i as int),
        decreases v@.len() - i,
    {
        let c = v[i] as char;
        out.push(c);
        proof {
            assert(bytes_text(v@).take(i + 1) =~= bytes_text(v@).take(i as int).push(c));
        }
        i = i + 1;
    }
    proof {
        assert(bytes_text(v@).take(v@.len() as int) =~= bytes_text(v@));
    }
}

impl CompileError {
    /// The diagnostic this error prints: the violated condition and the
    /// offending fragment.
    pub fn message(&self) -> (r: String)
        ensures
            r@ == error_text(self@),
    {
        let mut out = String::new();
        match self {
            CompileError::EmptyForm => {
                out.append("Empty form!");
            },
            CompileError::HeadNotSymbol => {
                out.append("First entry in form is invalid.");
            },
            CompileError::CallUnsupported(n) => {
                out.append("Function calls are not yet implemented: ");
                push_bytes_text(&mut out, n);
            },
            CompileError::LetBindingsNotForm => {
                out.append("let bindings is not a form");
            },
            CompileError::LetBindingNotForm => {
                out.append("let binding is not a form");
            },
            CompileError::LetBindingWrongCount => {
                out.append("let binding has incorrect argument count.");
            },
            CompileError::LetBindingNameNotSymbol => {
                out.append("let binding args are not (Symbol, Expr)");
            },
            CompileError::LetEmptyBody => {
                out.append("let form has an empty body");
            },
            CompileError::DuplicateBinding(n) => {
                out.append("Duplicate key in let binding: ");
                push_bytes_text(&mut out, n);
            },
            CompileError::IfArity(c) => {
                out.append("Invalid argument count to if: ");
                push_u64_decimal(&mut out, *c as u64);
            },
            CompileError::UnaryArity(n, c) => {
                out.append("incorrect argument count for unary primitive function ");
                push_bytes_text(&mut out, n);
                out.append(": ");
                push_u64_decimal(&mut out, *c as u64);
            },
            CompileError::FoldArity(n, c) => {
                out.append("Too few arguments provided to NaryFold primitive function ");
                push_bytes_text(&mut out, n);
            },
            CompileError::UnknownPrimitive(n) => {
                out.append("Cannot resolve symbol '");
                push_bytes_text(&mut out, n);
                out.append("'");
            },
            CompileError::UnresolvedSymbol(n) => {
                out.append("Couldn't find environment entry for \"");
                push_bytes_text(&mut out, n);
                out.append("\"");
            },
            CompileError::BadStringEscape(b) => {
                out.append("Unrecognized string escape: \\");
                let c = *b as char;
                out.push(c);
                proof {
                    assert(seq![*b as char] =~= Seq::<char>::empty().push(*b as char));
                }
            },
            CompileError::Leftover(bytes) => {
                out.append("Leftover data: ");
                push_bytes_text(&mut out, bytes);
            },
        }
        proof {
            assert(Seq::<char>::empty() + error_text(self@) =~= error_text(self@));
        }
        out
    }
}

} // verus!
