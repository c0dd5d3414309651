//! A compiler front end for a small Lisp-like language: a backtracking
//! recursive-descent reader that turns raw bytes into expression trees, and a
//! lowering pass that turns those trees into a linear stack-machine
//! instruction listing, resolving lexical bindings to stack slots and
//! computing relative jump distances for conditionals.

use vstd::prelude::*;

pub mod ast;
pub mod error;
pub mod instr;
pub mod laws;
pub mod lower;
pub mod bytes;
pub mod env;
pub mod primitives;
pub mod reader;

use vstd::prelude::*;
use vstd::slice::slice_to_vec;
use crate::ast::deep_view_seq;
use crate::env::Environment;
use crate::error::{CompileError, ErrV};
use crate::instr::{instr_text, instr_to_string};
use crate::lower::{lemma_fits_each_from_size, lower_seq_spec, lower_expressions, lemma_exprs_size};
use crate::reader::{atmosphere_token, consume_atmosphere, consume_expressions, exprs_token,
    lemma_atmosphere_progress};

verus! {

/// The whole compilation as a mathematical function: skip leading
/// atmosphere, read as many top-level expressions as match, reject leftover
/// bytes, lower the program in an empty environment at depth zero, and print
/// each instruction.
pub open spec fn compile_spec(input: Seq<u8>) -> Result<Seq<Seq<char>>, ErrV> {
    match atmosphere_token(input) {
        Err(e) => Err(e),
        Ok(t) => match exprs_token(t) {
            Err(e) => Err(e),
            Ok((es, rest)) => {
                if rest.len() > 0 {
                    Err(ErrV::Leftover(rest))
                } else {
                    match lower_seq_spec(es, Map::empty(), 0) {
                        Err(e) => Err(e),
                        Ok(instrs) => Ok(Seq::new(instrs.len(), |i: int| instr_text(instrs[i]))),
                    }
                }
            },
        },
    }
}

/// Unconsumed bytes after an otherwise complete top-level parse are a fatal
/// error reporting exactly those bytes, whatever they are.
pub proof fn lemma_leftover_is_fatal(input: Seq<u8>)
    ensures
        (match atmosphere_token(input) {
            Ok(t) => match exprs_token(t) {
                Ok((es, rest)) => rest.len() > 0 ==> compile_spec(input) == Err::<
                    Seq<Seq<char>>,
                    ErrV,
                >(ErrV::Leftover(rest)),
                Err(e) => true,
            },
            Err(e) => true,
        }),
{
}

/// Compiles a whole program: reads it, lowers it, prints the instruction
/// lines. The length bound is a machine limit on the slot counter.
pub fn compile_all(input: &[u8]) -> (r: Result<Vec<String>, CompileError>)
    requires
        input@.len() + 2 <= usize::MAX,
    ensures
        match r {
            Ok(lines) => {
                &&& compile_spec(input@) is Ok
                &&& lines@.len() == compile_spec(input@)->Ok_0.len()
                &&& forall|i: int|
                    0 <= i < lines@.len() ==> (#[trigger] lines@[i])@ == compile_spec(
                        input@,
                    )->Ok_0[i]
            },
            Err(e) => compile_spec(input@) == Err::<Seq<Seq<char>>, ErrV>(e@),
        },
{
    match consume_atmosphere(input) {
        Err(e) => Err(e),
        Ok(t) => {
            match consume_expressions(t) {
                Err(e) => Err(e),
                Ok((ast, rest)) => {
                    if rest.len() > 0 {
                        Err(CompileError::Leftover(slice_to_vec(rest)))
                    } else {
                        proof {
                            lemma_atmosphere_progress(input@);
                            lemma_exprs_size(t@);
                            lemma_fits_each_from_size(deep_view_seq(ast@), 0);
                        }
                        let env = Environment::new();
                        match lower_expressions(ast, &env, 0) {
                            Err(e) => Err(e),
                            Ok(instrs) => {
                                let ghost iv = instrs@;
                                let mut lines: Vec<String> = Vec::new();
                                let mut i: usize = 0;
                                while i < instrs.len()
                                    invariant
                                        i <= iv.len(),
                                        instrs@ == iv,
                                        lines@.len() == i,
                                        forall|j: int|
                                            0 <= j < i ==> (#[trigger] lines@[j])@ == instr_text(
                                                iv[j],
                                            ),
                                    decreases iv.len() - i,
                                {
                                    lines.push(instr_to_string(&instrs[i]));
                                    i = i + 1;
                                }
                                Ok(lines)
                            },
                        }
                    }
                },
            }
        },
    }
}

} // verus!
