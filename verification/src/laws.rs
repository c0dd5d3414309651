//! General properties of the lowering, stated once for all inputs and proved
//! against the spec-level translation.

use vstd::prelude::*;
use crate::ast::ExprV;
use crate::error::ErrV;
use crate::instr::{Instr, Opcode};
use crate::lower::{lower_binds_spec, lower_if_spec, lower_spec};

verus! {

/// Round trip for literals: lowering an integer, boolean, character or null
/// literal, in any environment and at any depth, yields exactly one
/// literal-load instruction carrying the literal's value.
pub proof fn lemma_literal_load(e: ExprV, env: Map<Seq<u8>, usize>, d: int)
    ensures
        e matches ExprV::Int(x) ==> lower_spec(e, env, d) == Ok::<Seq<Instr>, ErrV>(
            seq![Instr::LoadInt(x)],
        ),
        e matches ExprV::Bool(x) ==> lower_spec(e, env, d) == Ok::<Seq<Instr>, ErrV>(
            seq![Instr::LoadBool(x)],
        ),
        e matches ExprV::Char(x) ==> lower_spec(e, env, d) == Ok::<Seq<Instr>, ErrV>(
            seq![Instr::LoadChar(x)],
        ),
        e is Null ==> lower_spec(e, env, d) == Ok::<Seq<Instr>, ErrV>(seq![Instr::LoadNull]),
{
}

/// A string literal lowers to one character load per byte, in order, followed
/// by the build-string instruction that consumes exactly those characters.
pub proof fn lemma_string_literal_load(bytes: Seq<u8>, env: Map<Seq<u8>, usize>, d: int)
    ensures
        lower_spec(ExprV::Str(bytes), env, d) == Ok::<Seq<Instr>, ErrV>(
            Seq::new(bytes.len(), |i: int| Instr::LoadChar(bytes[i])).push(
                Instr::MakeString(bytes.len() as usize),
            ),
        ),
{
}

/// Jump distances in a lowered `if` count instructions of the respective
/// branch buffers: the conditional jump skips exactly the consequent code
/// with its trailing jump, and that jump skips exactly the alternative code.
pub proof fn lemma_if_jump_distances(s: Seq<ExprV>, env: Map<Seq<u8>, usize>, d: int)
    requires
        lower_if_spec(s, env, d) is Ok,
    ensures
        ({
            let code = lower_if_spec(s, env, d)->Ok_0;
            let cond = lower_spec(s[1], env, d)->Ok_0;
            let cons = lower_spec(s[2], env, d + 1)->Ok_0;
            let alt = (if s.len() == 4 {
                lower_spec(s[3], env, d + 1)
            } else {
                Ok::<Seq<Instr>, ErrV>(seq![Instr::LoadUnspecified])
            })->Ok_0;
            &&& (s.len() == 3 || s.len() == 4)
            &&& code.len() == cond.len() + 3 + cons.len() + 1 + alt.len()
            &&& code[cond.len() as int + 2] == Instr::CJump((cons.len() + 1) as usize)
            &&& code[cond.len() + 3 + cons.len() as int] == Instr::Jump(alt.len() as usize)
        }),
{
    let code = lower_if_spec(s, env, d)->Ok_0;
    let cond = lower_spec(s[1], env, d)->Ok_0;
    let cons = lower_spec(s[2], env, d + 1)->Ok_0;
    let alt = (if s.len() == 4 {
        lower_spec(s[3], env, d + 1)
    } else {
        Ok::<Seq<Instr>, ErrV>(seq![Instr::LoadUnspecified])
    })->Ok_0;
    assert(code == cond + seq![
        Instr::LoadBool(false),
        Instr::Op(Opcode::IdEq),
        Instr::CJump((cons.len() + 1) as usize),
    ] + cons + seq![Instr::Jump(alt.len() as usize)] + alt);
    assert(code[cond.len() as int + 2] == Instr::CJump((cons.len() + 1) as usize));
    assert(code[cond.len() + 3 + cons.len() as int] == Instr::Jump(alt.len() as usize));
}


/// The name a well-shaped binding entry binds, if any.
pub open spec fn binding_name(b: ExprV) -> Option<Seq<u8>> {
    match b {
        ExprV::Form(pair) => {
            if pair.len() == 2 {
                match pair[0] {
                    ExprV::Symbol(n) => Some(n),
                    _ => None,
                }
            } else {
                None
            }
        },
        _ => None,
    }
}

/// Whether some entry of a binding list binds `k`.
pub open spec fn binds_name(bs: Seq<ExprV>, k: Seq<u8>) -> bool {
    exists|i: int| 0 <= i < bs.len() && binding_name(bs[i]) == Some(k)
}

/// Scoping: a successful binding-list lowering extends the environment with
/// exactly this list's names, each mapped to the slot its value rests in,
/// and leaves every other name meaning what it meant outside. Initializers
/// themselves are lowered under the unextended enclosing environment, as
/// `lower_binds_spec` states: shadowing takes effect only inside the body,
/// never in an initializer.
pub proof fn lemma_let_scoping(
    bs: Seq<ExprV>,
    enclosing: Map<Seq<u8>, usize>,
    acc: Map<Seq<u8>, usize>,
    bound: Seq<Seq<u8>>,
    d: int,
)
    ensures
        lower_binds_spec(bs, enclosing, acc, bound, d) is Ok ==> {
            let env2 = lower_binds_spec(bs, enclosing, acc, bound, d)->Ok_0.1;
            &&& forall|i: int|
                0 <= i < bs.len() ==> ((#[trigger] binding_name(bs[i])) matches Some(n)
                    ==> env2.contains_key(n) && env2[n] == (d + i) as usize && !bound.contains(n))
            &&& forall|k: Seq<u8>|
                !binds_name(bs, k) ==> ((#[trigger] env2.contains_key(k)) == acc.contains_key(k)
                    && (acc.contains_key(k) ==> env2[k] == acc[k]))
        },
    decreases bs, 1int, 3int,
{
    if bs.len() == 0 {
        return ;
    }
    match binding_name(bs[0]) {
        Some(n0) => {
            if !bound.contains(n0) {
                match bs[0] {
                    ExprV::Form(pair) => {
                        if pair.len() == 2 {
                            match lower_spec(pair[1], enclosing, d) {
                                Ok(code0) => {
                                    let acc2 = acc.insert(n0, d as usize);
                                    let bound2 = bound.push(n0);
                                    let rest = bs.skip(1);
                                    assert(forall|i: int| 0 <= i < rest.len() ==> rest[i] == bs[i + 1]);
                                    lemma_let_scoping(rest, enclosing, acc2, bound2, d + 1);
                                    match lower_binds_spec(rest, enclosing, acc2, bound2, d + 1) {
                                        Ok((code1, env2, d2)) => {
                                            let env2p = lower_binds_spec(
                                                rest,
                                                enclosing,
                                                acc2,
                                                bound2,
                                                d + 1,
                                            )->Ok_0.1;
                                            assert(env2p == env2);
                                            assert(bound2.contains(n0)) by {
                                                assert(bound2[bound.len() as int] == n0);
                                            }
                                            assert forall|x: Seq<u8>| bound.contains(x) implies bound2.contains(x) by {
                                                let j = choose|j: int| 0 <= j < bound.len() && bound[j] == x;
                                                assert(bound2[j] == x);
                                            }
                                            // the tail cannot rebind a name in `bound2`, this
                                            // binding's in particular
                                            assert(forall|i: int|
                                                0 <= i < rest.len() ==> ((
                                                #[trigger] binding_name(rest[i])) matches Some(n)
                                                    ==> !bound2.contains(n)));
                                            assert(!binds_name(rest, n0)) by {
                                                if binds_name(rest, n0) {
                                                    let i = choose|i: int|
                                                        0 <= i < rest.len() && binding_name(rest[i])
                                                            == Some(n0);
                                                    assert(!bound2.contains(n0));
                                                }
                                            }
                                            assert(env2p.contains_key(n0) == acc2.contains_key(
                                                n0,
                                            ));
                                            assert(env2.contains_key(n0) && env2[n0] == d as usize);
                                            assert forall|i: int| 1 <= i < bs.len() implies ((
                                                #[trigger] binding_name(bs[i])) matches Some(n)
                                                ==> env2.contains_key(n) && env2[n] == (d
                                                + i) as usize && !bound.contains(n)) by {
                                                assert(binding_name(rest[i - 1]) == binding_name(
                                                    bs[i]));
                                            }
                                            assert forall|k: Seq<u8>| !binds_name(bs, k) implies ((
                                                #[trigger] env2.contains_key(k))
                                                == acc.contains_key(k) && (acc.contains_key(k)
                                                ==> env2[k] == acc[k])) by {
                                                assert(k != n0) by {
                                                    if k == n0 {
                                                        assert(binding_name(bs[0]) == Some(k));
                                                        assert(binds_name(bs, k));
                                                    }
                                                }
                                                assert(!binds_name(rest, k)) by {
                                                    if binds_name(rest, k) {
                                                        let i = choose|i: int|
                                                            0 <= i < rest.len() && binding_name(
                                                                rest[i]) == Some(k);
                                                        assert(binding_name(bs[i + 1]) == Some(k));
                                                        assert(binds_name(bs, k));
                                                    }
                                                }
                                                assert(env2p.contains_key(k)
                                                    == acc2.contains_key(k));
                                                assert(env2.contains_key(k) == acc2.contains_key(k)
                                                    && (acc2.contains_key(k) ==> env2[k]
                                                    == acc2[k]));
                                            }
                                        },
                                        Err(e) => {},
                                    }
                                },
                                Err(e) => {},
                            }
                        }
                    },
                    _ => {},
                }
            }
        },
        None => {},
    }
}

} // verus!
