//! Lowering: from expression trees to stack-machine instructions. The
//! spec-level functions here define the translation over `ExprV`; the
//! executable functions are proved to return exactly what they say.

use vstd::prelude::*;
use crate::ast::{deep_view_seq, lemma_deep_view_seq, Expression, ExprV};
use crate::env::Environment;
use crate::error::CompileError;
use crate::primitives::lookup_primitive;
use crate::error::ErrV;
use crate::instr::{Instr, Opcode};
use crate::primitives::{kw_if, kw_let, spec_lookup_primitive, PrimitiveFnArity};

verus! {

// ---------------------------------------------------------------------------
// Tree size, used to bound the stack-slot counter
// ---------------------------------------------------------------------------

/// The number of nodes in an expression tree.
pub open spec fn esize(e: ExprV) -> int
    decreases e, 0int, 0int,
{
    match e {
        ExprV::Form(s) => 1 + esize_seq(s),
        _ => 1,
    }
}

/// The number of nodes in a sequence of trees.
pub open spec fn esize_seq(s: Seq<ExprV>) -> int
    decreases s, 1int, 0int,
{
    if s.len() == 0 {
        0
    } else {
        esize(s[0]) + esize_seq(s.skip(1))
    }
}

pub proof fn lemma_esize_pos(e: ExprV)
    ensures
        esize(e) >= 1,
    decreases e, 0int, 0int,
{
    match e {
        ExprV::Form(s) => {
            lemma_esize_seq_len(s);
        },
        _ => {},
    }
}

pub proof fn lemma_esize_seq_len(s: Seq<ExprV>)
    ensures
        esize_seq(s) >= s.len(),
    decreases s, 1int, 0int,
{
    if s.len() > 0 {
        lemma_esize_pos(s[0]);
        lemma_esize_seq_len(s.skip(1));
    }
}

/// A sequence is at least as big as any one element plus one node for each
/// earlier element.
pub proof fn lemma_esize_seq_elem(s: Seq<ExprV>, i: int)
    requires
        0 <= i < s.len(),
    ensures
        esize_seq(s) >= i + esize(s[i]),
    decreases i,
{
    lemma_esize_seq_len(s);
    if i == 0 {
        lemma_esize_seq_len(s.skip(1));
    } else {
        lemma_esize_pos(s[0]);
        lemma_esize_seq_elem(s.skip(1), i - 1);
        assert(s.skip(1)[i - 1] == s[i]);
    }
}

// ---------------------------------------------------------------------------
// Fitting: the stack-slot counter stays within `usize`
// ---------------------------------------------------------------------------

/// Whether lowering `e` at stack depth `d` keeps every computed slot index
/// within `usize`. This is a machine limit, not part of the language: it
/// holds for every tree the reader can produce from a slice.
pub open spec fn fits(e: ExprV, d: int) -> bool
    decreases e, 0int, 0int,
{
    match e {
        ExprV::Form(s) => {
            if s.len() == 0 {
                true
            } else {
                match s[0] {
                    ExprV::Symbol(name) => {
                        if name == kw_let() {
                            fits_let(s, d)
                        } else if name == kw_if() {
                            &&& d + 2 <= usize::MAX
                            &&& (s.len() >= 2 ==> fits(s[1], d))
                            &&& (s.len() >= 3 ==> fits(s[2], d + 1))
                            &&& (s.len() >= 4 ==> fits(s[3], d + 1))
                        } else {
                            match spec_lookup_primitive(name) {
                                Some((PrimitiveFnArity::Unary, op)) => s.len() == 2 ==> fits(
                                    s[1],
                                    d,
                                ),
                                Some((PrimitiveFnArity::NaryFold(arity, mina, ident), op)) => {
                                    &&& d + 2 <= usize::MAX
                                    &&& s.len() + 2 <= usize::MAX
                                    &&& fits_fold_args(s.skip(1), d)
                                },
                                Some((PrimitiveFnArity::NaryAllPairs(arity), op)) => {
                                    if s.len() - 1 < arity {
                                        fits_each(s.skip(1), d)
                                    } else {
                                        &&& d + (s.len() - 1) <= usize::MAX
                                        &&& fits_stair(s.skip(1), d)
                                    }
                                },
                                None => true,
                            }
                        }
                    },
                    _ => true,
                }
            }
        },
        _ => true,
    }
}

pub open spec fn fits_let(s: Seq<ExprV>, d: int) -> bool
    decreases s, 1int, 0int,
{
    if s.len() >= 2 {
        match s[1] {
            ExprV::Form(bs) => {
                &&& d + bs.len() <= usize::MAX
                &&& fits_binds(bs, d)
                &&& fits_each(s.skip(2), d + bs.len())
            },
            _ => true,
        }
    } else {
        true
    }
}

/// Every binding initializer fits, each one slot deeper than the one before.
pub open spec fn fits_binds(bs: Seq<ExprV>, d: int) -> bool
    decreases bs, 1int, 0int,
{
    if bs.len() == 0 {
        true
    } else {
        &&& (match bs[0] {
            ExprV::Form(pair) => pair.len() == 2 ==> fits(pair[1], d),
            _ => true,
        })
        &&& fits_binds(bs.skip(1), d + 1)
    }
}

/// Every expression fits at the same depth.
pub open spec fn fits_each(es: Seq<ExprV>, d: int) -> bool
    decreases es, 1int, 0int,
{
    if es.len() == 0 {
        true
    } else {
        fits(es[0], d) && fits_each(es.skip(1), d)
    }
}

/// Every expression fits, each one slot deeper than the one before.
pub open spec fn fits_stair(es: Seq<ExprV>, d: int) -> bool
    decreases es, 1int, 0int,
{
    if es.len() == 0 {
        true
    } else {
        fits(es[0], d) && fits_stair(es.skip(1), d + 1)
    }
}

/// Fold operands are lowered at `d` or one slot deeper, depending on where
/// the synthesized identities fall; demand both.
pub open spec fn fits_fold_args(es: Seq<ExprV>, d: int) -> bool
    decreases es, 1int, 0int,
{
    if es.len() == 0 {
        true
    } else {
        fits(es[0], d) && fits(es[0], d + 1) && fits_fold_args(es.skip(1), d)
    }
}

// ---------------------------------------------------------------------------
// The lowering itself
// ---------------------------------------------------------------------------

/// `FALL` instructions discarding `n` binding slots.
pub open spec fn falls(n: int) -> Seq<Instr> {
    Seq::new(if n >= 0 {
        n as nat
    } else {
        0
    }, |i: int| Instr::Fall)
}

/// The chained comparison over `n` operands resting at slots
/// `base .. base + n`: fetch each adjacent pair, compare, and conjoin every
/// result after the first.
pub open spec fn pairs_code(base: int, n: int, i: int, op: Opcode) -> Seq<Instr>
    decreases n - i,
{
    if i >= n - 1 {
        Seq::empty()
    } else {
        seq![
            Instr::Get((base + i) as usize),
            Instr::Get((base + i + 1) as usize),
            Instr::Op(op),
        ] + (if i > 0 {
            seq![Instr::Op(Opcode::And)]
        } else {
            Seq::empty()
        }) + pairs_code(base, n, i + 1, op)
    }
}

/// Whether the fold emits its opcode after the operand at virtual index `i`:
/// once the first `arity` operands are up, then after every further operand.
pub open spec fn fold_emits_op(i: int, arity: int) -> bool {
    i == arity - 1 || (i >= arity && i % (arity - 1) == 0)
}

/// Lowers one expression at stack depth `d`. Literals become one load
/// instruction; a symbol becomes a fetch of its slot; a string literal loads
/// its characters and builds the string; a form is dispatched on its head.
pub open spec fn lower_spec(e: ExprV, env: Map<Seq<u8>, usize>, d: int) -> Result<Seq<Instr>, ErrV>
    decreases e, 0int, 0int,
{
    match e {
        ExprV::Int(x) => Ok(seq![Instr::LoadInt(x)]),
        ExprV::Bool(x) => Ok(seq![Instr::LoadBool(x)]),
        ExprV::Char(x) => Ok(seq![Instr::LoadChar(x)]),
        ExprV::Null => Ok(seq![Instr::LoadNull]),
        ExprV::Str(bytes) => Ok(
            Seq::new(bytes.len(), |i: int| Instr::LoadChar(bytes[i])).push(
                Instr::MakeString(bytes.len() as usize),
            ),
        ),
        ExprV::Symbol(name) => {
            if env.contains_key(name) {
                Ok(seq![Instr::Get(env[name])])
            } else {
                Err(ErrV::UnresolvedSymbol(name))
            }
        },
        ExprV::Form(s) => {
            if s.len() == 0 {
                Err(ErrV::EmptyForm)
            } else {
                match s[0] {
                    ExprV::Symbol(name) => {
                        if env.contains_key(name) {
                            Err(ErrV::CallUnsupported(name))
                        } else if name == kw_let() {
                            lower_let_spec(s, env, d)
                        } else if name == kw_if() {
                            lower_if_spec(s, env, d)
                        } else {
                            match spec_lookup_primitive(name) {
                                Some((PrimitiveFnArity::Unary, op)) => {
                                    if s.len() != 2 {
                                        Err(ErrV::UnaryArity(name, (s.len() - 1) as usize))
                                    } else {
                                        match lower_spec(s[1], env, d) {
                                            Ok(code) => Ok(code.push(Instr::Op(op))),
                                            Err(err) => Err(err),
                                        }
                                    }
                                },
                                Some((PrimitiveFnArity::NaryFold(arity, mina, ident), op)) => {
                                    if s.len() - 1 < mina {
                                        Err(ErrV::FoldArity(name, (s.len() - 1) as usize))
                                    } else {
                                        lower_fold_spec(
                                            if s.len() - 1 < arity {
                                                arity - (s.len() - 1)
                                            } else {
                                                0
                                            },
                                            s.skip(1),
                                            0,
                                            env,
                                            d,
                                            arity as int,
                                            ident,
                                            op,
                                        )
                                    }
                                },
                                Some((PrimitiveFnArity::NaryAllPairs(arity), op)) => {
                                    if s.len() - 1 < arity {
                                        match lower_discard_spec(s.skip(1), env, d) {
                                            Ok(code) => Ok(code.push(Instr::LoadBool(true))),
                                            Err(err) => Err(err),
                                        }
                                    } else {
                                        match lower_stair_spec(s.skip(1), env, d) {
                                            Ok(code) => Ok(
                                                code + pairs_code(d, s.len() - 1, 0, op) + falls(
                                                    s.len() - 1,
                                                ),
                                            ),
                                            Err(err) => Err(err),
                                        }
                                    }
                                },
                                None => Err(ErrV::UnknownPrimitive(name)),
                            }
                        }
                    },
                    _ => Err(ErrV::HeadNotSymbol),
                }
            }
        },
    }
}

/// Lowers a `let` form: binding initializers in declaration order under the
/// enclosing environment, the body under the extended environment, one
/// discard per binding at the end.
pub open spec fn lower_let_spec(s: Seq<ExprV>, env: Map<Seq<u8>, usize>, d: int) -> Result<
    Seq<Instr>,
    ErrV,
>
    decreases s, 1int, 1int,
{
    if s.len() < 2 {
        Err(ErrV::LetBindingsNotForm)
    } else {
        match s[1] {
            ExprV::Form(bs) => match lower_binds_spec(bs, env, env, Seq::empty(), d) {
                Err(err) => Err(err),
                Ok((bcode, env2, d2)) => {
                    if s.len() == 2 {
                        Err(ErrV::LetEmptyBody)
                    } else {
                        match lower_seq_spec(s.skip(2), env2, d2) {
                            Err(err) => Err(err),
                            Ok(body) => Ok(bcode + body + falls(bs.len() as int)),
                        }
                    }
                },
            },
            _ => Err(ErrV::LetBindingsNotForm),
        }
    }
}

/// Lowers a binding list: each entry must be a two-part form naming a fresh
/// symbol; its initializer is lowered under the enclosing environment, and
/// the name is bound to the slot its value will rest in.
pub open spec fn lower_binds_spec(
    bs: Seq<ExprV>,
    enclosing: Map<Seq<u8>, usize>,
    acc: Map<Seq<u8>, usize>,
    bound: Seq<Seq<u8>>,
    d: int,
) -> Result<(Seq<Instr>, Map<Seq<u8>, usize>, int), ErrV>
    decreases bs, 1int, 0int,
{
    if bs.len() == 0 {
        Ok((Seq::empty(), acc, d))
    } else {
        match bs[0] {
            ExprV::Form(pair) => {
                if pair.len() != 2 {
                    Err(ErrV::LetBindingWrongCount)
                } else {
                    match pair[0] {
                        ExprV::Symbol(name) => {
                            if bound.contains(name) {
                                Err(ErrV::DuplicateBinding(name))
                            } else {
                                match lower_spec(pair[1], enclosing, d) {
                                    Err(err) => Err(err),
                                    Ok(code) => {
                                        match lower_binds_spec(
                                            bs.skip(1),
                                            enclosing,
                                            acc.insert(name, d as usize),
                                            bound.push(name),
                                            d + 1,
                                        ) {
                                            Err(err) => Err(err),
                                            Ok((rest, env2, d2)) => Ok((code + rest, env2, d2)),
                                        }
                                    },
                                }
                            }
                        },
                        _ => Err(ErrV::LetBindingNameNotSymbol),
                    }
                }
            },
            _ => Err(ErrV::LetBindingNotForm),
        }
    }
}

/// A successful binding list lowering binds exactly its entries, ending one
/// slot deeper per binding.
pub proof fn lemma_binds_depth(
    bs: Seq<ExprV>,
    enclosing: Map<Seq<u8>, usize>,
    acc: Map<Seq<u8>, usize>,
    bound: Seq<Seq<u8>>,
    d: int,
)
    ensures
        lower_binds_spec(bs, enclosing, acc, bound, d) matches Ok((code, env2, d2)) ==> d2 == d
            + bs.len(),
    decreases bs, 1int, 2int,
{
    if bs.len() > 0 {
        match bs[0] {
            ExprV::Form(pair) => {
                if pair.len() == 2 {
                    match pair[0] {
                        ExprV::Symbol(name) => {
                            if !bound.contains(name) {
                                match lower_spec(pair[1], enclosing, d) {
                                    Ok(code) => {
                                        lemma_binds_depth(
                                            bs.skip(1),
                                            enclosing,
                                            acc.insert(name, d as usize),
                                            bound.push(name),
                                            d + 1,
                                        );
                                    },
                                    Err(e) => {},
                                }
                            }
                        },
                        _ => {},
                    }
                }
            },
            _ => {},
        }
    }
}

/// Lowers an `if` form: the condition is compared against the false literal;
/// a conditional jump skips the consequent (whose trailing unconditional jump
/// skips the alternative). Jump distances count instructions.
pub open spec fn lower_if_spec(s: Seq<ExprV>, env: Map<Seq<u8>, usize>, d: int) -> Result<
    Seq<Instr>,
    ErrV,
>
    decreases s, 1int, 1int,
{
    if s.len() != 3 && s.len() != 4 {
        Err(ErrV::IfArity((s.len() - 1) as usize))
    } else {
        match lower_spec(s[1], env, d) {
            Err(err) => Err(err),
            Ok(cond) => match lower_spec(s[2], env, d + 1) {
                Err(err) => Err(err),
                Ok(consequent) => {
                    match (if s.len() == 4 {
                        lower_spec(s[3], env, d + 1)
                    } else {
                        Ok(seq![Instr::LoadUnspecified])
                    }) {
                        Err(err) => Err(err),
                        Ok(alternative) => Ok(
                            cond + seq![
                                Instr::LoadBool(false),
                                Instr::Op(Opcode::IdEq),
                                Instr::CJump((consequent.len() + 1) as usize),
                            ] + consequent + seq![Instr::Jump(alternative.len() as usize)]
                                + alternative,
                        ),
                    }
                },
            },
        }
    }
}

/// Lowers a sequence of body expressions sharing one environment and depth:
/// every value but the last is discarded.
pub open spec fn lower_seq_spec(es: Seq<ExprV>, env: Map<Seq<u8>, usize>, d: int) -> Result<
    Seq<Instr>,
    ErrV,
>
    decreases es, 1int, 1int,
{
    if es.len() == 0 {
        Ok(Seq::empty())
    } else {
        match lower_spec(es[0], env, d) {
            Err(err) => Err(err),
            Ok(code) => {
                if es.len() == 1 {
                    Ok(code)
                } else {
                    match lower_seq_spec(es.skip(1), env, d) {
                        Err(err) => Err(err),
                        Ok(rest) => Ok(code + seq![Instr::Forget] + rest),
                    }
                }
            },
        }
    }
}

/// Fold operands left to right: `pads` identity literals are synthesized
/// first, then the supplied operands; the opcode lands after the operand at
/// each emitting virtual index, and the running depth reflects each
/// reduction.
pub open spec fn lower_fold_spec(
    pads: int,
    args: Seq<ExprV>,
    v: int,
    env: Map<Seq<u8>, usize>,
    d: int,
    arity: int,
    ident: u64,
    op: Opcode,
) -> Result<Seq<Instr>, ErrV>
    decreases args, 1int, pads,
{
    if pads <= 0 && args.len() == 0 {
        Ok(Seq::empty())
    } else {
        let step: Result<Seq<Instr>, ErrV> = if pads > 0 {
            Ok(seq![Instr::LoadInt(ident)])
        } else {
            lower_spec(args[0], env, d)
        };
        match step {
            Err(err) => Err(err),
            Ok(code) => {
                let emits = fold_emits_op(v, arity);
                let d2 = if emits {
                    d + 2 - arity
                } else {
                    d + 1
                };
                match (if pads > 0 {
                    lower_fold_spec(pads - 1, args, v + 1, env, d2, arity, ident, op)
                } else {
                    lower_fold_spec(0, args.skip(1), v + 1, env, d2, arity, ident, op)
                }) {
                    Err(err) => Err(err),
                    Ok(rest) => Ok(
                        code + (if emits {
                            seq![Instr::Op(op)]
                        } else {
                            Seq::empty()
                        }) + rest,
                    ),
                }
            },
        }
    }
}

/// Each expression lowered at the same depth and immediately discarded, for
/// evaluation-order parity when a comparison has too few operands.
pub open spec fn lower_discard_spec(es: Seq<ExprV>, env: Map<Seq<u8>, usize>, d: int) -> Result<
    Seq<Instr>,
    ErrV,
>
    decreases es, 1int, 0int,
{
    if es.len() == 0 {
        Ok(Seq::empty())
    } else {
        match lower_spec(es[0], env, d) {
            Err(err) => Err(err),
            Ok(code) => match lower_discard_spec(es.skip(1), env, d) {
                Err(err) => Err(err),
                Ok(rest) => Ok(code + seq![Instr::Forget] + rest),
            },
        }
    }
}

/// Each expression lowered one slot deeper than the one before, leaving all
/// the values on the stack.
pub open spec fn lower_stair_spec(es: Seq<ExprV>, env: Map<Seq<u8>, usize>, d: int) -> Result<
    Seq<Instr>,
    ErrV,
>
    decreases es, 1int, 0int,
{
    if es.len() == 0 {
        Ok(Seq::empty())
    } else {
        match lower_spec(es[0], env, d) {
            Err(err) => Err(err),
            Ok(code) => match lower_stair_spec(es.skip(1), env, d + 1) {
                Err(err) => Err(err),
                Ok(rest) => Ok(code + rest),
            },
        }
    }
}

// ---------------------------------------------------------------------------
// Every tree fits if the depth leaves room for its size
// ---------------------------------------------------------------------------

pub proof fn lemma_fits_from_size(e: ExprV, d: int)
    requires
        0 <= d,
        d + esize(e) + 2 <= usize::MAX,
    ensures
        fits(e, d),
    decreases e, 0int, 0int,
{
    match e {
        ExprV::Form(s) => {
            if s.len() > 0 {
                match s[0] {
                    ExprV::Symbol(name) => {
                        if name == kw_let() {
                            lemma_fits_let_from_size(s, d);
                            assert(fits(e, d));
                        } else if name == kw_if() {
                            if s.len() >= 2 {
                                lemma_esize_seq_elem(s, 1);
                                lemma_fits_from_size(s[1], d);
                            }
                            if s.len() >= 3 {
                                lemma_esize_seq_elem(s, 2);
                                lemma_fits_from_size(s[2], d + 1);
                            }
                            if s.len() >= 4 {
                                lemma_esize_seq_elem(s, 3);
                                lemma_fits_from_size(s[3], d + 1);
                            }
                            lemma_esize_seq_len(s);
                            assert(fits(e, d));
                        } else {
                            match spec_lookup_primitive(name) {
                                Some((PrimitiveFnArity::Unary, op)) => {
                                    if s.len() == 2 {
                                        lemma_esize_seq_elem(s, 1);
                                        lemma_fits_from_size(s[1], d);
                                    }
                                    assert(fits(e, d));
                                },
                                Some((PrimitiveFnArity::NaryFold(arity, mina, ident), op)) => {
                                    lemma_esize_seq_len(s);
                                    lemma_esize_pos(s[0]);
                                    lemma_fits_fold_args_from_size(s.skip(1), d);
                                    assert(d + 2 <= usize::MAX);
                                    assert(s.len() + 2 <= usize::MAX);
                                    assert(fits(e, d));
                                },
                                Some((PrimitiveFnArity::NaryAllPairs(arity), op)) => {
                                    lemma_esize_seq_len(s);
                                    lemma_esize_pos(s[0]);
                                    if s.len() - 1 < arity {
                                        lemma_fits_each_from_size(s.skip(1), d);
                                    } else {
                                        lemma_esize_seq_len(s.skip(1));
                                        lemma_fits_stair_from_size(s.skip(1), d);
                                    }
                                    assert(fits(e, d));
                                },
                                None => {},
                            }
                        }
                    },
                    _ => {},
                }
            }
        },
        _ => {},
    }
}

proof fn lemma_fits_let_from_size(s: Seq<ExprV>, d: int)
    requires
        0 <= d,
        s.len() >= 1,
        d + esize_seq(s) + 2 <= usize::MAX,
    ensures
        fits_let(s, d),
    decreases s, 1int, 1int,
{
    if s.len() >= 2 {
        match s[1] {
            ExprV::Form(bs) => {
                lemma_esize_pos(s[0]);
                lemma_esize_seq_elem(s, 1);
                lemma_esize_seq_len(bs);
                assert(d + bs.len() <= usize::MAX);
                lemma_fits_binds_from_size(bs, d);
                // the body sits after the head and the binding list
                assert(s.skip(1)[0] == s[1]);
                assert(s.skip(1).skip(1) =~= s.skip(2));
                assert(esize_seq(s.skip(1)) == esize(s[1]) + esize_seq(s.skip(2)));
                assert(esize_seq(s) == esize(s[0]) + esize(s[1]) + esize_seq(s.skip(2)));
                lemma_fits_each_from_size(s.skip(2), d + bs.len());
            },
            _ => {},
        }
    }
}

proof fn lemma_fits_binds_from_size(bs: Seq<ExprV>, d: int)
    requires
        0 <= d,
        d + esize_seq(bs) + 2 <= usize::MAX,
    ensures
        fits_binds(bs, d),
    decreases bs, 1int, 0int,
{
    if bs.len() > 0 {
        lemma_esize_pos(bs[0]);
        lemma_esize_seq_elem(bs, 0);
        match bs[0] {
            ExprV::Form(pair) => {
                if pair.len() == 2 {
                    lemma_esize_seq_elem(pair, 1);
                    lemma_fits_from_size(pair[1], d);
                }
            },
            _ => {},
        }
        lemma_fits_binds_from_size(bs.skip(1), d + 1);
    }
}

pub proof fn lemma_fits_each_from_size(es: Seq<ExprV>, d: int)
    requires
        0 <= d,
        d + esize_seq(es) + 2 <= usize::MAX,
    ensures
        fits_each(es, d),
    decreases es, 1int, 0int,
{
    if es.len() > 0 {
        lemma_esize_pos(es[0]);
        lemma_esize_seq_len(es.skip(1));
        lemma_fits_from_size(es[0], d);
        lemma_fits_each_from_size(es.skip(1), d);
    }
}

proof fn lemma_fits_stair_from_size(es: Seq<ExprV>, d: int)
    requires
        0 <= d,
        d + esize_seq(es) + 2 <= usize::MAX,
    ensures
        fits_stair(es, d),
    decreases es, 1int, 0int,
{
    if es.len() > 0 {
        lemma_esize_pos(es[0]);
        lemma_esize_seq_len(es.skip(1));
        lemma_fits_from_size(es[0], d);
        lemma_fits_stair_from_size(es.skip(1), d + 1);
    }
}

proof fn lemma_fits_fold_args_from_size(es: Seq<ExprV>, d: int)
    requires
        0 <= d,
        d + esize_seq(es) + 3 <= usize::MAX,
    ensures
        fits_fold_args(es, d),
    decreases es, 1int, 0int,
{
    if es.len() > 0 {
        lemma_esize_pos(es[0]);
        lemma_esize_seq_len(es.skip(1));
        lemma_fits_from_size(es[0], d);
        lemma_fits_from_size(es[0], d + 1);
        lemma_fits_fold_args_from_size(es.skip(1), d);
    }
}

// ---------------------------------------------------------------------------
// The reader never produces a tree bigger than the bytes it consumed
// ---------------------------------------------------------------------------

pub proof fn lemma_expr_size(s: Seq<u8>)
    ensures
        crate::reader::expr_token(s) matches Ok(Some((e, rest))) ==> esize(e) <= s.len()
            - rest.len(),
    decreases s.len(), 1int,
{
    crate::reader::lemma_digit_run_le(s);
    crate::reader::lemma_symbol_run_le(s);
    crate::reader::lemma_string_body_len(s.skip(1));
    match crate::reader::form_token(s) {
        Ok(Some((args, rest))) => {
            if s.len() >= 1 && s[0] == '(' as u8 {
                crate::reader::lemma_atmosphere_progress(s.skip(1));
                match crate::reader::atmosphere_token(s.skip(1)) {
                    Ok(t) => {
                        if t.len() < s.len() {
                            lemma_exprs_size(t);
                            crate::reader::lemma_exprs_progress(t);
                            match crate::reader::exprs_token(t) {
                                Ok((es, u)) => {
                                    if u.len() < s.len() {
                                        crate::reader::lemma_atmosphere_progress(u);
                                    }
                                },
                                Err(e) => {},
                            }
                        }
                    },
                    Err(e) => {},
                }
            }
        },
        _ => {},
    }
}

pub proof fn lemma_exprs_size(s: Seq<u8>)
    ensures
        crate::reader::exprs_token(s) matches Ok((es, fin)) ==> esize_seq(es) <= s.len()
            - fin.len(),
    decreases s.len(), 2int,
{
    lemma_expr_size(s);
    crate::reader::lemma_expr_progress(s);
    match crate::reader::expr_token(s) {
        Ok(Some((e, rest))) => {
            crate::reader::lemma_atmosphere_progress(rest);
            match crate::reader::atmosphere_token(rest) {
                Ok(rest2) => {
                    lemma_exprs_size(rest2);
                    crate::reader::lemma_exprs_progress(rest2);
                    match crate::reader::exprs_token(rest2) {
                        Ok((es, fin)) => {
                            assert((seq![e] + es)[0] == e);
                            assert((seq![e] + es).skip(1) =~= es);
                            assert(esize_seq(seq![e] + es) == esize(e) + esize_seq(es));
                        },
                        Err(err) => {},
                    }
                },
                Err(err) => {},
            }
        },
        _ => {},
    }
}

// ---------------------------------------------------------------------------
// The executable lowering
// ---------------------------------------------------------------------------

/// Appends `n` discard-binding instructions.
fn emit_falls(out: &mut Vec<Instr>, n: usize)
    ensures
        final(out)@ == old(out)@ + falls(n as int),
{
    let mut i: usize = 0;
    while i < n
        invariant
            i <= n,
            out@ =~= old(out)@ + falls(i as int),
        decreases n - i,
    {
        out.push(Instr::Fall);
        proof {
            assert(falls(i + 1) =~= falls(i as int).push(Instr::Fall));
        }
        i = i + 1;
    }
    proof {
        assert(out@ =~= old(out)@ + falls(n as int));
    }
}

/// Appends the chained comparison over operands resting at
/// `base .. base + n`, starting with the pair at `i`.
fn emit_pairs_from(out: &mut Vec<Instr>, base: usize, n: usize, i: usize, op: Opcode)
    requires
        base + n <= usize::MAX,
        i <= n,
    ensures
        final(out)@ == old(out)@ + pairs_code(base as int, n as int, i as int, op),
    decreases n - i,
{
    if n - i <= 1 {
        proof {
            assert(old(out)@ + pairs_code(base as int, n as int, i as int, op) =~= out@);
        }
        return ;
    }
    let ghost mid = out@;
    out.push(Instr::Get(base + i));
    out.push(Instr::Get(base + i + 1));
    out.push(Instr::Op(op));
    if i > 0 {
        out.push(Instr::Op(Opcode::And));
    }
    let ghost step = out@;
    emit_pairs_from(out, base, n, i + 1, op);
    proof {
        if i > 0 {
            assert(step =~= mid + (seq![
                Instr::Get((base + i) as usize),
                Instr::Get((base + i + 1) as usize),
                Instr::Op(op),
            ] + seq![Instr::Op(Opcode::And)]));
        } else {
            assert(step =~= mid + (seq![
                Instr::Get((base + i) as usize),
                Instr::Get((base + i + 1) as usize),
                Instr::Op(op),
            ] + Seq::<Instr>::empty()));
        }
        assert(out@ =~= mid + pairs_code(base as int, n as int, i as int, op));
    }
}

/// Whether `name` is among the bound names.
fn contains_name(bound: &Vec<Vec<u8>>, name: &[u8]) -> (r: bool)
    ensures
        r == bound.deep_view().contains(name@),
{
    let mut i: usize = 0;
    while i < bound.len()
        invariant
            i <= bound@.len(),
            forall|j: int| 0 <= j < i ==> bound.deep_view()[j] != name@,
        decreases bound@.len() - i,
    {
        proof {
            assert(bound.deep_view()[i as int] =~= bound@[i as int]@);
        }
        if crate::bytes::bytes_eq(bound[i].as_slice(), name) {
            proof {
                assert(bound.deep_view()[i as int] == name@);
            }
            return true;
        }
        i = i + 1;
    }
    proof {
        assert(forall|j: int| 0 <= j < bound.deep_view().len() ==> bound.deep_view()[j] != name@);
    }
    false
}

/// Lowers each expression at the same depth, discarding each value.
fn lower_discard(
    args: Vec<Expression>,
    env: &Environment,
    depth: usize,
) -> (r: Result<Vec<Instr>, CompileError>)
    requires
        fits_each(deep_view_seq(args@), depth as int),
    ensures
        match r {
            Ok(code) => lower_discard_spec(deep_view_seq(args@), env@, depth as int) == Ok::<
                Seq<Instr>,
                ErrV,
            >(code@),
            Err(e) => lower_discard_spec(deep_view_seq(args@), env@, depth as int) == Err::<
                Seq<Instr>,
                ErrV,
            >(e@),
        },
    decreases args@, 1int, 2int,
{
    let ghost args0 = args@;
    proof {
        lemma_deep_view_seq(args0);
    }
    let mut args = args;
    if args.len() == 0 {
        let code: Vec<Instr> = Vec::new();
        proof {
            assert(deep_view_seq(args0) =~= Seq::<ExprV>::empty());
            assert(code@ =~= Seq::<Instr>::empty());
        }
        return Ok(code);
    }
    let a = args.remove(0);
    proof {
        lemma_deep_view_seq(args0.skip(1));
        assert(deep_view_seq(args0)[0] == a.deep_view());
        assert(deep_view_seq(args0).skip(1) =~= deep_view_seq(args0.skip(1)));
    }
    match lower_expression(a, env, depth) {
        Err(e) => Err(e),
        Ok(mut code) => {
            let ghost c0 = code@;
            code.push(Instr::Forget);
            match lower_discard(args, env, depth) {
                Err(e) => Err(e),
                Ok(mut rest) => {
                    let ghost r0 = rest@;
                    code.append(&mut rest);
                    proof {
                        assert(code@ =~= c0 + seq![Instr::Forget] + r0);
                    }
                    Ok(code)
                },
            }
        },
    }
}

/// Lowers each expression one slot deeper than the one before, leaving the
/// values on the stack.
fn lower_stair(
    args: Vec<Expression>,
    env: &Environment,
    depth: usize,
) -> (r: Result<Vec<Instr>, CompileError>)
    requires
        fits_stair(deep_view_seq(args@), depth as int),
        depth + args@.len() <= usize::MAX,
    ensures
        match r {
            Ok(code) => lower_stair_spec(deep_view_seq(args@), env@, depth as int) == Ok::<
                Seq<Instr>,
                ErrV,
            >(code@),
            Err(e) => lower_stair_spec(deep_view_seq(args@), env@, depth as int) == Err::<
                Seq<Instr>,
                ErrV,
            >(e@),
        },
    decreases args@, 1int, 2int,
{
    let ghost args0 = args@;
    proof {
        lemma_deep_view_seq(args0);
    }
    let mut args = args;
    if args.len() == 0 {
        let code: Vec<Instr> = Vec::new();
        proof {
            assert(deep_view_seq(args0) =~= Seq::<ExprV>::empty());
            assert(code@ =~= Seq::<Instr>::empty());
        }
        return Ok(code);
    }
    let a = args.remove(0);
    proof {
        lemma_deep_view_seq(args0.skip(1));
        assert(deep_view_seq(args0)[0] == a.deep_view());
        assert(deep_view_seq(args0).skip(1) =~= deep_view_seq(args0.skip(1)));
    }
    match lower_expression(a, env, depth) {
        Err(e) => Err(e),
        Ok(mut code) => {
            match lower_stair(args, env, depth + 1) {
                Err(e) => Err(e),
                Ok(mut rest) => {
                    code.append(&mut rest);
                    Ok(code)
                },
            }
        },
    }
}

/// Lowers fold operands left to right, emitting the opcode after each
/// reduction; `pads` synthesized identity literals come first, and `v` is the
/// current virtual operand index. The ghost `d0` is the depth the whole fold
/// started at.
fn lower_fold(
    pads: usize,
    args: Vec<Expression>,
    v: usize,
    env: &Environment,
    depth: usize,
    arity: usize,
    ident: u64,
    op: Opcode,
    Ghost(d0): Ghost<int>,
) -> (r: Result<Vec<Instr>, CompileError>)
    requires
        arity == 2,
        0 <= d0,
        d0 + 2 <= usize::MAX,
        depth as int == if v == 0 {
            d0
        } else {
            d0 + 1
        },
        fits_fold_args(deep_view_seq(args@), d0),
        v + args@.len() + pads <= usize::MAX,
    ensures
        match r {
            Ok(code) => lower_fold_spec(
                pads as int,
                deep_view_seq(args@),
                v as int,
                env@,
                depth as int,
                arity as int,
                ident,
                op,
            ) == Ok::<Seq<Instr>, ErrV>(code@),
            Err(e) => lower_fold_spec(
                pads as int,
                deep_view_seq(args@),
                v as int,
                env@,
                depth as int,
                arity as int,
                ident,
                op,
            ) == Err::<Seq<Instr>, ErrV>(e@),
        },
    decreases args@, 1int, pads,
{
    let ghost args0 = args@;
    proof {
        lemma_deep_view_seq(args0);
    }
    let mut args = args;
    if pads == 0 && args.len() == 0 {
        let code: Vec<Instr> = Vec::new();
        proof {
            assert(deep_view_seq(args0) =~= Seq::<ExprV>::empty());
            assert(code@ =~= Seq::<Instr>::empty());
        }
        return Ok(code);
    }
    let emits = v == arity - 1 || (v >= arity && v % (arity - 1) == 0);
    proof {
        assert(emits == fold_emits_op(v as int, arity as int));
    }
    let d2 = if emits {
        let t = depth + 1;
        t - arity + 1
    } else {
        depth + 1
    };
    proof {
        assert(d2 as int == if fold_emits_op(v as int, arity as int) {
            depth + 2 - arity
        } else {
            depth + 1
        });
    }
    let step: Result<Vec<Instr>, CompileError> = if pads > 0 {
        Ok(vec![Instr::LoadInt(ident)])
    } else {
        let a = args.remove(0);
        proof {
            lemma_deep_view_seq(args0.skip(1));
            assert(deep_view_seq(args0)[0] == a.deep_view());
            assert(deep_view_seq(args0).skip(1) =~= deep_view_seq(args0.skip(1)));
        }
        lower_expression(a, env, depth)
    };
    match step {
        Err(e) => Err(e),
        Ok(mut code) => {
            let rest_r = if pads > 0 {
                lower_fold(pads - 1, args, v + 1, env, d2, arity, ident, op, Ghost(d0))
            } else {
                lower_fold(0, args, v + 1, env, d2, arity, ident, op, Ghost(d0))
            };
            match rest_r {
                Err(e) => Err(e),
                Ok(mut rest) => {
                    let ghost c0 = code@;
                    proof {
                        if pads > 0 {
                            assert(c0 =~= seq![Instr::LoadInt(ident)]);
                        }
                    }
                    if emits {
                        code.push(Instr::Op(op));
                    }
                    let ghost r0 = rest@;
                    code.append(&mut rest);
                    proof {
                        if emits {
                            assert(code@ =~= c0 + seq![Instr::Op(op)] + r0);
                        } else {
                            assert(code@ =~= c0 + Seq::<Instr>::empty() + r0);
                        }
                    }
                    Ok(code)
                },
            }
        },
    }
}

/// Lowers a binding list: each entry a two-part form binding a fresh name to
/// its initializer's value; initializers see only the enclosing environment.
fn lower_binds(
    bs: Vec<Expression>,
    enclosing: &Environment,
    acc: Environment,
    bound: Vec<Vec<u8>>,
    depth: usize,
) -> (r: Result<(Vec<Instr>, Environment, usize), CompileError>)
    requires
        fits_binds(deep_view_seq(bs@), depth as int),
        depth + bs@.len() <= usize::MAX,
    ensures
        match r {
            Ok((code, env2, d2)) => lower_binds_spec(
                deep_view_seq(bs@),
                enclosing@,
                acc@,
                bound.deep_view(),
                depth as int,
            ) == Ok::<(Seq<Instr>, Map<Seq<u8>, usize>, int), ErrV>((code@, env2@, d2 as int)),
            Err(e) => lower_binds_spec(
                deep_view_seq(bs@),
                enclosing@,
                acc@,
                bound.deep_view(),
                depth as int,
            ) == Err::<(Seq<Instr>, Map<Seq<u8>, usize>, int), ErrV>(e@),
        },
    decreases bs@, 1int, 2int,
{
    let ghost bs0 = bs@;
    proof {
        lemma_deep_view_seq(bs0);
    }
    let mut bs = bs;
    if bs.len() == 0 {
        let code: Vec<Instr> = Vec::new();
        proof {
            assert(deep_view_seq(bs0) =~= Seq::<ExprV>::empty());
            assert(code@ =~= Seq::<Instr>::empty());
        }
        return Ok((code, acc, depth));
    }
    let b = bs.remove(0);
    proof {
        lemma_deep_view_seq(bs0.skip(1));
        assert(deep_view_seq(bs0)[0] == b.deep_view());
        assert(deep_view_seq(bs0).skip(1) =~= deep_view_seq(bs0.skip(1)));
    }
    match b {
        Expression::Form(mut pair) => {
            let ghost pair0 = pair@;
            proof {
                lemma_deep_view_seq(pair0);
            }
            if pair.len() != 2 {
                return Err(CompileError::LetBindingWrongCount);
            }
            let name_expr = pair.remove(0);
            let init = pair.remove(0);
            proof {
                assert(deep_view_seq(pair0)[0] == name_expr.deep_view());
                assert(deep_view_seq(pair0)[1] == init.deep_view());
            }
            match name_expr {
                Expression::Symbol(name) => {
                    if contains_name(&bound, name.as_slice()) {
                        return Err(CompileError::DuplicateBinding(name));
                    }
                    match lower_expression(init, enclosing, depth) {
                        Err(e) => Err(e),
                        Ok(mut code) => {
                            let mut acc2 = acc;
                            let mut bound2 = bound;
                            let name2 = name.clone();
                            proof {
                                assert(name2@ =~= name@);
                            }
                            acc2.bind(name, depth);
                            bound2.push(name2);
                            proof {
                                assert(forall|j: int|
                                    0 <= j < bound2@.len() ==> bound2.deep_view()[j]
                                        =~= (bound2@[j])@);
                                assert(forall|j: int|
                                    0 <= j < bound@.len() ==> bound.deep_view()[j]
                                        =~= (bound@[j])@);
                                assert(bound2.deep_view() =~= bound.deep_view().push(name2@));
                            }
                            match lower_binds(bs, enclosing, acc2, bound2, depth + 1) {
                                Err(e) => Err(e),
                                Ok((mut rest, env2, d2)) => {
                                    code.append(&mut rest);
                                    Ok((code, env2, d2))
                                },
                            }
                        },
                    }
                },
                _ => Err(CompileError::LetBindingNameNotSymbol),
            }
        },
        _ => Err(CompileError::LetBindingNotForm),
    }
}

/// Lowers one expression at the given stack depth and returns its
/// instruction sequence, exactly as `lower_spec` describes it. The expression
/// tree is consumed. The `fits` bound is a machine limit: it holds of every
/// tree the reader produces from a byte slice.
pub fn lower_expression(
    exp: Expression,
    env: &Environment,
    stack_slots_used: usize,
) -> (r: Result<Vec<Instr>, CompileError>)
    requires
        fits(exp.deep_view(), stack_slots_used as int),
    ensures
        match r {
            Ok(code) => lower_spec(exp.deep_view(), env@, stack_slots_used as int) == Ok::<
                Seq<Instr>,
                ErrV,
            >(code@),
            Err(e) => lower_spec(exp.deep_view(), env@, stack_slots_used as int) == Err::<
                Seq<Instr>,
                ErrV,
            >(e@),
        },
    decreases exp, 0int, 0int,
{
    let depth = stack_slots_used;
    match exp {
        Expression::Int(x) => {
            let code = vec![Instr::LoadInt(x)];
            proof {
                assert(code@ =~= seq![Instr::LoadInt(x)]);
            }
            Ok(code)
        },
        Expression::Bool(x) => {
            let code = vec![Instr::LoadBool(x)];
            proof {
                assert(code@ =~= seq![Instr::LoadBool(x)]);
            }
            Ok(code)
        },
        Expression::Char(x) => {
            let code = vec![Instr::LoadChar(x)];
            proof {
                assert(code@ =~= seq![Instr::LoadChar(x)]);
            }
            Ok(code)
        },
        Expression::Null => {
            let code = vec![Instr::LoadNull];
            proof {
                assert(code@ =~= seq![Instr::LoadNull]);
            }
            Ok(code)
        },
        Expression::Str(bytes) => {
            let mut code: Vec<Instr> = Vec::new();
            let n = bytes.len();
            let mut i: usize = 0;
            while i < n
                invariant
                    i <= n,
                    n == bytes@.len(),
                    code@ =~= Seq::new(i as nat, |j: int| Instr::LoadChar(bytes@[j])),
                decreases n - i,
            {
                code.push(Instr::LoadChar(bytes[i]));
                proof {
                    assert(code@ =~= Seq::new((i + 1) as nat, |j: int| Instr::LoadChar(bytes@[j])));
                }
                i = i + 1;
            }
            code.push(Instr::MakeString(n));
            proof {
                assert(code@ =~= Seq::new(bytes@.len(), |j: int| Instr::LoadChar(bytes@[j])).push(
                    Instr::MakeString(bytes@.len() as usize)));
            }
            Ok(code)
        },
        Expression::Symbol(name) => {
            match env.resolve(name.as_slice()) {
                Some(slot) => {
                    let code = vec![Instr::Get(slot)];
                    proof {
                        assert(code@ =~= seq![Instr::Get(slot)]);
                    }
                    Ok(code)
                },
                None => Err(CompileError::UnresolvedSymbol(name)),
            }
        },
        Expression::Form(mut args) => {
            let ghost s0 = args@;
            proof {
                lemma_deep_view_seq(s0);
            }
            if args.len() == 0 {
                proof {
                    assert(deep_view_seq(s0) =~= Seq::<ExprV>::empty());
                }
                return Err(CompileError::EmptyForm);
            }
            let head = args.remove(0);
            proof {
                lemma_deep_view_seq(s0.skip(1));
                assert(deep_view_seq(s0)[0] == head.deep_view());
                assert(deep_view_seq(s0).skip(1) =~= deep_view_seq(s0.skip(1)));
            }
            match head {
                Expression::Symbol(name) => {
                    if env.contains(name.as_slice()) {
                        return Err(CompileError::CallUnsupported(name));
                    }
                    let klet: Vec<u8> = vec!['l' as u8, 'e' as u8, 't' as u8];
                    proof {
                        assert(klet@ =~= crate::primitives::kw_let());
                    }
                    if crate::bytes::bytes_eq(name.as_slice(), klet.as_slice()) {
                        return lower_let(args, env, depth, Ghost(deep_view_seq(s0)));
                    }
                    let kif: Vec<u8> = vec!['i' as u8, 'f' as u8];
                    proof {
                        assert(kif@ =~= crate::primitives::kw_if());
                    }
                    if crate::bytes::bytes_eq(name.as_slice(), kif.as_slice()) {
                        return lower_if(args, env, depth, Ghost(deep_view_seq(s0)));
                    }
                    match lookup_primitive(name.as_slice()) {
                        None => Err(CompileError::UnknownPrimitive(name)),
                        Some((PrimitiveFnArity::Unary, op)) => {
                            if args.len() != 1 {
                                return Err(CompileError::UnaryArity(name, args.len()));
                            }
                            let arg = args.remove(0);
                            proof {
                                assert(deep_view_seq(s0)[1] == arg.deep_view());
                            }
                            match lower_expression(arg, env, depth) {
                                Err(e) => Err(e),
                                Ok(mut code) => {
                                    code.push(Instr::Op(op));
                                    Ok(code)
                                },
                            }
                        },
                        Some((PrimitiveFnArity::NaryFold(arity, mina, ident), op)) => {
                            if args.len() < mina {
                                return Err(CompileError::FoldArity(name, args.len()));
                            }
                            let pads = if args.len() < arity {
                                arity - args.len()
                            } else {
                                0
                            };
                            lower_fold(pads, args, 0, env, depth, arity, ident, op, Ghost(
                                depth as int))
                        },
                        Some((PrimitiveFnArity::NaryAllPairs(arity), op)) => {
                            if args.len() < arity {
                                match lower_discard(args, env, depth) {
                                    Err(e) => Err(e),
                                    Ok(mut code) => {
                                        code.push(Instr::LoadBool(true));
                                        Ok(code)
                                    },
                                }
                            } else {
                                let n = args.len();
                                match lower_stair(args, env, depth) {
                                    Err(e) => Err(e),
                                    Ok(mut code) => {
                                        let ghost chead = code@;
                                        emit_pairs_from(&mut code, depth, n, 0, op);
                                        emit_falls(&mut code, n);
                                        proof {
                                            assert(code@ =~= chead + pairs_code(
                                                depth as int,
                                                n as int,
                                                0,
                                                op,
                                            ) + falls(n as int));
                                        }
                                        Ok(code)
                                    },
                                }
                            }
                        },
                    }
                },
                _ => Err(CompileError::HeadNotSymbol),
            }
        },
    }
}

/// Lowers a `let` form, given its arguments after the keyword. The ghost `sv`
/// is the whole form's shape.
fn lower_let(
    args: Vec<Expression>,
    env: &Environment,
    depth: usize,
    Ghost(sv): Ghost<Seq<ExprV>>,
) -> (r: Result<Vec<Instr>, CompileError>)
    requires
        fits_let(sv, depth as int),
        sv.len() == args@.len() + 1,
        deep_view_seq(args@) =~= sv.skip(1),
    ensures
        match r {
            Ok(code) => lower_let_spec(sv, env@, depth as int) == Ok::<Seq<Instr>, ErrV>(code@),
            Err(e) => lower_let_spec(sv, env@, depth as int) == Err::<Seq<Instr>, ErrV>(e@),
        },
    decreases args@, 2int, 2int,
{
    let ghost args0 = args@;
    proof {
        lemma_deep_view_seq(args0);
    }
    let mut args = args;
    if args.len() == 0 {
        return Err(CompileError::LetBindingsNotForm);
    }
    let bindings_expr = args.remove(0);
    proof {
        lemma_deep_view_seq(args0.skip(1));
        assert(deep_view_seq(args0)[0] == bindings_expr.deep_view());
        assert(sv[1] == bindings_expr.deep_view());
        assert(deep_view_seq(args0).skip(1) =~= deep_view_seq(args0.skip(1)));
        assert(sv.skip(2) =~= deep_view_seq(args0.skip(1)));
    }
    match bindings_expr {
        Expression::Form(bs) => {
            let ghost bsv = deep_view_seq(bs@);
            let nb = bs.len();
            let acc = env.duplicate();
            let bound: Vec<Vec<u8>> = Vec::new();
            proof {
                lemma_deep_view_seq(bs@);
                assert(sv[1] == ExprV::Form(bsv));
                assert(bound.deep_view() =~= Seq::<Seq<u8>>::empty());
            }
            match lower_binds(bs, env, acc, bound, depth) {
                Err(e) => Err(e),
                Ok((mut code, env2, d2)) => {
                    proof {
                        lemma_binds_depth(bsv, env@, env@, Seq::empty(), depth as int);
                    }
                    if args.len() == 0 {
                        return Err(CompileError::LetEmptyBody);
                    }
                    match lower_expressions(args, &env2, d2) {
                        Err(e) => Err(e),
                        Ok(mut body) => {
                            code.append(&mut body);
                            emit_falls(&mut code, nb);
                            Ok(code)
                        },
                    }
                },
            }
        },
        _ => Err(CompileError::LetBindingsNotForm),
    }
}

/// Lowers an `if` form, given its arguments after the keyword. The ghost `sv`
/// is the whole form's shape.
fn lower_if(
    args: Vec<Expression>,
    env: &Environment,
    depth: usize,
    Ghost(sv): Ghost<Seq<ExprV>>,
) -> (r: Result<Vec<Instr>, CompileError>)
    requires
        depth + 2 <= usize::MAX,
        sv.len() >= 2 ==> fits(sv[1], depth as int),
        sv.len() >= 3 ==> fits(sv[2], depth + 1),
        sv.len() >= 4 ==> fits(sv[3], depth + 1),
        sv.len() == args@.len() + 1,
        deep_view_seq(args@) =~= sv.skip(1),
    ensures
        match r {
            Ok(code) => lower_if_spec(sv, env@, depth as int) == Ok::<Seq<Instr>, ErrV>(code@),
            Err(e) => lower_if_spec(sv, env@, depth as int) == Err::<Seq<Instr>, ErrV>(e@),
        },
    decreases args@, 2int, 2int,
{
    let ghost args0 = args@;
    proof {
        lemma_deep_view_seq(args0);
    }
    let mut args = args;
    if args.len() != 2 && args.len() != 3 {
        return Err(CompileError::IfArity(args.len()));
    }
    let cond = args.remove(0);
    let consequent_expr = args.remove(0);
    proof {
        assert(deep_view_seq(args0)[0] == cond.deep_view());
        assert(deep_view_seq(args0)[1] == consequent_expr.deep_view());
        assert(sv[1] == cond.deep_view());
        assert(sv[2] == consequent_expr.deep_view());
    }
    match lower_expression(cond, env, depth) {
        Err(e) => Err(e),
        Ok(mut code) => {
            match lower_expression(consequent_expr, env, depth + 1) {
                Err(e) => Err(e),
                Ok(mut consequent) => {
                    let alt_r: Result<Vec<Instr>, CompileError> = if args.len() > 0 {
                        let alt = args.remove(0);
                        proof {
                            assert(deep_view_seq(args0)[2] == alt.deep_view());
                            assert(sv[3] == alt.deep_view());
                        }
                        lower_expression(alt, env, depth + 1)
                    } else {
                        let one = vec![Instr::LoadUnspecified];
                        proof {
                            assert(one@ =~= seq![Instr::LoadUnspecified]);
                        }
                        Ok(one)
                    };
                    match alt_r {
                        Err(e) => Err(e),
                        Ok(mut alternative) => {
                            let ghost cons0 = consequent@;
                            consequent.push(Instr::Jump(alternative.len()));
                            code.push(Instr::LoadBool(false));
                            code.push(Instr::Op(Opcode::IdEq));
                            code.push(Instr::CJump(consequent.len()));
                            let ghost front = code@;
                            code.append(&mut consequent);
                            code.append(&mut alternative);
                            proof {
                                let condv = lower_spec(sv[1], env@, depth as int)->Ok_0;
                                let altv = (if sv.len() == 4 {
                                    lower_spec(sv[3], env@, depth + 1)
                                } else {
                                    Ok(seq![Instr::LoadUnspecified])
                                })->Ok_0;
                                assert(code@ =~= condv + seq![
                                    Instr::LoadBool(false),
                                    Instr::Op(Opcode::IdEq),
                                    Instr::CJump((cons0.len() + 1) as usize),
                                ] + cons0 + seq![Instr::Jump(altv.len() as usize)] + altv);
                            }
                            Ok(code)
                        },
                    }
                },
            }
        },
    }
}

/// Lowers a sequence of expressions sharing one environment and depth,
/// discarding every value but the last: the sequence's result.
pub fn lower_expressions(
    exps: Vec<Expression>,
    env: &Environment,
    stack_slots_used: usize,
) -> (r: Result<Vec<Instr>, CompileError>)
    requires
        fits_each(deep_view_seq(exps@), stack_slots_used as int),
    ensures
        match r {
            Ok(code) => lower_seq_spec(deep_view_seq(exps@), env@, stack_slots_used as int)
                == Ok::<Seq<Instr>, ErrV>(code@),
            Err(e) => lower_seq_spec(deep_view_seq(exps@), env@, stack_slots_used as int) == Err::<
                Seq<Instr>,
                ErrV,
            >(e@),
        },
    decreases exps@, 1int, 2int,
{
    let ghost exps0 = exps@;
    proof {
        lemma_deep_view_seq(exps0);
    }
    let mut exps = exps;
    if exps.len() == 0 {
        let code: Vec<Instr> = Vec::new();
        proof {
            assert(deep_view_seq(exps0) =~= Seq::<ExprV>::empty());
            assert(code@ =~= Seq::<Instr>::empty());
        }
        return Ok(code);
    }
    let e = exps.remove(0);
    let last = exps.len() == 0;
    proof {
        lemma_deep_view_seq(exps0.skip(1));
        assert(deep_view_seq(exps0)[0] == e.deep_view());
        assert(deep_view_seq(exps0).skip(1) =~= deep_view_seq(exps0.skip(1)));
    }
    match lower_expression(e, env, stack_slots_used) {
        Err(err) => Err(err),
        Ok(mut code) => {
            if last {
                Ok(code)
            } else {
                let ghost c0 = code@;
                code.push(Instr::Forget);
                match lower_expressions(exps, env, stack_slots_used) {
                    Err(err) => Err(err),
                    Ok(mut rest) => {
                        let ghost r0 = rest@;
                        code.append(&mut rest);
                        proof {
                            assert(code@ =~= c0 + seq![Instr::Forget] + r0);
                        }
                        Ok(code)
                    },
                }
            }
        },
    }
}

} // verus!
