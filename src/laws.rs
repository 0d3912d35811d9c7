//! Properties of the primitives, stated over the evaluator's model.
use crate::env::{eval_body, eval_exp, lookup, with_stack, EnvModel};
use crate::prims::prim_named;
use crate::prims::{lemma_div_cases, quot64, rem64, tdiv, wadd, wmul, wsub, prim_spec};
use crate::types::{ForthErr, ForthExp, ForthOp, Prim};
use vstd::prelude::*;

verus! {

/// The program `a b p`: two literals, then the primitive `p`.
pub open spec fn binary_program(a: i64, b: i64, p: Prim) -> Seq<ForthExp> {
    seq![ForthExp::Number(a), ForthExp::Number(b), ForthExp::Op(ForthOp::Prim(p))]
}

/// The program `n p`: one literal, then the primitive `p`.
pub open spec fn unary_program(n: i64, p: Prim) -> Seq<ForthExp> {
    seq![ForthExp::Number(n), ForthExp::Op(ForthOp::Prim(p))]
}

proof fn lemma_run_binary(env: EnvModel, a: i64, b: i64, p: Prim, depth: nat)
    requires
        p != Prim::Print,
    ensures
        eval_body(env, binary_program(a, b, p), depth) == ({
            let s = env.stack.push(a).push(b);
            match prim_spec(p, s) {
                Ok(t) => (with_stack(env, t), Ok::<(), ForthErr>(())),
                Err(e) => (with_stack(env, s), Err(e)),
            }
        }),
{
    let prog = binary_program(a, b, p);
    let z = ForthExp::Op(ForthOp::Prim(p));
    assert(prog.skip(1) =~= seq![ForthExp::Number(b), z]);
    assert(prog.skip(1).skip(1) =~= seq![z]);
    assert(prog.skip(1).skip(1).skip(1) =~= Seq::<ForthExp>::empty());
    let e1 = with_stack(env, env.stack.push(a));
    let e2 = with_stack(e1, e1.stack.push(b));
    assert(eval_exp(env, prog[0], depth) == (e1, Ok::<(), ForthErr>(())));
    assert(eval_exp(e1, prog.skip(1)[0], depth) == (e2, Ok::<(), ForthErr>(())));
    assert(eval_body(env, prog, depth) == eval_body(e1, prog.skip(1), depth));
    assert(eval_body(e1, prog.skip(1), depth) == eval_body(e2, prog.skip(1).skip(1), depth));
    let (e3, r3) = eval_exp(e2, z, depth);
    assert(eval_body(e3, prog.skip(1).skip(1).skip(1), depth) == (e3, Ok::<(), ForthErr>(())));
    assert(eval_body(e2, prog.skip(1).skip(1), depth) == (if r3 is Err {
        (e3, r3)
    } else {
        eval_body(e3, prog.skip(1).skip(1).skip(1), depth)
    }));
}

proof fn lemma_run_unary(env: EnvModel, n: i64, p: Prim, depth: nat)
    requires
        p != Prim::Print,
    ensures
        eval_body(env, unary_program(n, p), depth) == ({
            let s = env.stack.push(n);
            match prim_spec(p, s) {
                Ok(t) => (with_stack(env, t), Ok::<(), ForthErr>(())),
                Err(e) => (with_stack(env, s), Err(e)),
            }
        }),
{
    let prog = unary_program(n, p);
    let z = ForthExp::Op(ForthOp::Prim(p));
    assert(prog.skip(1) =~= seq![z]);
    assert(prog.skip(1).skip(1) =~= Seq::<ForthExp>::empty());
    let e1 = with_stack(env, env.stack.push(n));
    assert(eval_exp(env, prog[0], depth) == (e1, Ok::<(), ForthErr>(())));
    assert(eval_body(env, prog, depth) == eval_body(e1, prog.skip(1), depth));
    let (e3, r3) = eval_exp(e1, z, depth);
    assert(eval_body(e3, prog.skip(1).skip(1), depth) == (e3, Ok::<(), ForthErr>(())));
    assert(eval_body(e1, prog.skip(1), depth) == (if r3 is Err {
        (e3, r3)
    } else {
        eval_body(e3, prog.skip(1).skip(1), depth)
    }));
}

/// Dividing `a` by a non-zero `b` leaves the quotient truncated toward zero (wrapped only
/// for `i64::MIN / -1`), and `mod` leaves `a - b * (a / b)`.
pub proof fn law_division(env: EnvModel, a: i64, b: i64, depth: nat)
    requires
        b != 0,
    ensures
        eval_body(env, binary_program(a, b, Prim::Div), depth) == (
            with_stack(env, env.stack.push(quot64(a, b))),
            Ok::<(), ForthErr>(()),
        ),
        eval_body(env, binary_program(a, b, Prim::Mod), depth) == (
            with_stack(env, env.stack.push(rem64(a, b))),
            Ok::<(), ForthErr>(()),
        ),
        !(a == i64::MIN && b == -1) ==> quot64(a, b) == tdiv(a as int, b as int),
        rem64(a, b) == a - b * tdiv(a as int, b as int),
{
    lemma_run_binary(env, a, b, Prim::Div, depth);
    lemma_run_binary(env, a, b, Prim::Mod, depth);
    lemma_div_cases(a as int, b as int);
    let s = env.stack.push(a).push(b);
    assert(s.take(s.len() - 2) + seq![quot64(a, b)] =~= env.stack.push(quot64(a, b)));
    assert(s.take(s.len() - 2) + seq![rem64(a, b)] =~= env.stack.push(rem64(a, b)));
}

/// Dividing by zero fails, and the stack then holds both operands in their order.
pub proof fn law_division_by_zero(env: EnvModel, a: i64, depth: nat)
    ensures
        eval_body(env, binary_program(a, 0, Prim::Div), depth) == (
            with_stack(env, env.stack.push(a).push(0)),
            Err::<(), ForthErr>(ForthErr::DivisionByZero),
        ),
        eval_body(env, binary_program(a, 0, Prim::Mod), depth) == (
            with_stack(env, env.stack.push(a).push(0)),
            Err::<(), ForthErr>(ForthErr::DivisionByZero),
        ),
{
    lemma_run_binary(env, a, 0, Prim::Div, depth);
    lemma_run_binary(env, a, 0, Prim::Mod, depth);
}

/// Addition, subtraction and multiplication never fail: they wrap around.
pub proof fn law_wrapping_arithmetic(env: EnvModel, a: i64, b: i64, depth: nat)
    ensures
        eval_body(env, binary_program(a, b, Prim::Add), depth) == (
            with_stack(env, env.stack.push(wadd(a, b))),
            Ok::<(), ForthErr>(()),
        ),
        eval_body(env, binary_program(a, b, Prim::Sub), depth) == (
            with_stack(env, env.stack.push(wsub(a, b))),
            Ok::<(), ForthErr>(()),
        ),
        eval_body(env, binary_program(a, b, Prim::Mul), depth) == (
            with_stack(env, env.stack.push(wmul(a, b))),
            Ok::<(), ForthErr>(()),
        ),
        wadd(i64::MAX, 1) == i64::MIN,
{
    lemma_run_binary(env, a, b, Prim::Add, depth);
    lemma_run_binary(env, a, b, Prim::Sub, depth);
    lemma_run_binary(env, a, b, Prim::Mul, depth);
    let s = env.stack.push(a).push(b);
    assert(s.take(s.len() - 2) + seq![wadd(a, b)] =~= env.stack.push(wadd(a, b)));
    assert(s.take(s.len() - 2) + seq![wsub(a, b)] =~= env.stack.push(wsub(a, b)));
    assert(s.take(s.len() - 2) + seq![wmul(a, b)] =~= env.stack.push(wmul(a, b)));
}

/// Pushing `n` and duplicating it grows the stack by exactly two values, both `n`: one
/// more than the push alone.
pub proof fn law_dup(env: EnvModel, n: i64, depth: nat)
    ensures
        eval_body(env, unary_program(n, Prim::Dup), depth) == (
            with_stack(env, env.stack.push(n).push(n)),
            Ok::<(), ForthErr>(()),
        ),
{
    lemma_run_unary(env, n, Prim::Dup, depth);
}

/// `0 pick` does what `dup` does; `n pick` with `n` at least the depth of the stack fails
/// and leaves `n` on top.
pub proof fn law_pick(env: EnvModel, n: i64, depth: nat)
    ensures
        env.stack.len() > 0 ==> eval_body(env, unary_program(0, Prim::Pick), depth) == eval_exp(
            env,
            ForthExp::Op(ForthOp::Prim(Prim::Dup)),
            depth,
        ),
        n >= env.stack.len() ==> eval_body(env, unary_program(n, Prim::Pick), depth) == (
            with_stack(env, env.stack.push(n)),
            Err::<(), ForthErr>(ForthErr::NotEnoughValues),
        ),
{
    lemma_run_unary(env, 0, Prim::Pick, depth);
    lemma_run_unary(env, n, Prim::Pick, depth);
    if env.stack.len() > 0 {
        let s = env.stack.push(0);
        assert(s.take(s.len() - 1) + seq![s[s.len() - 2]] =~= env.stack.push(env.stack.last()));
    }
}

/// A name that nothing defines fails to evaluate, names itself in the error, and leaves the
/// state (the stack included) as it was.
pub proof fn law_undefined_word(env: EnvModel, name: String, depth: nat)
    requires
        lookup(env.words, ForthOp::Constant(name)) is None,
        lookup(env.words, ForthOp::Variable(name)) is None,
        lookup(env.words, ForthOp::UserWord(name)) is None,
        prim_named(name@) is None,
    ensures
        eval_exp(env, ForthExp::Op(ForthOp::UserWord(name)), depth) == (
            env,
            Err::<(), ForthErr>(ForthErr::Undefined(ForthOp::UserWord(name))),
        ),
{
}

} // verus!
