//! The primitive catalogue: what each primitive does to the stack.
use crate::types::{str_eq, ForthErr, Prim};
use vstd::prelude::*;
use vstd::arithmetic::div_mod::lemma_fundamental_div_mod;

verus! {

/// The truth value pushed by comparisons: all bits set.
pub const TRUE: i64 = -1;

/// The false value: zero.
pub const FALSE: i64 = 0;

pub open spec fn flag(b: bool) -> i64 {
    if b {
        TRUE
    } else {
        FALSE
    }
}

pub open spec fn abs_int(a: int) -> int {
    if a >= 0 {
        a
    } else {
        -a
    }
}

/// Integer division truncated toward zero.
pub open spec fn tdiv(a: int, b: int) -> int {
    if (a >= 0) == (b > 0) || a == 0 {
        abs_int(a) / abs_int(b)
    } else {
        -(abs_int(a) / abs_int(b))
    }
}

/// The remainder that goes with truncating division.
pub open spec fn trem(a: int, b: int) -> int {
    a - b * tdiv(a, b)
}

/// Truncating quotient, wrapped to 64 bits (only `i64::MIN / -1` wraps).
pub open spec fn quot64(a: i64, b: i64) -> i64 {
    if a == i64::MIN && b == -1 {
        i64::MIN
    } else {
        tdiv(a as int, b as int) as i64
    }
}

pub open spec fn rem64(a: i64, b: i64) -> i64 {
    trem(a as int, b as int) as i64
}

pub open spec fn wadd(a: i64, b: i64) -> i64 {
    vstd::wrapping::i64_specs::wrapping_add(a, b)
}

pub open spec fn wsub(a: i64, b: i64) -> i64 {
    vstd::wrapping::i64_specs::wrapping_sub(a, b)
}

pub open spec fn wmul(a: i64, b: i64) -> i64 {
    vstd::wrapping::i64_specs::wrapping_mul(a, b)
}

/// The stack with its top `k` values replaced by the values `vs`.
pub open spec fn replace_top(s: Seq<i64>, k: int, vs: Seq<i64>) -> Seq<i64> {
    s.take(s.len() - k) + vs
}

/// The value `k` places below the top.
pub open spec fn below(s: Seq<i64>, k: int) -> i64 {
    s[s.len() - 1 - k]
}

/// How many values a primitive needs on the stack.
pub open spec fn arity(p: Prim) -> nat {
    match p {
        Prim::Depth => 0,
        Prim::Abs | Prim::Neg | Prim::Add1 | Prim::Sub1 | Prim::Add2 | Prim::Sub2 | Prim::Mul2
        | Prim::Div2 | Prim::Dup | Prim::Drop | Prim::Pick | Prim::Roll | Prim::Print | Prim::Not
        | Prim::Invert | Prim::Lt0 | Prim::Eq0 | Prim::Gt0 => 1,
        Prim::Rot | Prim::FMD | Prim::FMDM => 3,
        Prim::Over2 | Prim::Swap2 => 4,
        _ => 2,
    }
}

/// The stack after a primitive, or its error; on every error the stack is left as it was.
/// The operands are read with the deepest one first: for `a b -`, `a` is the left operand.
pub open spec fn prim_spec(p: Prim, s: Seq<i64>) -> Result<Seq<i64>, ForthErr> {
    let n = s.len() as int;
    if n < arity(p) {
        Err(ForthErr::EmptyStack)
    } else {
        let x = below(s, 0);
        let y = below(s, 1);
        let z = below(s, 2);
        match p {
            Prim::Add => Ok(replace_top(s, 2, seq![wadd(y, x)])),
            Prim::Sub => Ok(replace_top(s, 2, seq![wsub(y, x)])),
            Prim::Mul => Ok(replace_top(s, 2, seq![wmul(y, x)])),
            Prim::Div => if x == 0 {
                Err(ForthErr::DivisionByZero)
            } else {
                Ok(replace_top(s, 2, seq![quot64(y, x)]))
            },
            Prim::Mod => if x == 0 {
                Err(ForthErr::DivisionByZero)
            } else {
                Ok(replace_top(s, 2, seq![rem64(y, x)]))
            },
            Prim::DivMod => if x == 0 {
                Err(ForthErr::DivisionByZero)
            } else {
                Ok(replace_top(s, 2, seq![rem64(y, x), quot64(y, x)]))
            },
            Prim::FMD => if x == 0 {
                Err(ForthErr::DivisionByZero)
            } else {
                Ok(replace_top(s, 3, seq![quot64(wmul(z, y), x)]))
            },
            Prim::FMDM => if x == 0 {
                Err(ForthErr::DivisionByZero)
            } else {
                Ok(replace_top(s, 3, seq![rem64(wmul(z, y), x), quot64(wmul(z, y), x)]))
            },
            Prim::Abs => Ok(replace_top(s, 1, seq![if x < 0 { wsub(0, x) } else { x }])),
            Prim::Neg => Ok(replace_top(s, 1, seq![wsub(0, x)])),
            Prim::Add1 => Ok(replace_top(s, 1, seq![wadd(x, 1)])),
            Prim::Sub1 => Ok(replace_top(s, 1, seq![wsub(x, 1)])),
            Prim::Add2 => Ok(replace_top(s, 1, seq![wadd(x, 2)])),
            Prim::Sub2 => Ok(replace_top(s, 1, seq![wsub(x, 2)])),
            Prim::Mul2 => Ok(replace_top(s, 1, seq![wmul(x, 2)])),
            Prim::Div2 => Ok(replace_top(s, 1, seq![quot64(x, 2)])),
            Prim::Dup => Ok(s.push(x)),
            Prim::Drop => Ok(replace_top(s, 1, seq![])),
            Prim::Over => Ok(s.push(y)),
            Prim::Rot => Ok(replace_top(s, 3, seq![y, x, z])),
            Prim::Swap => Ok(replace_top(s, 2, seq![x, y])),
            Prim::Dup2 => Ok(s + seq![y, x]),
            Prim::Drop2 => Ok(replace_top(s, 2, seq![])),
            Prim::Over2 => Ok(s + seq![below(s, 3), z]),
            Prim::Swap2 => Ok(replace_top(s, 4, seq![y, x, below(s, 3), z])),
            Prim::Pick => if 0 <= x && x < n - 1 {
                Ok(replace_top(s, 1, seq![below(s, x + 1)]))
            } else {
                Err(ForthErr::NotEnoughValues)
            },
            Prim::Roll => if 0 <= x && x < n - 1 {
                Ok(s.take(n - 2 - x) + s.subrange(n - 1 - x, n - 1) + seq![below(s, x + 1)])
            } else {
                Err(ForthErr::NotEnoughValues)
            },
            Prim::Depth => Ok(s.push(n as i64)),
            Prim::Print => Ok(replace_top(s, 1, seq![])),
            Prim::And => Ok(replace_top(s, 2, seq![y & x])),
            Prim::Or => Ok(replace_top(s, 2, seq![y | x])),
            Prim::Xor => Ok(replace_top(s, 2, seq![y ^ x])),
            Prim::Not => Ok(replace_top(s, 1, seq![flag(x == 0)])),
            Prim::Invert => Ok(replace_top(s, 1, seq![!x])),
            Prim::Lt => Ok(replace_top(s, 2, seq![flag(y < x)])),
            Prim::Gt => Ok(replace_top(s, 2, seq![flag(y > x)])),
            Prim::Equal => Ok(replace_top(s, 2, seq![flag(y == x)])),
            Prim::Le => Ok(replace_top(s, 2, seq![flag(y <= x)])),
            Prim::Ge => Ok(replace_top(s, 2, seq![flag(y >= x)])),
            Prim::Ne => Ok(replace_top(s, 2, seq![flag(y != x)])),
            Prim::Lt0 => Ok(replace_top(s, 1, seq![flag(x < 0)])),
            Prim::Eq0 => Ok(replace_top(s, 1, seq![flag(x == 0)])),
            Prim::Gt0 => Ok(replace_top(s, 1, seq![flag(x > 0)])),
        }
    }
}

fn flag_of(b: bool) -> (r: i64)
    ensures
        r == flag(b),
{
    if b {
        TRUE
    } else {
        FALSE
    }
}

pub proof fn lemma_div_cases(a: int, b: int)
    requires
        b != 0,
    ensures
        a == 0 ==> tdiv(a, b) == 0,
        a > 0 && b > 0 ==> tdiv(a, b) == a / b,
        a < 0 && b < 0 ==> tdiv(a, b) == (a * -1) / (b * -1),
        a < 0 && b > 0 ==> tdiv(a, b) == ((a * -1) / b) * -1,
        a > 0 && b < 0 ==> tdiv(a, b) == (a / (b * -1)) * -1,
        abs_int(tdiv(a, b)) <= abs_int(a),
        abs_int(b) >= 2 ==> 2 * abs_int(tdiv(a, b)) <= abs_int(a),
        b == 1 ==> tdiv(a, b) == a,
        b == -1 ==> tdiv(a, b) == -a,
        abs_int(trem(a, b)) < abs_int(b),
        a >= 0 ==> trem(a, b) >= 0,
        a <= 0 ==> trem(a, b) <= 0,
        a == 0 ==> trem(a, b) == 0,
        a > 0 && b > 0 ==> trem(a, b) == a % b,
        a < 0 && b < 0 ==> trem(a, b) == ((a * -1) % (b * -1)) * -1,
        a < 0 && b > 0 ==> trem(a, b) == ((a * -1) % b) * -1,
        a > 0 && b < 0 ==> trem(a, b) == a % (b * -1),
{
    let q = abs_int(a) / abs_int(b);
    let r = abs_int(a) % abs_int(b);
    lemma_fundamental_div_mod(abs_int(a), abs_int(b));
    assert(0 <= r < abs_int(b));
    assert(abs_int(a) == abs_int(b) * q + r);
    assert(q >= 0) by (nonlinear_arith)
        requires abs_int(a) >= 0, abs_int(b) > 0, q == abs_int(a) / abs_int(b);
    assert(q <= abs_int(a)) by (nonlinear_arith)
        requires abs_int(a) == abs_int(b) * q + r, abs_int(b) >= 1, q >= 0, r >= 0;
    if abs_int(b) >= 2 {
        assert(2 * q <= abs_int(a)) by (nonlinear_arith)
            requires abs_int(a) == abs_int(b) * q + r, abs_int(b) >= 2, q >= 0, r >= 0;
    }
    if abs_int(b) == 1 {
        assert(q == abs_int(a)) by (nonlinear_arith)
            requires abs_int(a) == abs_int(b) * q + r, abs_int(b) == 1, 0 <= r < abs_int(b);
    }
    if a == 0 {
        assert(q == 0) by (nonlinear_arith)
            requires abs_int(a) == 0, abs_int(b) > 0, q == abs_int(a) / abs_int(b);
    }
    if (a >= 0) == (b > 0) || a == 0 {
        assert(tdiv(a, b) == q);
        if a >= 0 && b > 0 {
            assert(trem(a, b) == r) by (nonlinear_arith)
                requires a == b * q + r, trem(a, b) == a - b * tdiv(a, b), tdiv(a, b) == q;
        } else if a == 0 {
            assert(trem(a, b) == 0) by (nonlinear_arith)
                requires trem(a, b) == a - b * tdiv(a, b), tdiv(a, b) == 0, a == 0;
        } else {
            assert(trem(a, b) == -r) by (nonlinear_arith)
                requires -a == -b * q + r, trem(a, b) == a - b * tdiv(a, b), tdiv(a, b) == q;
        }
    } else {
        assert(tdiv(a, b) == -q);
        if a > 0 {
            assert(trem(a, b) == r) by (nonlinear_arith)
                requires a == -b * q + r, trem(a, b) == a - b * tdiv(a, b), tdiv(a, b) == -q;
        } else {
            assert(trem(a, b) == -r) by (nonlinear_arith)
                requires -a == b * q + r, trem(a, b) == a - b * tdiv(a, b), tdiv(a, b) == -q;
        }
    }
}

/// Truncating division that wraps `i64::MIN / -1` to `i64::MIN`.
pub fn quot_wrap(a: i64, b: i64) -> (r: i64)
    requires
        b != 0,
    ensures
        r == quot64(a, b),
{
    proof {
        lemma_div_cases(a as int, b as int);
    }
    if a == i64::MIN && b == -1 {
        i64::MIN
    } else {
        match a.checked_div(b) {
            Some(q) => q,
            None => 0,
        }
    }
}

/// The remainder of truncating division; `i64::MIN rem -1` is zero.
pub fn rem_wrap(a: i64, b: i64) -> (r: i64)
    requires
        b != 0,
    ensures
        r == rem64(a, b),
{
    proof {
        lemma_div_cases(a as int, b as int);
    }
    if a == i64::MIN && b == -1 {
        assert(tdiv(a as int, b as int) == 0x8000_0000_0000_0000);
        0
    } else {
        match a.checked_rem(b) {
            Some(m) => m,
            None => 0,
        }
    }
}

fn arity_of(p: Prim) -> (r: usize)
    ensures
        r == arity(p),
{
    match p {
        Prim::Depth => 0,
        Prim::Abs | Prim::Neg | Prim::Add1 | Prim::Sub1 | Prim::Add2 | Prim::Sub2 | Prim::Mul2
        | Prim::Div2 | Prim::Dup | Prim::Drop | Prim::Pick | Prim::Roll | Prim::Print | Prim::Not
        | Prim::Invert | Prim::Lt0 | Prim::Eq0 | Prim::Gt0 => 1,
        Prim::Rot | Prim::FMD | Prim::FMDM => 3,
        Prim::Over2 | Prim::Swap2 => 4,
        _ => 2,
    }
}

/// Replaces the top `k` values by `v`.
fn put(stack: &mut Vec<i64>, k: usize, v: i64)
    requires
        k <= old(stack)@.len(),
    ensures
        final(stack)@ == replace_top(old(stack)@, k as int, seq![v]),
{
    let n = stack.len();
    stack.truncate(n - k);
    stack.push(v);
    proof {
        assert(final(stack)@ =~= replace_top(old(stack)@, k as int, seq![v]));
    }
}

/// Replaces the top `k` values by `v`, then `w`.
fn put2(stack: &mut Vec<i64>, k: usize, v: i64, w: i64)
    requires
        k <= old(stack)@.len(),
    ensures
        final(stack)@ == replace_top(old(stack)@, k as int, seq![v, w]),
{
    let n = stack.len();
    stack.truncate(n - k);
    stack.push(v);
    stack.push(w);
    proof {
        assert(final(stack)@ =~= replace_top(old(stack)@, k as int, seq![v, w]));
    }
}

/// Runs a primitive on the stack. On failure the stack is left as it was.
pub fn apply_prim(stack: &mut Vec<i64>, p: Prim) -> (r: Result<(), ForthErr>)
    ensures
        match prim_spec(p, old(stack)@) {
            Ok(t) => r is Ok && final(stack)@ == t,
            Err(e) => r == Err::<(), ForthErr>(e) && final(stack)@ == old(stack)@,
        },
{
    let n = stack.len();
    if n < arity_of(p) {
        return Err(ForthErr::EmptyStack);
    }
    let ghost s = stack@;
    let x: i64 = if n >= 1 { stack[n - 1] } else { 0 };
    let y: i64 = if n >= 2 { stack[n - 2] } else { 0 };
    let z: i64 = if n >= 3 { stack[n - 3] } else { 0 };
    let w: i64 = if n >= 4 { stack[n - 4] } else { 0 };
    match p {
        Prim::Add => put(stack, 2, y.wrapping_add(x)),
        Prim::Sub => put(stack, 2, y.wrapping_sub(x)),
        Prim::Mul => put(stack, 2, y.wrapping_mul(x)),
        Prim::Div => {
            if x == 0 {
                return Err(ForthErr::DivisionByZero);
            }
            put(stack, 2, quot_wrap(y, x));
        },
        Prim::Mod => {
            if x == 0 {
                return Err(ForthErr::DivisionByZero);
            }
            put(stack, 2, rem_wrap(y, x));
        },
        Prim::DivMod => {
            if x == 0 {
                return Err(ForthErr::DivisionByZero);
            }
            put2(stack, 2, rem_wrap(y, x), quot_wrap(y, x));
        },
        Prim::FMD => {
            if x == 0 {
                return Err(ForthErr::DivisionByZero);
            }
            put(stack, 3, quot_wrap(z.wrapping_mul(y), x));
        },
        Prim::FMDM => {
            if x == 0 {
                return Err(ForthErr::DivisionByZero);
            }
            let m = z.wrapping_mul(y);
            put2(stack, 3, rem_wrap(m, x), quot_wrap(m, x));
        },
        Prim::Abs => put(stack, 1, if x < 0 { 0i64.wrapping_sub(x) } else { x }),
        Prim::Neg => put(stack, 1, 0i64.wrapping_sub(x)),
        Prim::Add1 => put(stack, 1, x.wrapping_add(1)),
        Prim::Sub1 => put(stack, 1, x.wrapping_sub(1)),
        Prim::Add2 => put(stack, 1, x.wrapping_add(2)),
        Prim::Sub2 => put(stack, 1, x.wrapping_sub(2)),
        Prim::Mul2 => put(stack, 1, x.wrapping_mul(2)),
        Prim::Div2 => put(stack, 1, quot_wrap(x, 2)),
        Prim::Dup => stack.push(x),
        Prim::Drop => {
            stack.pop();
        },
        Prim::Over => stack.push(y),
        Prim::Rot => {
            stack.truncate(n - 3);
            stack.push(y);
            stack.push(x);
            stack.push(z);
            proof {
                assert(stack@ =~= replace_top(s, 3, seq![y, x, z]));
            }
        },
        Prim::Swap => put2(stack, 2, x, y),
        Prim::Dup2 => {
            stack.push(y);
            stack.push(x);
            proof {
                assert(stack@ =~= s + seq![y, x]);
            }
        },
        Prim::Drop2 => {
            stack.truncate(n - 2);
            proof {
                assert(stack@ =~= replace_top(s, 2, seq![]));
            }
        },
        Prim::Over2 => {
            stack.push(w);
            stack.push(z);
            proof {
                assert(stack@ =~= s + seq![w, z]);
            }
        },
        Prim::Swap2 => {
            stack.truncate(n - 4);
            stack.push(y);
            stack.push(x);
            stack.push(w);
            stack.push(z);
            proof {
                assert(stack@ =~= replace_top(s, 4, seq![y, x, w, z]));
            }
        },
        Prim::Pick => {
            if x < 0 || x as u64 >= (n - 1) as u64 {
                return Err(ForthErr::NotEnoughValues);
            }
            let v = stack[n - 2 - x as usize];
            put(stack, 1, v);
        },
        Prim::Roll => {
            if x < 0 || x as u64 >= (n - 1) as u64 {
                return Err(ForthErr::NotEnoughValues);
            }
            stack.pop();
            let v = stack.remove(n - 2 - x as usize);
            stack.push(v);
            proof {
                assert(stack@ =~= s.take(n - 2 - x) + s.subrange(n - 1 - x, n - 1) + seq![
                    below(s, x + 1),
                ]);
            }
        },
        Prim::Depth => stack.push(n as i64),
        Prim::Print => {
            stack.pop();
        },
        Prim::And => put(stack, 2, y & x),
        Prim::Or => put(stack, 2, y | x),
        Prim::Xor => put(stack, 2, y ^ x),
        Prim::Not => put(stack, 1, flag_of(x == 0)),
        Prim::Invert => put(stack, 1, !x),
        Prim::Lt => put(stack, 2, flag_of(y < x)),
        Prim::Gt => put(stack, 2, flag_of(y > x)),
        Prim::Equal => put(stack, 2, flag_of(y == x)),
        Prim::Le => put(stack, 2, flag_of(y <= x)),
        Prim::Ge => put(stack, 2, flag_of(y >= x)),
        Prim::Ne => put(stack, 2, flag_of(y != x)),
        Prim::Lt0 => put(stack, 1, flag_of(x < 0)),
        Prim::Eq0 => put(stack, 1, flag_of(x == 0)),
        Prim::Gt0 => put(stack, 1, flag_of(x > 0)),
    }
    proof {
        if p == Prim::Drop || p == Prim::Print {
            assert(stack@ =~= replace_top(s, 1, seq![]));
        }
    }
    Ok(())
}

/// The primitive a (lower-case) name stands for.
pub open spec fn prim_named(t: Seq<char>) -> Option<Prim> {
    if t == "+"@ {
        Some(Prim::Add)
    } else if t == "-"@ {
        Some(Prim::Sub)
    } else if t == "*"@ {
        Some(Prim::Mul)
    } else if t == "/"@ {
        Some(Prim::Div)
    } else if t == "mod"@ {
        Some(Prim::Mod)
    } else if t == "/mod"@ {
        Some(Prim::DivMod)
    } else if t == "*/"@ {
        Some(Prim::FMD)
    } else if t == "*/mod"@ {
        Some(Prim::FMDM)
    } else if t == "abs"@ {
        Some(Prim::Abs)
    } else if t == "negate"@ {
        Some(Prim::Neg)
    } else if t == "1+"@ {
        Some(Prim::Add1)
    } else if t == "1-"@ {
        Some(Prim::Sub1)
    } else if t == "2+"@ {
        Some(Prim::Add2)
    } else if t == "2-"@ {
        Some(Prim::Sub2)
    } else if t == "2*"@ {
        Some(Prim::Mul2)
    } else if t == "2/"@ {
        Some(Prim::Div2)
    } else if t == "dup"@ {
        Some(Prim::Dup)
    } else if t == "drop"@ {
        Some(Prim::Drop)
    } else if t == "over"@ {
        Some(Prim::Over)
    } else if t == "rot"@ {
        Some(Prim::Rot)
    } else if t == "swap"@ {
        Some(Prim::Swap)
    } else if t == "2dup"@ {
        Some(Prim::Dup2)
    } else if t == "2drop"@ {
        Some(Prim::Drop2)
    } else if t == "2over"@ {
        Some(Prim::Over2)
    } else if t == "2swap"@ {
        Some(Prim::Swap2)
    } else if t == "pick"@ {
        Some(Prim::Pick)
    } else if t == "roll"@ {
        Some(Prim::Roll)
    } else if t == "depth"@ {
        Some(Prim::Depth)
    } else if t == "."@ {
        Some(Prim::Print)
    } else if t == "and"@ {
        Some(Prim::And)
    } else if t == "or"@ {
        Some(Prim::Or)
    } else if t == "xor"@ {
        Some(Prim::Xor)
    } else if t == "not"@ {
        Some(Prim::Not)
    } else if t == "invert"@ {
        Some(Prim::Invert)
    } else if t == "<"@ {
        Some(Prim::Lt)
    } else if t == ">"@ {
        Some(Prim::Gt)
    } else if t == "="@ {
        Some(Prim::Equal)
    } else if t == "<="@ {
        Some(Prim::Le)
    } else if t == ">="@ {
        Some(Prim::Ge)
    } else if t == "<>"@ {
        Some(Prim::Ne)
    } else if t == "0<"@ {
        Some(Prim::Lt0)
    } else if t == "0="@ {
        Some(Prim::Eq0)
    } else if t == "0>"@ {
        Some(Prim::Gt0)
    } else {
        None
    }
}

/// Looks a (lower-case) name up in the primitive table.
pub fn prim_of(t: &str) -> (r: Option<Prim>)
    ensures
        r == prim_named(t@),
{
    if str_eq(t, "+") {
        Some(Prim::Add)
    } else if str_eq(t, "-") {
        Some(Prim::Sub)
    } else if str_eq(t, "*") {
        Some(Prim::Mul)
    } else if str_eq(t, "/") {
        Some(Prim::Div)
    } else if str_eq(t, "mod") {
        Some(Prim::Mod)
    } else if str_eq(t, "/mod") {
        Some(Prim::DivMod)
    } else if str_eq(t, "*/") {
        Some(Prim::FMD)
    } else if str_eq(t, "*/mod") {
        Some(Prim::FMDM)
    } else if str_eq(t, "abs") {
        Some(Prim::Abs)
    } else if str_eq(t, "negate") {
        Some(Prim::Neg)
    } else if str_eq(t, "1+") {
        Some(Prim::Add1)
    } else if str_eq(t, "1-") {
        Some(Prim::Sub1)
    } else if str_eq(t, "2+") {
        Some(Prim::Add2)
    } else if str_eq(t, "2-") {
        Some(Prim::Sub2)
    } else if str_eq(t, "2*") {
        Some(Prim::Mul2)
    } else if str_eq(t, "2/") {
        Some(Prim::Div2)
    } else if str_eq(t, "dup") {
        Some(Prim::Dup)
    } else if str_eq(t, "drop") {
        Some(Prim::Drop)
    } else if str_eq(t, "over") {
        Some(Prim::Over)
    } else if str_eq(t, "rot") {
        Some(Prim::Rot)
    } else if str_eq(t, "swap") {
        Some(Prim::Swap)
    } else if str_eq(t, "2dup") {
        Some(Prim::Dup2)
    } else if str_eq(t, "2drop") {
        Some(Prim::Drop2)
    } else if str_eq(t, "2over") {
        Some(Prim::Over2)
    } else if str_eq(t, "2swap") {
        Some(Prim::Swap2)
    } else if str_eq(t, "pick") {
        Some(Prim::Pick)
    } else if str_eq(t, "roll") {
        Some(Prim::Roll)
    } else if str_eq(t, "depth") {
        Some(Prim::Depth)
    } else if str_eq(t, ".") {
        Some(Prim::Print)
    } else if str_eq(t, "and") {
        Some(Prim::And)
    } else if str_eq(t, "or") {
        Some(Prim::Or)
    } else if str_eq(t, "xor") {
        Some(Prim::Xor)
    } else if str_eq(t, "not") {
        Some(Prim::Not)
    } else if str_eq(t, "invert") {
        Some(Prim::Invert)
    } else if str_eq(t, "<") {
        Some(Prim::Lt)
    } else if str_eq(t, ">") {
        Some(Prim::Gt)
    } else if str_eq(t, "=") {
        Some(Prim::Equal)
    } else if str_eq(t, "<=") {
        Some(Prim::Le)
    } else if str_eq(t, ">=") {
        Some(Prim::Ge)
    } else if str_eq(t, "<>") {
        Some(Prim::Ne)
    } else if str_eq(t, "0<") {
        Some(Prim::Lt0)
    } else if str_eq(t, "0=") {
        Some(Prim::Eq0)
    } else if str_eq(t, "0>") {
        Some(Prim::Gt0)
    } else {
        None
    }
}

} // verus!
