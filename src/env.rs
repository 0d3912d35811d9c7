//! The session state (dictionary, variable store, stack) and the evaluator.
use crate::prims::{apply_prim, prim_of, prim_named, prim_spec};
use crate::types::{
    copy_func, copy_op, lemma_words_push, op_eq, words_model, same_op, ForthErr, ForthExp, ForthFunc, ForthOp,
    FuncModel, Prim,
};
use vstd::prelude::*;

verus! {

/// How deeply word calls and control constructs may nest.
pub const MAX_DEPTH: u64 = 256;

/// How many passes one activation of a loop may make.
pub const MAX_LOOP_ITERATIONS: u64 = 0xffff_ffff_ffff_ffff;

/// The evaluation state of a session.
pub struct ForthEnv {
    /// Dictionary entries in order of definition; a later entry shadows an earlier one.
    pub words: Vec<(ForthOp, ForthFunc)>,
    /// The data stack, top last.
    pub stack: Vec<i64>,
    /// Variable cells.
    pub variables: Vec<(String, i64)>,
    /// Values handed to the print primitive, oldest first.
    pub printed: Vec<i64>,
}

/// Model of the evaluation state.
pub struct EnvModel {
    pub words: Seq<(ForthOp, FuncModel)>,
    pub stack: Seq<i64>,
    pub variables: Seq<(String, i64)>,
    pub printed: Seq<i64>,
}

impl View for ForthEnv {
    type V = EnvModel;

    open spec fn view(&self) -> EnvModel {
        EnvModel {
            words: words_model(self.words@),
            stack: self.stack@,
            variables: self.variables@,
            printed: self.printed@,
        }
    }
}

/// The behaviour the dictionary binds to `k`: the latest entry with that key.
pub open spec fn lookup(words: Seq<(ForthOp, FuncModel)>, k: ForthOp) -> Option<FuncModel>
    decreases words.len(),
{
    if words.len() == 0 {
        None
    } else if same_op(words.last().0, k) {
        Some(words.last().1)
    } else {
        lookup(words.drop_last(), k)
    }
}

/// What an identifier resolves to. A bare name is looked up as a constant, then as a
/// variable, then as a user word, then as a primitive.
pub open spec fn resolve(words: Seq<(ForthOp, FuncModel)>, op: ForthOp) -> Result<FuncModel, ForthErr> {
    match op {
        ForthOp::Prim(p) => Ok(FuncModel::Native(p)),
        ForthOp::UserWord(name) => {
            if lookup(words, ForthOp::Constant(name)) is Some {
                Ok(lookup(words, ForthOp::Constant(name))->0)
            } else if lookup(words, ForthOp::Variable(name)) is Some {
                Ok(lookup(words, ForthOp::Variable(name))->0)
            } else if lookup(words, op) is Some {
                Ok(lookup(words, op)->0)
            } else if prim_named(name@) is Some {
                Ok(FuncModel::Native(prim_named(name@)->0))
            } else {
                Err(ForthErr::Undefined(op))
            }
        },
        _ => match lookup(words, op) {
            Some(f) => Ok(f),
            None => Err(ForthErr::Undefined(op)),
        },
    }
}

/// Index of the cell named `name` (the latest one), or -1.
pub open spec fn var_index(vs: Seq<(String, i64)>, name: Seq<char>) -> int
    decreases vs.len(),
{
    if vs.len() == 0 {
        -1
    } else if vs.last().0@ == name {
        vs.len() - 1
    } else {
        var_index(vs.drop_last(), name)
    }
}

pub open spec fn var_get(vs: Seq<(String, i64)>, name: Seq<char>) -> Option<i64> {
    let i = var_index(vs, name);
    if i < 0 {
        None
    } else {
        Some(vs[i].1)
    }
}

/// The store with the cell `name` holding `v`; a new cell is added when there is none.
pub open spec fn var_set(vs: Seq<(String, i64)>, name: String, v: i64) -> Seq<(String, i64)> {
    let i = var_index(vs, name@);
    if i < 0 {
        vs.push((name, v))
    } else {
        vs.update(i, (vs[i].0, v))
    }
}

pub open spec fn with_stack(env: EnvModel, s: Seq<i64>) -> EnvModel {
    EnvModel { stack: s, ..env }
}

/// Evaluates one expression; `depth` bounds the nesting of bodies it may enter.
pub open spec fn eval_exp(env: EnvModel, e: ForthExp, depth: nat) -> (EnvModel, Result<(), ForthErr>)
    decreases depth, 2nat, 0nat,
{
    match e {
        ForthExp::Number(n) => (with_stack(env, env.stack.push(n)), Ok(())),
        ForthExp::Op(op) => match resolve(env.words, op) {
            Err(err) => (env, Err(err)),
            Ok(f) => run_func(env, f, depth),
        },
    }
}

/// Runs a behaviour against the state.
pub open spec fn run_func(env: EnvModel, f: FuncModel, depth: nat) -> (EnvModel, Result<(), ForthErr>)
    decreases depth, 1nat, 0nat,
{
    match f {
        FuncModel::Native(p) => match prim_spec(p, env.stack) {
            Ok(s) => (
                EnvModel {
                    stack: s,
                    printed: if p == Prim::Print {
                        env.printed.push(env.stack.last())
                    } else {
                        env.printed
                    },
                    ..env
                },
                Ok(()),
            ),
            Err(err) => (env, Err(err)),
        },
        FuncModel::User(body) => if depth == 0 {
            (env, Err(ForthErr::TooDeep))
        } else {
            eval_body(env, body, (depth - 1) as nat)
        },
        FuncModel::Variable => (env, Ok(())),
        FuncModel::ConstantDef(name) => if env.stack.len() == 0 {
            (env, Err(ForthErr::NoConstantValue))
        } else {
            (
                EnvModel {
                    stack: env.stack.drop_last(),
                    words: env.words.push(
                        (
                            ForthOp::Constant(name),
                            FuncModel::User(seq![ForthExp::Number(env.stack.last())]),
                        ),
                    ),
                    ..env
                },
                Ok(()),
            )
        },
        FuncModel::GetVar(name) => match var_get(env.variables, name@) {
            Some(v) => (with_stack(env, env.stack.push(v)), Ok(())),
            None => (env, Err(ForthErr::UndefinedVariable(name))),
        },
        FuncModel::SetVar(name) => if var_get(env.variables, name@) is None {
            (env, Err(ForthErr::UndefinedVariable(name)))
        } else if env.stack.len() == 0 {
            (env, Err(ForthErr::EmptyStack))
        } else {
            (
                EnvModel {
                    stack: env.stack.drop_last(),
                    variables: var_set(env.variables, name, env.stack.last()),
                    ..env
                },
                Ok(()),
            )
        },
        FuncModel::IfThenElse(t, e) => if depth == 0 {
            (env, Err(ForthErr::TooDeep))
        } else if env.stack.len() == 0 {
            (env, Err(ForthErr::EmptyStack))
        } else {
            let env1 = with_stack(env, env.stack.drop_last());
            if env.stack.last() != 0 {
                eval_body(env1, t, (depth - 1) as nat)
            } else {
                match e {
                    Some(b) => eval_body(env1, b, (depth - 1) as nat),
                    None => (env1, Ok(())),
                }
            }
        },
        FuncModel::BeginUntil(b) => loop_until(env, b, depth, MAX_LOOP_ITERATIONS as nat),
        FuncModel::BeginWhile(h, b) => loop_while(env, h, b, depth, MAX_LOOP_ITERATIONS as nat),
    }
}

/// `begin body until`: runs the body, pops a flag, and stops once the flag is non-zero.
pub open spec fn loop_until(env: EnvModel, body: Seq<ForthExp>, depth: nat, iters: nat) -> (
    EnvModel,
    Result<(), ForthErr>,
)
    decreases depth, 0nat, iters,
{
    if depth == 0 {
        (env, Err(ForthErr::TooDeep))
    } else if iters == 0 {
        (env, Err(ForthErr::TooManyIterations))
    } else {
        let (e1, r) = eval_body(env, body, (depth - 1) as nat);
        if r is Err {
            (e1, r)
        } else if e1.stack.len() == 0 {
            (e1, Err(ForthErr::EmptyStack))
        } else {
            let e2 = with_stack(e1, e1.stack.drop_last());
            if e1.stack.last() != 0 {
                (e2, Ok(()))
            } else {
                loop_until(e2, body, depth, (iters - 1) as nat)
            }
        }
    }
}

/// `begin head while body repeat`: runs the head, pops a flag, stops on zero, else runs
/// the body and starts over.
pub open spec fn loop_while(
    env: EnvModel,
    head: Seq<ForthExp>,
    body: Seq<ForthExp>,
    depth: nat,
    iters: nat,
) -> (EnvModel, Result<(), ForthErr>)
    decreases depth, 0nat, iters,
{
    if depth == 0 {
        (env, Err(ForthErr::TooDeep))
    } else if iters == 0 {
        (env, Err(ForthErr::TooManyIterations))
    } else {
        let (e1, r) = eval_body(env, head, (depth - 1) as nat);
        if r is Err {
            (e1, r)
        } else if e1.stack.len() == 0 {
            (e1, Err(ForthErr::EmptyStack))
        } else {
            let e2 = with_stack(e1, e1.stack.drop_last());
            if e1.stack.last() == 0 {
                (e2, Ok(()))
            } else {
                let (e3, r3) = eval_body(e2, body, (depth - 1) as nat);
                if r3 is Err {
                    (e3, r3)
                } else {
                    loop_while(e3, head, body, depth, (iters - 1) as nat)
                }
            }
        }
    }
}

/// Evaluates a sequence of expressions left to right, stopping at the first failure.
pub open spec fn eval_body(env: EnvModel, body: Seq<ForthExp>, depth: nat) -> (
    EnvModel,
    Result<(), ForthErr>,
)
    decreases depth, 3nat, body.len(),
{
    if body.len() == 0 {
        (env, Ok(()))
    } else {
        let (e1, r) = eval_exp(env, body[0], depth);
        if r is Err {
            (e1, r)
        } else {
            eval_body(e1, body.skip(1), depth)
        }
    }
}

proof fn lemma_body_step(env: EnvModel, body: Seq<ForthExp>, i: int, depth: nat)
    requires
        0 <= i < body.len(),
    ensures
        eval_body(env, body.skip(i), depth) == ({
            let (e1, r) = eval_exp(env, body[i], depth);
            if r is Err {
                (e1, r)
            } else {
                eval_body(e1, body.skip(i + 1), depth)
            }
        }),
{
    assert(body.skip(i).skip(1) =~= body.skip(i + 1));
    assert(body.skip(i)[0] == body[i]);
}

/// A fresh environment: empty dictionary, stack and store.
pub fn default_env() -> (r: ForthEnv)
    ensures
        r@.words.len() == 0,
        r@.stack.len() == 0,
        r@.variables.len() == 0,
        r@.printed.len() == 0,
{
    ForthEnv { words: Vec::new(), stack: Vec::new(), variables: Vec::new(), printed: Vec::new() }
}

impl ForthEnv {
    /// Pops the top of the stack.
    pub fn pop_num(&mut self) -> (r: Result<i64, ForthErr>)
        ensures
            old(self)@.stack.len() == 0 ==> r == Err::<i64, ForthErr>(ForthErr::EmptyStack)
                && final(self)@ == old(self)@,
            old(self)@.stack.len() > 0 ==> r == Ok::<i64, ForthErr>(old(self)@.stack.last())
                && final(self)@ == with_stack(old(self)@, old(self)@.stack.drop_last()),
    {
        match self.stack.pop() {
            Some(v) => Ok(v),
            None => Err(ForthErr::EmptyStack),
        }
    }

    /// Pushes a value.
    pub fn push(&mut self, v: i64)
        ensures
            final(self)@ == with_stack(old(self)@, old(self)@.stack.push(v)),
    {
        self.stack.push(v);
    }

    /// The latest binding of `k`.
    fn find_word(&self, k: &ForthOp) -> (r: Option<ForthFunc>)
        ensures
            match lookup(self@.words, *k) {
                Some(f) => r is Some && r->0@ == f,
                None => r is None,
            },
    {
        let ghost m = self@.words;
        let mut i: usize = self.words.len();
        proof {
            assert(m.take(i as int) =~= m);
        }
        while i > 0
            invariant
                i <= self.words.len(),
                m == words_model(self.words@),
                lookup(m, *k) == lookup(m.take(i as int), *k),
            decreases i,
        {
            proof {
                assert(m.take(i as int).drop_last() =~= m.take(i - 1));
                assert(m.take(i as int).last() == (self.words@[i - 1].0, self.words@[i - 1].1@));
            }
            if op_eq(&self.words[i - 1].0, k) {
                return Some(copy_func(&self.words[i - 1].1));
            }
            i = i - 1;
        }
        None
    }

    /// Resolves an identifier to its behaviour.
    pub fn get_op(&self, op: &ForthOp) -> (r: Result<ForthFunc, ForthErr>)
        ensures
            match resolve(self@.words, *op) {
                Ok(f) => r is Ok && r->Ok_0@ == f,
                Err(e) => r == Err::<ForthFunc, ForthErr>(e),
            },
    {
        match op {
            ForthOp::Prim(p) => Ok(ForthFunc::Native(*p)),
            ForthOp::UserWord(name) => {
                if let Some(f) = self.find_word(&ForthOp::Constant(name.clone())) {
                    return Ok(f);
                }
                if let Some(f) = self.find_word(&ForthOp::Variable(name.clone())) {
                    return Ok(f);
                }
                if let Some(f) = self.find_word(op) {
                    return Ok(f);
                }
                match prim_of(name.as_str()) {
                    Some(p) => Ok(ForthFunc::Native(p)),
                    None => Err(ForthErr::Undefined(ForthOp::UserWord(name.clone()))),
                }
            },
            _ => match self.find_word(op) {
                Some(f) => Ok(f),
                None => Err(ForthErr::Undefined(copy_op(op))),
            },
        }
    }

    /// Index of the cell named `name`.
    fn var_find(&self, name: &String) -> (r: Option<usize>)
        ensures
            r is None ==> var_index(self@.variables, name@) < 0,
            r is Some ==> r->0 == var_index(self@.variables, name@),
            var_index(self@.variables, name@) < self@.variables.len(),
    {
        let ghost vs = self.variables@;
        let mut i: usize = self.variables.len();
        proof {
            assert(vs.take(i as int) =~= vs);
        }
        while i > 0
            invariant
                i <= self.variables.len(),
                vs == self.variables@,
                var_index(vs, name@) == var_index(vs.take(i as int), name@),
            decreases i,
        {
            proof {
                assert(vs.take(i as int).drop_last() =~= vs.take(i - 1));
            }
            if self.variables[i - 1].0 == *name {
                return Some(i - 1);
            }
            i = i - 1;
        }
        proof {
            assert(vs.take(0) =~= Seq::<(String, i64)>::empty());
        }
        None
    }

    /// Sets the cell `name` to `v`, adding it when absent.
    pub fn set_var(&mut self, name: String, v: i64)
        ensures
            final(self)@ == (EnvModel { variables: var_set(old(self)@.variables, name, v), ..old(self)@ }),
    {
        match self.var_find(&name) {
            Some(i) => {
                let n = self.variables[i].0.clone();
                self.variables.set(i, (n, v));
                proof {
                    assert(self.variables@ =~= var_set(old(self)@.variables, name, v));
                }
            },
            None => {
                self.variables.push((name, v));
                proof {
                    assert(self.variables@ =~= var_set(old(self)@.variables, name, v));
                }
            },
        }
    }

    /// Evaluates one expression against the state.
    pub fn eval_exp(&mut self, e: &ForthExp, depth: u64) -> (r: Result<(), ForthErr>)
        ensures
            (final(self)@, r) == eval_exp(old(self)@, *e, depth as nat),
        decreases depth, 2nat, 0nat,
    {
        match e {
            ForthExp::Number(n) => {
                self.push(*n);
                Ok(())
            },
            ForthExp::Op(op) => {
                let f = self.get_op(op)?;
                self.run_func(f, depth)
            },
        }
    }

    /// Runs a behaviour against the state.
    pub fn run_func(&mut self, f: ForthFunc, depth: u64) -> (r: Result<(), ForthErr>)
        ensures
            (final(self)@, r) == run_func(old(self)@, f@, depth as nat),
        decreases depth, 1nat, 0nat,
    {
        match f {
            ForthFunc::Native(p) => {
                let n = self.stack.len();
                let top: i64 = if n > 0 { self.stack[n - 1] } else { 0 };
                apply_prim(&mut self.stack, p)?;
                if p == Prim::Print {
                    self.printed.push(top);
                }
                Ok(())
            },
            ForthFunc::User(body) => {
                if depth == 0 {
                    return Err(ForthErr::TooDeep);
                }
                self.eval_body(&body, depth - 1)
            },
            ForthFunc::Variable => Ok(()),
            ForthFunc::ConstantDef(name) => {
                match self.stack.pop() {
                    Some(v) => {
                        let mut body: Vec<ForthExp> = Vec::new();
                        body.push(ForthExp::Number(v));
                        proof {
                            assert(body@ =~= seq![ForthExp::Number(v)]);
                        }
                        self.define(ForthOp::Constant(name), ForthFunc::User(body));
                        Ok(())
                    },
                    None => Err(ForthErr::NoConstantValue),
                }
            },
            ForthFunc::GetVar(name) => {
                match self.var_find(&name) {
                    Some(i) => {
                        let v = self.variables[i].1;
                        self.push(v);
                        Ok(())
                    },
                    None => Err(ForthErr::UndefinedVariable(name)),
                }
            },
            ForthFunc::SetVar(name) => {
                if self.var_find(&name).is_none() {
                    return Err(ForthErr::UndefinedVariable(name));
                }
                let v = self.pop_num()?;
                self.set_var(name, v);
                Ok(())
            },
            ForthFunc::IfThenElse(t, e) => {
                if depth == 0 {
                    return Err(ForthErr::TooDeep);
                }
                let c = self.pop_num()?;
                if c != 0 {
                    self.eval_body(&t, depth - 1)
                } else {
                    match e {
                        Some(b) => self.eval_body(&b, depth - 1),
                        None => Ok(()),
                    }
                }
            },
            ForthFunc::BeginUntil(b) => self.loop_until(&b, depth),
            ForthFunc::BeginWhile(h, b) => self.loop_while(&h, &b, depth),
        }
    }

    /// Evaluates a body left to right, stopping at the first failure.
    pub fn eval_body(&mut self, body: &Vec<ForthExp>, depth: u64) -> (r: Result<(), ForthErr>)
        ensures
            (final(self)@, r) == eval_body(old(self)@, body@, depth as nat),
        decreases depth, 3nat, 0nat,
    {
        let ghost goal = eval_body(self@, body@, depth as nat);
        let mut i: usize = 0;
        proof {
            assert(body@.skip(0) =~= body@);
        }
        while i < body.len()
            invariant
                i <= body.len(),
                goal == eval_body(old(self)@, body@, depth as nat),
                goal == eval_body(self@, body@.skip(i as int), depth as nat),
            decreases body.len() - i,
        {
            proof {
                lemma_body_step(self@, body@, i as int, depth as nat);
            }
            self.eval_exp(&body[i], depth)?;
            i = i + 1;
        }
        Ok(())
    }

    fn loop_until(&mut self, body: &Vec<ForthExp>, depth: u64) -> (r: Result<(), ForthErr>)
        ensures
            (final(self)@, r) == loop_until(
                old(self)@,
                body@,
                depth as nat,
                MAX_LOOP_ITERATIONS as nat,
            ),
        decreases depth, 0nat, 0nat,
    {
        if depth == 0 {
            return Err(ForthErr::TooDeep);
        }
        let ghost goal = loop_until(self@, body@, depth as nat, MAX_LOOP_ITERATIONS as nat);
        let mut iters: u64 = MAX_LOOP_ITERATIONS;
        loop
            invariant
                depth > 0,
                goal == loop_until(old(self)@, body@, depth as nat, MAX_LOOP_ITERATIONS as nat),
                goal == loop_until(self@, body@, depth as nat, iters as nat),
            decreases iters,
        {
            if iters == 0 {
                return Err(ForthErr::TooManyIterations);
            }
            self.eval_body(body, depth - 1)?;
            let c = self.pop_num()?;
            if c != 0 {
                return Ok(());
            }
            iters = iters - 1;
        }
    }

    fn loop_while(&mut self, head: &Vec<ForthExp>, body: &Vec<ForthExp>, depth: u64) -> (r: Result<
        (),
        ForthErr,
    >)
        ensures
            (final(self)@, r) == loop_while(
                old(self)@,
                head@,
                body@,
                depth as nat,
                MAX_LOOP_ITERATIONS as nat,
            ),
        decreases depth, 0nat, 0nat,
    {
        if depth == 0 {
            return Err(ForthErr::TooDeep);
        }
        let ghost goal = loop_while(self@, head@, body@, depth as nat, MAX_LOOP_ITERATIONS as nat);
        let mut iters: u64 = MAX_LOOP_ITERATIONS;
        loop
            invariant
                depth > 0,
                goal == loop_while(
                    old(self)@,
                    head@,
                    body@,
                    depth as nat,
                    MAX_LOOP_ITERATIONS as nat,
                ),
                goal == loop_while(self@, head@, body@, depth as nat, iters as nat),
            decreases iters,
        {
            if iters == 0 {
                return Err(ForthErr::TooManyIterations);
            }
            self.eval_body(head, depth - 1)?;
            let c = self.pop_num()?;
            if c == 0 {
                return Ok(());
            }
            self.eval_body(body, depth - 1)?;
            iters = iters - 1;
        }
    }

    /// Binds `op` to `f`, shadowing any earlier binding.
    pub fn define(&mut self, op: ForthOp, f: ForthFunc)
        ensures
            final(self)@ == (EnvModel { words: old(self)@.words.push((op, f@)), ..old(self)@ }),
    {
        proof {
            lemma_words_push(self.words@, op, f);
        }
        self.words.push((op, f));
    }
}

} // verus!
