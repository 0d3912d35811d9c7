//! A session: the evaluation state together with the parser.
use crate::env::{default_env, eval_body, eval_exp, resolve, var_set, EnvModel, ForthEnv, MAX_DEPTH};
use crate::parser::{top, ForthParser, PState, ParserState};
use crate::lexer::{lower, tokens_of, views};
use crate::types::{copy_func, copy_op, words_model, ForthErr, ForthExp, ForthFunc, ForthOp, FuncModel};
use vstd::prelude::*;

verus! {

/// An interpreter session: definitions, variables and the stack persist across inputs.
pub struct ForthInterp {
    pub env: ForthEnv,
    pub parser: ForthParser,
}

/// The store after declaring each of `names` with the value zero, in order.
pub open spec fn declare_all(vs: Seq<(String, i64)>, names: Seq<String>) -> Seq<(String, i64)>
    decreases names.len(),
{
    if names.len() == 0 {
        vs
    } else {
        var_set(declare_all(vs, names.drop_last()), names.last(), 0)
    }
}

/// The state once the entries and variables of a successful parse are added.
pub open spec fn commit(env: EnvModel, words: Seq<(ForthOp, FuncModel)>, names: Seq<String>) -> EnvModel {
    EnvModel { words: env.words + words, variables: declare_all(env.variables, names), ..env }
}

/// What evaluating one input does, once the parser has read it into the stream `toks`:
/// on a parse error nothing is evaluated and the state is kept; otherwise the new entries
/// and variables are added and the program runs until its first failure.
pub open spec fn session_step(
    toks: Seq<String>,
    old: ForthInterp,
    new: ForthInterp,
    r: Result<(), ForthErr>,
) -> bool {
    match top(
        toks,
        old.parser.state,
        old.parser.word_name,
        old.parser.new_word@,
        PState { pos: old.parser.cur as nat, words: seq![], vars: seq![] },
        seq![],
    ) {
        Ok(out) => {
            &&& (new.env@, r) == eval_body(
                commit(old.env@, out.ps.words, out.ps.vars),
                out.prog,
                MAX_DEPTH as nat,
            )
            &&& new.parser.state == out.state
            &&& new.parser.word_name == out.name
            &&& new.parser.new_word@ == out.body
        },
        Err(e) => {
            &&& r == Err::<(), ForthErr>(e)
            &&& new.env@ == old.env@
            &&& new.parser.state == old.parser.state
            &&& new.parser.word_name == old.parser.word_name
            &&& new.parser.new_word@ == old.parser.new_word@
        },
    }
}

impl ForthInterp {
    pub fn new() -> (r: ForthInterp)
        ensures
            r.parser.wf(),
            r.parser.tokens@.len() == 0,
            r.parser.state == ParserState::Normal,
            r.env@.words.len() == 0,
            r.env@.stack.len() == 0,
            r.env@.variables.len() == 0,
            r.env@.printed.len() == 0,
    {
        ForthInterp { env: default_env(), parser: ForthParser::new() }
    }

    /// Pops the top of the stack.
    pub fn pop_num(&mut self) -> (r: Result<i64, ForthErr>)
        ensures
            final(self).parser == old(self).parser,
            old(self).env@.stack.len() == 0 ==> r == Err::<i64, ForthErr>(ForthErr::EmptyStack)
                && final(self).env@ == old(self).env@,
            old(self).env@.stack.len() > 0 ==> r == Ok::<i64, ForthErr>(
                old(self).env@.stack.last(),
            ) && final(self).env@ == (EnvModel {
                stack: old(self).env@.stack.drop_last(),
                ..old(self).env@
            }),
    {
        self.env.pop_num()
    }

    /// Pushes a value.
    pub fn push(&mut self, v: i64)
        ensures
            final(self).parser == old(self).parser,
            final(self).env@ == (EnvModel { stack: old(self).env@.stack.push(v), ..old(self).env@ }),
    {
        self.env.push(v)
    }

    /// Resolves an identifier against the dictionary.
    pub fn eval_op(&self, op: ForthOp) -> (r: Result<ForthFunc, ForthErr>)
        ensures
            match resolve(self.env@.words, op) {
                Ok(f) => r is Ok && r->Ok_0@ == f,
                Err(e) => r == Err::<ForthFunc, ForthErr>(e),
            },
    {
        self.env.get_op(&op)
    }

    /// Evaluates one expression.
    pub fn eval(&mut self, exp: ForthExp) -> (r: Result<(), ForthErr>)
        ensures
            final(self).parser == old(self).parser,
            (final(self).env@, r) == eval_exp(old(self).env@, exp, MAX_DEPTH as nat),
    {
        self.env.eval_exp(&exp, MAX_DEPTH)
    }

    /// Parses and evaluates one input.
    pub fn eval_str(&mut self, expr: &str) -> (r: Result<(), ForthErr>)
        requires
            old(self).parser.wf(),
        ensures
            final(self).parser.wf(),
            final(self).parser.tokens@.take(old(self).parser.tokens.len() as int)
                == old(self).parser.tokens@,
            views(final(self).parser.tokens@.skip(old(self).parser.tokens.len() as int))
                == tokens_of(lower(expr@)),
            session_step(final(self).parser.tokens@, *old(self), *final(self), r),
    {
        let res = self.parser.parse_str(expr)?;
        let ghost w = words_model(res.new_words@);
        let ghost env0 = self.env@;
        let ghost parser_now = self.parser;
        let mut i: usize = 0;
        while i < res.new_words.len()
            invariant
                i <= res.new_words.len(),
                self.parser == parser_now,
                w == words_model(res.new_words@),
                self.env@ == (EnvModel { words: env0.words + w.take(i as int), ..env0 }),
            decreases res.new_words.len() - i,
        {
            let op = copy_op(&res.new_words[i].0);
            let f = copy_func(&res.new_words[i].1);
            self.env.define(op, f);
            proof {
                assert(w.take(i + 1) =~= w.take(i as int).push(w[i as int]));
                assert(env0.words + w.take(i + 1) =~= (env0.words + w.take(i as int)).push(
                    w[i as int],
                ));
            }
            i = i + 1;
        }
        proof {
            assert(w.take(i as int) =~= w);
        }
        let ghost names = res.variables@;
        let mut j: usize = 0;
        proof {
            assert(names.take(0) =~= Seq::<String>::empty());
        }
        while j < res.variables.len()
            invariant
                j <= res.variables.len(),
                self.parser == parser_now,
                names == res.variables@,
                self.env@ == (EnvModel {
                    words: env0.words + w,
                    variables: declare_all(env0.variables, names.take(j as int)),
                    ..env0
                }),
            decreases res.variables.len() - j,
        {
            let n = res.variables[j].clone();
            self.env.set_var(n, 0);
            proof {
                assert(names.take(j + 1).drop_last() =~= names.take(j as int));
            }
            j = j + 1;
        }
        proof {
            assert(names.take(j as int) =~= names);
        }
        self.env.eval_body(&res.program, MAX_DEPTH)
    }

    /// The stack, bottom first.
    pub fn stack(&self) -> (r: &Vec<i64>)
        ensures
            r@ == self.env@.stack,
    {
        &self.env.stack
    }

    /// Hands out the values printed since the last call, oldest first, and forgets them.
    pub fn take_printed(&mut self) -> (r: Vec<i64>)
        ensures
            r@ == old(self).env@.printed,
            final(self).env@ == (EnvModel { printed: seq![], ..old(self).env@ }),
            final(self).parser == old(self).parser,
    {
        let mut out: Vec<i64> = Vec::new();
        std::mem::swap(&mut out, &mut self.env.printed);
        out
    }
}

} // verus!
