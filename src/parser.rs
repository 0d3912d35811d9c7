//! The parser: a recursive-descent reading of the token stream into expressions and
//! dictionary entries.
use crate::lexer::{number_of, parse_number, tokenize, to_lower, tokens_of, lower, views};
use crate::types::{
    copy_exps, lemma_words_push, str_eq, words_model, ForthErr, ForthExp, ForthFunc, ForthOp,
    FuncModel,
};
use vstd::prelude::*;

verus! {

/// Where the top level of the parser stands between tokens.
#[derive(Clone, Copy, Debug, PartialEq, Eq, Structural)]
pub enum ParserState {
    Normal,
    /// After `:`, waiting for the name of the word.
    WordName,
    /// Inside `: name ... ;`.
    WordBody,
}

/// A keyword that ends a block.
#[derive(Clone, Copy, Debug, PartialEq, Eq, Structural)]
pub enum Stop {
    Else,
    Then,
    Until,
    While,
    Repeat,
}

/// The block being read, which decides the keywords that may end it.
#[derive(Clone, Copy, Debug, PartialEq, Eq, Structural)]
pub enum Block {
    /// `if ...`, ended by `else` or `then`.
    IfTrue,
    /// `else ...`, ended by `then`.
    IfFalse,
    /// `begin ...`, ended by `until` or `while`.
    LoopHead,
    /// `while ...`, ended by `repeat`.
    LoopBody,
}

/// The parser of a session. Tokens accumulate over the session: the position of a token in
/// this stream keys the constructs it opens.
pub struct ForthParser {
    pub tokens: Vec<String>,
    pub cur: usize,
    pub state: ParserState,
    pub word_name: String,
    pub new_word: Vec<ForthExp>,
}

/// What one call of the parser produces.
pub struct ParserResult {
    /// The expressions to evaluate, in order.
    pub program: Vec<ForthExp>,
    /// The dictionary entries to add, in order.
    pub new_words: Vec<(ForthOp, ForthFunc)>,
    /// The variables declared, each to start at zero.
    pub variables: Vec<String>,
}

/// Progress of a parse: the next token, and the entries and variables gathered so far.
pub struct PState {
    pub pos: nat,
    pub words: Seq<(ForthOp, FuncModel)>,
    pub vars: Seq<String>,
}

/// What the top level has read: program, state, word name and body, progress.
pub struct TopOut {
    pub prog: Seq<ForthExp>,
    pub state: ParserState,
    pub name: String,
    pub body: Seq<ForthExp>,
    pub ps: PState,
}

pub open spec fn stop_of(t: Seq<char>) -> Option<Stop> {
    if t == "else"@ {
        Some(Stop::Else)
    } else if t == "then"@ {
        Some(Stop::Then)
    } else if t == "until"@ {
        Some(Stop::Until)
    } else if t == "while"@ {
        Some(Stop::While)
    } else if t == "repeat"@ {
        Some(Stop::Repeat)
    } else {
        None
    }
}

pub open spec fn allows(b: Block, s: Stop) -> bool {
    match b {
        Block::IfTrue => s == Stop::Else || s == Stop::Then,
        Block::IfFalse => s == Stop::Then,
        Block::LoopHead => s == Stop::Until || s == Stop::While,
        Block::LoopBody => s == Stop::Repeat,
    }
}

/// Tokens that cannot start an item.
pub open spec fn is_reserved(t: Seq<char>) -> bool {
    t == ":"@ || t == ";"@ || stop_of(t) is Some
}

pub open spec fn advance(ps: PState, n: nat) -> PState {
    PState { pos: ps.pos + n, ..ps }
}

pub open spec fn add_word(ps: PState, op: ForthOp, f: FuncModel) -> PState {
    PState { words: ps.words.push((op, f)), ..ps }
}

/// Reads one item at `ps.pos`: a literal, a name, a declaration, a variable access or a
/// control construct.
pub open spec fn item(toks: Seq<String>, ps: PState) -> Result<(ForthExp, PState), ForthErr>
    decreases toks.len() - ps.pos, 0nat,
{
    if ps.pos >= toks.len() {
        Err(ForthErr::Unterminated)
    } else {
        let i = ps.pos;
        let t = toks[i as int];
        if is_reserved(t@) {
            Err(ForthErr::Unexpected(t))
        } else if t@ == "variable"@ {
            if i + 1 >= toks.len() {
                Err(ForthErr::NoName)
            } else {
                let n = toks[i + 1int];
                Ok(
                    (
                        ForthExp::Op(ForthOp::Variable(n)),
                        PState {
                            vars: ps.vars.push(n),
                            ..add_word(advance(ps, 2), ForthOp::Variable(n), FuncModel::Variable)
                        },
                    ),
                )
            }
        } else if t@ == "constant"@ {
            if i + 1 >= toks.len() {
                Err(ForthErr::NoName)
            } else {
                let n = toks[i + 1int];
                Ok(
                    (
                        ForthExp::Op(ForthOp::Constant(n)),
                        add_word(advance(ps, 2), ForthOp::Constant(n), FuncModel::ConstantDef(n)),
                    ),
                )
            }
        } else if t@ == "@"@ {
            if i == 0 {
                Err(ForthErr::NoVarName)
            } else {
                Ok(
                    (
                        ForthExp::Op(ForthOp::GetVar(i as usize)),
                        add_word(
                            advance(ps, 1),
                            ForthOp::GetVar(i as usize),
                            FuncModel::GetVar(toks[i - 1]),
                        ),
                    ),
                )
            }
        } else if t@ == "!"@ {
            if i == 0 {
                Err(ForthErr::NoVarName)
            } else {
                Ok(
                    (
                        ForthExp::Op(ForthOp::SetVar(i as usize)),
                        add_word(
                            advance(ps, 1),
                            ForthOp::SetVar(i as usize),
                            FuncModel::SetVar(toks[i - 1]),
                        ),
                    ),
                )
            }
        } else if t@ == "if"@ {
            let op = ForthOp::IfThenElse(i as usize);
            match block(toks, Block::IfTrue, advance(ps, 1), seq![]) {
                Err(e) => Err(e),
                Ok((tb, s, ps2)) => if s != Stop::Else {
                    Ok((ForthExp::Op(op), add_word(ps2, op, FuncModel::IfThenElse(tb, None))))
                } else if ps2.pos <= i || ps2.pos > toks.len() {
                    Err(ForthErr::Unterminated)
                } else {
                    match block(toks, Block::IfFalse, ps2, seq![]) {
                        Err(e) => Err(e),
                        Ok((fb, _, ps3)) => Ok(
                            (
                                ForthExp::Op(op),
                                add_word(ps3, op, FuncModel::IfThenElse(tb, Some(fb))),
                            ),
                        ),
                    }
                },
            }
        } else if t@ == "begin"@ {
            match block(toks, Block::LoopHead, advance(ps, 1), seq![]) {
                Err(e) => Err(e),
                Ok((hb, s, ps2)) => if s != Stop::While {
                    let op = ForthOp::BeginUntil(i as usize);
                    Ok((ForthExp::Op(op), add_word(ps2, op, FuncModel::BeginUntil(hb))))
                } else if ps2.pos <= i || ps2.pos > toks.len() {
                    Err(ForthErr::Unterminated)
                } else {
                    let op = ForthOp::BeginWhile(i as usize);
                    match block(toks, Block::LoopBody, ps2, seq![]) {
                        Err(e) => Err(e),
                        Ok((bb, _, ps3)) => Ok(
                            (ForthExp::Op(op), add_word(ps3, op, FuncModel::BeginWhile(hb, bb))),
                        ),
                    }
                },
            }
        } else {
            match number_of(t@) {
                Some(v) => Ok((ForthExp::Number(v), advance(ps, 1))),
                None => Ok((ForthExp::Op(ForthOp::UserWord(t)), advance(ps, 1))),
            }
        }
    }
}

/// Reads items into `acc` until a keyword that ends block `b`, which is consumed and
/// returned. (Every item consumes a token; the check on `pos` makes that evident.)
pub open spec fn block(toks: Seq<String>, b: Block, ps: PState, acc: Seq<ForthExp>) -> Result<
    (Seq<ForthExp>, Stop, PState),
    ForthErr,
>
    decreases toks.len() - ps.pos, 1nat,
{
    if ps.pos >= toks.len() {
        Err(ForthErr::Unterminated)
    } else {
        let t = toks[ps.pos as int];
        if stop_of(t@) is Some && allows(b, stop_of(t@)->0) {
            Ok((acc, stop_of(t@)->0, advance(ps, 1)))
        } else {
            match item(toks, ps) {
                Err(e) => Err(e),
                Ok((e, ps2)) => if ps2.pos <= ps.pos || ps2.pos > toks.len() {
                    Err(ForthErr::Unterminated)
                } else {
                    block(toks, b, ps2, acc.push(e))
                },
            }
        }
    }
}

/// Reads the rest of the stream at the top level: `: name ... ;` definitions (which may
/// span inputs) and items of the program.
pub open spec fn top(
    toks: Seq<String>,
    st: ParserState,
    name: String,
    body: Seq<ForthExp>,
    ps: PState,
    prog: Seq<ForthExp>,
) -> Result<TopOut, ForthErr>
    decreases toks.len() - ps.pos,
{
    if ps.pos >= toks.len() {
        Ok(TopOut { prog, state: st, name, body, ps })
    } else {
        let t = toks[ps.pos as int];
        match st {
            ParserState::WordName => top(
                toks,
                ParserState::WordBody,
                t,
                seq![],
                advance(ps, 1),
                prog,
            ),
            ParserState::WordBody if t@ == ";"@ => top(
                toks,
                ParserState::Normal,
                name,
                seq![],
                add_word(advance(ps, 1), ForthOp::UserWord(name), FuncModel::User(body)),
                prog,
            ),
            ParserState::Normal if t@ == ":"@ => top(
                toks,
                ParserState::WordName,
                name,
                body,
                advance(ps, 1),
                prog,
            ),
            _ => match item(toks, ps) {
                Err(e) => Err(e),
                Ok((e, ps2)) => if ps2.pos <= ps.pos || ps2.pos > toks.len() {
                    Err(ForthErr::Unterminated)
                } else if st == ParserState::Normal {
                    top(toks, st, name, body, ps2, prog.push(e))
                } else {
                    top(toks, st, name, body.push(e), ps2, prog)
                },
            },
        }
    }
}

/// Progress of the executable parser, as a [`PState`].
pub open spec fn pstate(cur: usize, res: ParserResult) -> PState {
    PState { pos: cur as nat, words: words_model(res.new_words@), vars: res.variables@ }
}

/// The parser's outcome on the session stream `toks`, from the state `old` to `new`.
pub open spec fn parsed(
    toks: Seq<String>,
    old: ForthParser,
    new: ForthParser,
    r: Result<ParserResult, ForthErr>,
) -> bool {
    match top(
        toks,
        old.state,
        old.word_name,
        old.new_word@,
        PState { pos: old.cur as nat, words: seq![], vars: seq![] },
        seq![],
    ) {
        Ok(out) => {
            &&& r is Ok
            &&& r->Ok_0.program@ == out.prog
            &&& words_model(r->Ok_0.new_words@) == out.ps.words
            &&& r->Ok_0.variables@ == out.ps.vars
            &&& new.state == out.state
            &&& new.word_name == out.name
            &&& new.new_word@ == out.body
        },
        Err(e) => {
            &&& r == Err::<ParserResult, ForthErr>(e)
            &&& new.state == old.state
            &&& new.word_name == old.word_name
            &&& new.new_word@ == old.new_word@
        },
    }
}

fn stop_tok(t: &str) -> (r: Option<Stop>)
    ensures
        r == stop_of(t@),
{
    if str_eq(t, "else") {
        Some(Stop::Else)
    } else if str_eq(t, "then") {
        Some(Stop::Then)
    } else if str_eq(t, "until") {
        Some(Stop::Until)
    } else if str_eq(t, "while") {
        Some(Stop::While)
    } else if str_eq(t, "repeat") {
        Some(Stop::Repeat)
    } else {
        None
    }
}

fn block_allows(b: Block, s: Stop) -> (r: bool)
    ensures
        r == allows(b, s),
{
    match b {
        Block::IfTrue => s == Stop::Else || s == Stop::Then,
        Block::IfFalse => s == Stop::Then,
        Block::LoopHead => s == Stop::Until || s == Stop::While,
        Block::LoopBody => s == Stop::Repeat,
    }
}

fn add_entry(res: &mut ParserResult, op: ForthOp, f: ForthFunc)
    ensures
        final(res).program@ == old(res).program@,
        final(res).variables@ == old(res).variables@,
        words_model(final(res).new_words@) == words_model(old(res).new_words@).push((op, f@)),
{
    proof {
        lemma_words_push(res.new_words@, op, f);
    }
    res.new_words.push((op, f));
}

impl ForthParser {
    /// Between two calls every token of the stream has been read.
    pub open spec fn wf(&self) -> bool {
        self.cur == self.tokens.len()
    }

    /// Only the cursor has moved from `old`, and not past the end of the stream.
    pub open spec fn same_but_cursor(&self, old: ForthParser) -> bool {
        &&& self.tokens@ == old.tokens@
        &&& self.state == old.state
        &&& self.word_name == old.word_name
        &&& self.new_word@ == old.new_word@
        &&& self.cur <= self.tokens.len()
    }

    pub fn new() -> (r: ForthParser)
        ensures
            r.wf(),
            r.tokens@.len() == 0,
            r.state == ParserState::Normal,
            r.word_name@.len() == 0,
            r.new_word@.len() == 0,
    {
        ForthParser {
            tokens: Vec::new(),
            cur: 0,
            state: ParserState::Normal,
            word_name: String::new(),
            new_word: Vec::new(),
        }
    }

    /// Reads the token under the cursor and moves past it.
    pub fn next(&mut self) -> (r: Result<String, ForthErr>)
        requires
            old(self).cur <= old(self).tokens.len(),
        ensures
            final(self).same_but_cursor(*old(self)),
            old(self).cur < old(self).tokens.len() ==> r == Ok::<String, ForthErr>(
                old(self).tokens@[old(self).cur as int],
            ) && final(self).cur == old(self).cur + 1,
            old(self).cur == old(self).tokens.len() ==> r == Err::<String, ForthErr>(
                ForthErr::Unterminated,
            ) && final(self).cur == old(self).cur,
    {
        if self.cur < self.tokens.len() {
            self.cur = self.cur + 1;
            Ok(self.tokens[self.cur - 1].clone())
        } else {
            Err(ForthErr::Unterminated)
        }
    }

    /// The token under the cursor.
    pub fn get_cur(&self) -> (r: String)
        requires
            self.cur < self.tokens.len(),
        ensures
            r == self.tokens@[self.cur as int],
    {
        self.tokens[self.cur].clone()
    }

    /// The token before the one just read: the variable that `@` or `!` refers to.
    pub fn get_var_name(&self) -> (r: Result<String, ForthErr>)
        requires
            self.cur <= self.tokens.len(),
        ensures
            self.cur > 1 ==> r == Ok::<String, ForthErr>(self.tokens@[self.cur - 2]),
            self.cur <= 1 ==> r == Err::<String, ForthErr>(ForthErr::NoVarName),
    {
        if self.cur > 1 {
            Ok(self.tokens[self.cur - 2].clone())
        } else {
            Err(ForthErr::NoVarName)
        }
    }

    /// Reads one item; see [`item`].
    fn parse_item(&mut self, res: &mut ParserResult) -> (r: Result<ForthExp, ForthErr>)
        requires
            old(self).cur <= old(self).tokens.len(),
        ensures
            final(self).same_but_cursor(*old(self)),
            final(res).program@ == old(res).program@,
            match item(old(self).tokens@, pstate(old(self).cur, *old(res))) {
                Ok((e, ps2)) => {
                    &&& r == Ok::<ForthExp, ForthErr>(e)
                    &&& pstate(final(self).cur, *final(res)) == ps2
                    &&& final(self).cur > old(self).cur
                },
                Err(err) => r == Err::<ForthExp, ForthErr>(err),
            },
        decreases old(self).tokens.len() - old(self).cur, 0nat,
    {
        let i = self.cur;
        let t = self.next()?;
        let ts = t.as_str();
        if str_eq(ts, ":") || str_eq(ts, ";") || stop_tok(ts).is_some() {
            return Err(ForthErr::Unexpected(t));
        }
        if str_eq(ts, "variable") {
            let n = match self.next() {
                Ok(n) => n,
                Err(_) => return Err(ForthErr::NoName),
            };
            add_entry(res, ForthOp::Variable(n.clone()), ForthFunc::Variable);
            res.variables.push(n.clone());
            return Ok(ForthExp::Op(ForthOp::Variable(n)));
        }
        if str_eq(ts, "constant") {
            let n = match self.next() {
                Ok(n) => n,
                Err(_) => return Err(ForthErr::NoName),
            };
            add_entry(res, ForthOp::Constant(n.clone()), ForthFunc::ConstantDef(n.clone()));
            return Ok(ForthExp::Op(ForthOp::Constant(n)));
        }
        if str_eq(ts, "@") {
            let n = self.get_var_name()?;
            add_entry(res, ForthOp::GetVar(i), ForthFunc::GetVar(n));
            return Ok(ForthExp::Op(ForthOp::GetVar(i)));
        }
        if str_eq(ts, "!") {
            let n = self.get_var_name()?;
            add_entry(res, ForthOp::SetVar(i), ForthFunc::SetVar(n));
            return Ok(ForthExp::Op(ForthOp::SetVar(i)));
        }
        if str_eq(ts, "if") {
            let (tb, s) = self.parse_block(res, Block::IfTrue)?;
            if s != Stop::Else {
                add_entry(res, ForthOp::IfThenElse(i), ForthFunc::IfThenElse(tb, None));
                return Ok(ForthExp::Op(ForthOp::IfThenElse(i)));
            }
            let (fb, _) = self.parse_block(res, Block::IfFalse)?;
            add_entry(res, ForthOp::IfThenElse(i), ForthFunc::IfThenElse(tb, Some(fb)));
            return Ok(ForthExp::Op(ForthOp::IfThenElse(i)));
        }
        if str_eq(ts, "begin") {
            let (hb, s) = self.parse_block(res, Block::LoopHead)?;
            if s != Stop::While {
                add_entry(res, ForthOp::BeginUntil(i), ForthFunc::BeginUntil(hb));
                return Ok(ForthExp::Op(ForthOp::BeginUntil(i)));
            }
            let (bb, _) = self.parse_block(res, Block::LoopBody)?;
            add_entry(res, ForthOp::BeginWhile(i), ForthFunc::BeginWhile(hb, bb));
            return Ok(ForthExp::Op(ForthOp::BeginWhile(i)));
        }
        match parse_number(ts) {
            Some(v) => Ok(ForthExp::Number(v)),
            None => Ok(ForthExp::Op(ForthOp::UserWord(t))),
        }
    }

    /// Reads a block up to the keyword that ends it; see [`block`].
    fn parse_block(&mut self, res: &mut ParserResult, b: Block) -> (r: Result<
        (Vec<ForthExp>, Stop),
        ForthErr,
    >)
        requires
            old(self).cur <= old(self).tokens.len(),
        ensures
            final(self).same_but_cursor(*old(self)),
            final(res).program@ == old(res).program@,
            match block(old(self).tokens@, b, pstate(old(self).cur, *old(res)), seq![]) {
                Ok((acc, s, ps2)) => {
                    &&& r is Ok
                    &&& r->Ok_0.0@ == acc
                    &&& r->Ok_0.1 == s
                    &&& pstate(final(self).cur, *final(res)) == ps2
                    &&& final(self).cur > old(self).cur
                },
                Err(err) => r == Err::<(Vec<ForthExp>, Stop), ForthErr>(err),
            },
        decreases old(self).tokens.len() - old(self).cur, 1nat,
    {
        let ghost goal = block(self.tokens@, b, pstate(self.cur, *res), seq![]);
        let mut acc: Vec<ForthExp> = Vec::new();
        loop
            invariant
                self.same_but_cursor(*old(self)),
                old(self).cur <= self.cur,
                goal == block(old(self).tokens@, b, pstate(old(self).cur, *old(res)), seq![]),
                goal == block(self.tokens@, b, pstate(self.cur, *res), acc@),
                res.program@ == old(res).program@,
            decreases self.tokens.len() - self.cur,
        {
            if self.cur >= self.tokens.len() {
                return Err(ForthErr::Unterminated);
            }
            match stop_tok(self.tokens[self.cur].as_str()) {
                Some(s) => {
                    if block_allows(b, s) {
                        self.cur = self.cur + 1;
                        return Ok((acc, s));
                    }
                },
                None => {},
            }
            let e = self.parse_item(res)?;
            acc.push(e);
        }
    }

    /// Lower-cases and tokenizes `expr`, then parses it; see [`parse`].
    pub fn parse_str(&mut self, expr: &str) -> (r: Result<ParserResult, ForthErr>)
        requires
            old(self).wf(),
        ensures
            final(self).wf(),
            final(self).tokens@.take(old(self).tokens.len() as int) == old(self).tokens@,
            views(final(self).tokens@.skip(old(self).tokens.len() as int)) == tokens_of(
                lower(expr@),
            ),
            parsed(final(self).tokens@, *old(self), *final(self), r),
    {
        let lowered = to_lower(expr);
        let toks = tokenize(lowered.as_str());
        let ghost t = toks@;
        let r = parse(toks, self);
        proof {
            assert(self.tokens@.take(old(self).tokens.len() as int) =~= old(self).tokens@);
            assert(self.tokens@.skip(old(self).tokens.len() as int) =~= t);
        }
        r
    }
}

/// Appends `tokens` to the parser's stream and parses them. On failure the parser's
/// definition state is left as it was and the rest of the input is dropped.
pub fn parse(tokens: Vec<String>, parser: &mut ForthParser) -> (r: Result<ParserResult, ForthErr>)
    requires
        old(parser).wf(),
    ensures
        final(parser).wf(),
        final(parser).tokens@ == old(parser).tokens@ + tokens@,
        parsed(final(parser).tokens@, *old(parser), *final(parser), r),
{
    let mut more = tokens;
    parser.tokens.append(&mut more);
    let st0 = parser.state;
    let name0 = parser.word_name.clone();
    let body0 = copy_exps(&parser.new_word);
    let mut res = ParserResult { program: Vec::new(), new_words: Vec::new(), variables: Vec::new() };
    let ghost goal = top(
        parser.tokens@,
        st0,
        name0,
        body0@,
        PState { pos: parser.cur as nat, words: seq![], vars: seq![] },
        seq![],
    );
    proof {
        assert(words_model(res.new_words@) =~= Seq::<(ForthOp, FuncModel)>::empty());
        assert(pstate(parser.cur, res) == PState {
            pos: parser.cur as nat,
            words: seq![],
            vars: seq![],
        });
    }
    while parser.cur < parser.tokens.len()
        invariant
            parser.cur <= parser.tokens.len(),
            parser.tokens@ == old(parser).tokens@ + tokens@,
            st0 == old(parser).state,
            name0 == old(parser).word_name,
            body0@ == old(parser).new_word@,
            goal == top(
                parser.tokens@,
                old(parser).state,
                old(parser).word_name,
                old(parser).new_word@,
                PState { pos: old(parser).cur as nat, words: seq![], vars: seq![] },
                seq![],
            ),
            goal == top(
                parser.tokens@,
                parser.state,
                parser.word_name,
                parser.new_word@,
                pstate(parser.cur, res),
                res.program@,
            ),
        decreases parser.tokens.len() - parser.cur,
    {
        let t = parser.get_cur();
        if parser.state == ParserState::WordName {
            parser.word_name = t;
            parser.new_word = Vec::new();
            parser.state = ParserState::WordBody;
            parser.cur = parser.cur + 1;
        } else if parser.state == ParserState::WordBody && str_eq(t.as_str(), ";") {
            let body = copy_exps(&parser.new_word);
            add_entry(&mut res, ForthOp::UserWord(parser.word_name.clone()), ForthFunc::User(body));
            parser.new_word = Vec::new();
            parser.state = ParserState::Normal;
            parser.cur = parser.cur + 1;
        } else if parser.state == ParserState::Normal && str_eq(t.as_str(), ":") {
            parser.state = ParserState::WordName;
            parser.cur = parser.cur + 1;
        } else {
            match parser.parse_item(&mut res) {
                Ok(e) => {
                    if parser.state == ParserState::Normal {
                        res.program.push(e);
                    } else {
                        parser.new_word.push(e);
                    }
                },
                Err(e) => {
                    parser.state = st0;
                    parser.word_name = name0;
                    parser.new_word = body0;
                    parser.cur = parser.tokens.len();
                    return Err(e);
                },
            }
        }
    }
    Ok(res)
}

} // verus!
