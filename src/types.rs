//! Values, operations, behaviours and errors of the interpreter, with their models.
use vstd::prelude::*;

verus! {

/// A built-in primitive operating on the stack.
#[derive(Clone, Copy, Debug, PartialEq, Eq, Structural)]
pub enum Prim {
    Add,
    Sub,
    Mul,
    Div,
    Mod,
    DivMod,
    FMD,
    FMDM,
    Abs,
    Neg,
    Add1,
    Sub1,
    Add2,
    Sub2,
    Mul2,
    Div2,
    Dup,
    Drop,
    Over,
    Rot,
    Swap,
    Dup2,
    Drop2,
    Over2,
    Swap2,
    Pick,
    Roll,
    Depth,
    Print,
    And,
    Or,
    Xor,
    Not,
    Invert,
    Lt,
    Gt,
    Equal,
    Le,
    Ge,
    Ne,
    Lt0,
    Eq0,
    Gt0,
}

/// An operation identifier: a primitive, a name, or a construct keyed by its token position.
#[derive(Clone, Debug, PartialEq, Eq)]
pub enum ForthOp {
    Prim(Prim),
    Variable(String),
    Constant(String),
    UserWord(String),
    GetVar(usize),
    SetVar(usize),
    IfThenElse(usize),
    BeginUntil(usize),
    BeginWhile(usize),
}

/// An expression: a literal or a reference to an operation.
#[derive(Clone, Debug, PartialEq, Eq)]
pub enum ForthExp {
    Number(i64),
    Op(ForthOp),
}

/// The behaviour an operation identifier is bound to.
#[derive(Clone, Debug, PartialEq, Eq)]
pub enum ForthFunc {
    Native(Prim),
    User(Vec<ForthExp>),
    Variable,
    ConstantDef(String),
    GetVar(String),
    SetVar(String),
    IfThenElse(Vec<ForthExp>, Option<Vec<ForthExp>>),
    BeginUntil(Vec<ForthExp>),
    BeginWhile(Vec<ForthExp>, Vec<ForthExp>),
}

/// Everything that can go wrong while parsing or evaluating.
#[derive(Clone, Debug, PartialEq, Eq)]
pub enum ForthErr {
    /// A token that cannot stand where it was found (`:`, `;`, a stray terminator).
    Unexpected(String),
    /// `variable` or `constant` at the end of the input.
    NoName,
    /// `if` or `begin` without its terminator before the end of the input.
    Unterminated,
    /// `@` or `!` with no token before it.
    NoVarName,
    /// An identifier that the dictionary does not bind.
    Undefined(ForthOp),
    /// A read or write of a variable that was never declared.
    UndefinedVariable(String),
    EmptyStack,
    DivisionByZero,
    /// `pick` or `roll` with an index beyond the stack.
    NotEnoughValues,
    /// A constant declared with an empty stack.
    NoConstantValue,
    /// Nesting of words and constructs beyond the evaluation depth.
    TooDeep,
    /// A loop that ran out of its iteration budget.
    TooManyIterations,
}

/// Model of a behaviour: bodies as sequences.
pub enum FuncModel {
    Native(Prim),
    User(Seq<ForthExp>),
    Variable,
    ConstantDef(String),
    GetVar(String),
    SetVar(String),
    IfThenElse(Seq<ForthExp>, Option<Seq<ForthExp>>),
    BeginUntil(Seq<ForthExp>),
    BeginWhile(Seq<ForthExp>, Seq<ForthExp>),
}

impl View for ForthFunc {
    type V = FuncModel;

    open spec fn view(&self) -> FuncModel {
        match self {
            ForthFunc::Native(p) => FuncModel::Native(*p),
            ForthFunc::User(v) => FuncModel::User(v@),
            ForthFunc::Variable => FuncModel::Variable,
            ForthFunc::ConstantDef(n) => FuncModel::ConstantDef(*n),
            ForthFunc::GetVar(n) => FuncModel::GetVar(*n),
            ForthFunc::SetVar(n) => FuncModel::SetVar(*n),
            ForthFunc::IfThenElse(t, e) => FuncModel::IfThenElse(
                t@,
                match e {
                    Some(v) => Some(v@),
                    None => None,
                },
            ),
            ForthFunc::BeginUntil(b) => FuncModel::BeginUntil(b@),
            ForthFunc::BeginWhile(h, b) => FuncModel::BeginWhile(h@, b@),
        }
    }
}

/// Model of a dictionary: its entries in order of definition.
pub open spec fn words_model(w: Seq<(ForthOp, ForthFunc)>) -> Seq<(ForthOp, FuncModel)> {
    w.map_values(|p: (ForthOp, ForthFunc)| (p.0, p.1@))
}

pub proof fn lemma_words_push(w: Seq<(ForthOp, ForthFunc)>, op: ForthOp, f: ForthFunc)
    ensures
        words_model(w.push((op, f))) == words_model(w).push((op, f@)),
{
    assert(words_model(w.push((op, f))) =~= words_model(w).push((op, f@)));
}

/// Two identifiers name the same dictionary key: names compare by their characters.
pub open spec fn same_op(a: ForthOp, b: ForthOp) -> bool {
    match (a, b) {
        (ForthOp::Variable(x), ForthOp::Variable(y)) => x@ == y@,
        (ForthOp::Constant(x), ForthOp::Constant(y)) => x@ == y@,
        (ForthOp::UserWord(x), ForthOp::UserWord(y)) => x@ == y@,
        _ => a == b,
    }
}

/// Relies on `<str as PartialEq>::eq`: two string slices are equal when their characters are.
#[verifier::external_body]
pub(crate) fn str_eq(a: &str, b: &str) -> (r: bool)
    ensures
        r == (a@ == b@),
{
    a == b
}

pub fn op_eq(a: &ForthOp, b: &ForthOp) -> (r: bool)
    ensures
        r == same_op(*a, *b),
{
    match (a, b) {
        (ForthOp::Prim(x), ForthOp::Prim(y)) => *x == *y,
        (ForthOp::Variable(x), ForthOp::Variable(y)) => *x == *y,
        (ForthOp::Constant(x), ForthOp::Constant(y)) => *x == *y,
        (ForthOp::UserWord(x), ForthOp::UserWord(y)) => *x == *y,
        (ForthOp::GetVar(x), ForthOp::GetVar(y)) => *x == *y,
        (ForthOp::SetVar(x), ForthOp::SetVar(y)) => *x == *y,
        (ForthOp::IfThenElse(x), ForthOp::IfThenElse(y)) => *x == *y,
        (ForthOp::BeginUntil(x), ForthOp::BeginUntil(y)) => *x == *y,
        (ForthOp::BeginWhile(x), ForthOp::BeginWhile(y)) => *x == *y,
        _ => false,
    }
}

pub fn copy_op(op: &ForthOp) -> (r: ForthOp)
    ensures
        r == *op,
{
    match op {
        ForthOp::Prim(p) => ForthOp::Prim(*p),
        ForthOp::Variable(n) => ForthOp::Variable(n.clone()),
        ForthOp::Constant(n) => ForthOp::Constant(n.clone()),
        ForthOp::UserWord(n) => ForthOp::UserWord(n.clone()),
        ForthOp::GetVar(k) => ForthOp::GetVar(*k),
        ForthOp::SetVar(k) => ForthOp::SetVar(*k),
        ForthOp::IfThenElse(k) => ForthOp::IfThenElse(*k),
        ForthOp::BeginUntil(k) => ForthOp::BeginUntil(*k),
        ForthOp::BeginWhile(k) => ForthOp::BeginWhile(*k),
    }
}

pub fn copy_exp(e: &ForthExp) -> (r: ForthExp)
    ensures
        r == *e,
{
    match e {
        ForthExp::Number(n) => ForthExp::Number(*n),
        ForthExp::Op(op) => ForthExp::Op(copy_op(op)),
    }
}

pub fn copy_exps(v: &Vec<ForthExp>) -> (r: Vec<ForthExp>)
    ensures
        r@ == v@,
{
    let mut r: Vec<ForthExp> = Vec::new();
    let mut i: usize = 0;
    while i < v.len()
        invariant
            i <= v.len(),
            r@ == v@.take(i as int),
        decreases v.len() - i,
    {
        r.push(copy_exp(&v[i]));
        proof {
            assert(v@.take(i + 1) =~= v@.take(i as int).push(v@[i as int]));
        }
        i = i + 1;
    }
    proof {
        assert(v@.take(v.len() as int) =~= v@);
    }
    r
}

pub fn copy_func(f: &ForthFunc) -> (r: ForthFunc)
    ensures
        r@ == f@,
{
    match f {
        ForthFunc::Native(p) => ForthFunc::Native(*p),
        ForthFunc::User(v) => ForthFunc::User(copy_exps(v)),
        ForthFunc::Variable => ForthFunc::Variable,
        ForthFunc::ConstantDef(n) => ForthFunc::ConstantDef(n.clone()),
        ForthFunc::GetVar(n) => ForthFunc::GetVar(n.clone()),
        ForthFunc::SetVar(n) => ForthFunc::SetVar(n.clone()),
        ForthFunc::IfThenElse(t, e) => {
            let e2 = match e {
                Some(v) => Some(copy_exps(v)),
                None => None,
            };
            ForthFunc::IfThenElse(copy_exps(t), e2)
        },
        ForthFunc::BeginUntil(b) => ForthFunc::BeginUntil(copy_exps(b)),
        ForthFunc::BeginWhile(h, b) => ForthFunc::BeginWhile(copy_exps(h), copy_exps(b)),
    }
}

} // verus!
