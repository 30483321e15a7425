//! The parser: it turns tokens into an abstract syntax tree.

use vstd::prelude::*;
use crate::error::{ErrorModel, LciError};
use crate::text::{i64_decimal, int_decimal, str_eq};
use crate::tokenizer::{Keyword, Token, TokenModel, TokenType};

verus! {

/// Binary operators in LOLCODE.
#[derive(Debug, Clone, Copy, PartialEq, Eq)]
pub enum BinaryOperator {
    /// SUM OF
    Add,
    /// DIFF OF
    Sub,
    /// PRODUKT OF
    Mul,
    /// QUOSHUNT OF
    Div,
    /// MOD OF
    Mod,
    /// BIGGR OF
    Max,
    /// SMALLR OF
    Min,
    /// BOTH OF
    And,
    /// EITHER OF
    Or,
    /// WON OF
    Xor,
    /// BOTH SAEM
    Equal,
    /// DIFFRINT
    NotEqual,
}

/// Unary operators in LOLCODE.
#[derive(Debug, Clone, Copy, PartialEq, Eq)]
pub enum UnaryOperator {
    /// NOT
    Not,
}

/// Value types in LOLCODE.
#[derive(Debug, Clone, Copy, PartialEq, Eq)]
pub enum ValueType {
    /// NOOB - nil
    Noob,
    /// TROOF - boolean
    Troof,
    /// NUMBR - integer
    Numbr,
    /// NUMBAR - float
    Numbar,
    /// YARN - string
    Yarn,
    /// BUKKIT - array
    Bukkit,
}

/// Expression types in LOLCODE.
#[derive(Debug)]
pub enum Expression {
    /// Integer literal.
    Integer(i64),
    /// Float literal, as written.
    Float(String),
    /// String literal.
    String(String),
    /// Boolean literal.
    Boolean(bool),
    /// Nil value (NOOB).
    Nil,
    /// Variable reference.
    Variable(String),
    /// Implicit variable (IT).
    ImplicitVariable,
    /// Binary operation.
    BinaryOp { op: BinaryOperator, left: Box<Expression>, right: Box<Expression> },
    /// Unary operation.
    UnaryOp { op: UnaryOperator, operand: Box<Expression> },
    /// Function call.
    FunctionCall { name: String, args: Vec<Expression> },
    /// Type cast (MAEK expr A type).
    Cast { expr: Box<Expression>, target_type: ValueType },
}

/// Statement types in LOLCODE.
#[derive(Debug)]
pub enum Statement {
    /// Variable declaration (I HAS A var).
    Declaration { name: String, value: Option<Expression> },
    /// Assignment (var R value).
    Assignment { target: String, value: Expression },
    /// Print statement (VISIBLE expr).
    Print { expressions: Vec<Expression>, newline: bool, to_stderr: bool },
    /// Input statement (GIMMEH var).
    Input { target: String },
    /// If-then-else (O RLY?).
    IfThenElse {
        condition: Option<Expression>,
        then_block: Vec<Statement>,
        else_ifs: Vec<(Expression, Vec<Statement>)>,
        else_block: Option<Vec<Statement>>,
    },
    /// Loop (IM IN YR loop).
    Loop {
        label: String,
        operation: Option<String>,
        variable: Option<String>,
        condition: Option<(String, Expression)>,
        body: Vec<Statement>,
    },
    /// Function definition (HOW IZ I func).
    FunctionDef { name: String, params: Vec<String>, body: Vec<Statement> },
    /// Function call as statement.
    FunctionCall { name: String, args: Vec<Expression> },
    /// Return statement (FOUND YR expr).
    Return { value: Option<Expression> },
    /// Break statement (GTFO).
    Break,
    /// Expression statement (evaluates expression and stores in IT).
    Expression(Expression),
}

/// Main program node: the root of the tree.
#[derive(Debug)]
pub struct MainNode {
    /// The version after `HAI`: an integer's decimal writing, a float's
    /// text as written (its single precision form is the caller's to
    /// write), or 1.3 when there is none.
    pub version: String,
    pub statements: Vec<Statement>,
}

/// What an expression is, with its names as characters.
pub enum ExprM {
    Integer(i64),
    Float(Seq<char>),
    Str(Seq<char>),
    Boolean(bool),
    Nil,
    Variable(Seq<char>),
    Implicit,
    Binary(BinaryOperator, Box<ExprM>, Box<ExprM>),
    Unary(UnaryOperator, Box<ExprM>),
    Call(Seq<char>, Seq<ExprM>),
    Cast(Box<ExprM>, ValueType),
}

/// What a statement is, with its names as characters.
pub enum StmtM {
    Declaration(Seq<char>, Option<ExprM>),
    Assignment(Seq<char>, ExprM),
    Print(Seq<ExprM>, bool, bool),
    Input(Seq<char>),
    IfThenElse(Option<ExprM>, Seq<StmtM>, Seq<(ExprM, Seq<StmtM>)>, Option<Seq<StmtM>>),
    Loop(Seq<char>, Option<Seq<char>>, Option<Seq<char>>, Option<(Seq<char>, ExprM)>, Seq<StmtM>),
    FunctionDef(Seq<char>, Seq<Seq<char>>, Seq<StmtM>),
    FunctionCall(Seq<char>, Seq<ExprM>),
    Return(Option<ExprM>),
    Break,
    Expression(ExprM),
}

/// The characters of each string.
pub open spec fn strings_view(ss: Seq<String>) -> Seq<Seq<char>> {
    ss.map_values(|s: String| s@)
}

impl Expression {
    /// What the expression is.
    pub open spec fn model(&self) -> ExprM
        decreases self,
    {
        match self {
            Expression::Integer(v) => ExprM::Integer(*v),
            Expression::Float(s) => ExprM::Float(s@),
            Expression::String(s) => ExprM::Str(s@),
            Expression::Boolean(b) => ExprM::Boolean(*b),
            Expression::Nil => ExprM::Nil,
            Expression::Variable(s) => ExprM::Variable(s@),
            Expression::ImplicitVariable => ExprM::Implicit,
            Expression::BinaryOp { op, left, right } => ExprM::Binary(
                *op,
                Box::new(left.model()),
                Box::new(right.model()),
            ),
            Expression::UnaryOp { op, operand } => ExprM::Unary(*op, Box::new(operand.model())),
            Expression::FunctionCall { name, args } => ExprM::Call(name@, exprs_model(args@)),
            Expression::Cast { expr, target_type } => ExprM::Cast(
                Box::new(expr.model()),
                *target_type,
            ),
        }
    }
}

/// What each expression is.
pub open spec fn exprs_model(es: Seq<Expression>) -> Seq<ExprM>
    decreases es,
{
    if es.len() == 0 {
        Seq::empty()
    } else {
        seq![es[0].model()] + exprs_model(es.subrange(1, es.len() as int))
    }
}

} // verus!

verus! {

impl Statement {
    /// What the statement is.
    pub open spec fn model(&self) -> StmtM
        decreases self,
    {
        match self {
            Statement::Declaration { name, value } => StmtM::Declaration(
                name@,
                match value {
                    Some(e) => Some(e.model()),
                    None => None,
                },
            ),
            Statement::Assignment { target, value } => StmtM::Assignment(target@, value.model()),
            Statement::Print { expressions, newline, to_stderr } => StmtM::Print(
                exprs_model(expressions@),
                *newline,
                *to_stderr,
            ),
            Statement::Input { target } => StmtM::Input(target@),
            Statement::IfThenElse { condition, then_block, else_ifs, else_block } => StmtM::IfThenElse(
                match condition {
                    Some(e) => Some(e.model()),
                    None => None,
                },
                stmts_model(then_block@),
                branches_model(else_ifs@),
                match else_block {
                    Some(b) => Some(stmts_model(b@)),
                    None => None,
                },
            ),
            Statement::Loop { label, operation, variable, condition, body } => StmtM::Loop(
                label@,
                match operation {
                    Some(s) => Some(s@),
                    None => None,
                },
                match variable {
                    Some(s) => Some(s@),
                    None => None,
                },
                match condition {
                    Some((k, e)) => Some((k@, e.model())),
                    None => None,
                },
                stmts_model(body@),
            ),
            Statement::FunctionDef { name, params, body } => StmtM::FunctionDef(
                name@,
                strings_view(params@),
                stmts_model(body@),
            ),
            Statement::FunctionCall { name, args } => StmtM::FunctionCall(
                name@,
                exprs_model(args@),
            ),
            Statement::Return { value } => StmtM::Return(
                match value {
                    Some(e) => Some(e.model()),
                    None => None,
                },
            ),
            Statement::Break => StmtM::Break,
            Statement::Expression(e) => StmtM::Expression(e.model()),
        }
    }
}

/// What each statement is.
pub open spec fn stmts_model(ss: Seq<Statement>) -> Seq<StmtM>
    decreases ss,
{
    if ss.len() == 0 {
        Seq::empty()
    } else {
        seq![ss[0].model()] + stmts_model(ss.subrange(1, ss.len() as int))
    }
}

/// What each `MEBBE` branch is.
pub open spec fn branches_model(bs: Seq<(Expression, Vec<Statement>)>) -> Seq<(ExprM, Seq<StmtM>)>
    decreases bs,
{
    if bs.len() == 0 {
        Seq::empty()
    } else {
        seq![(bs[0].0.model(), stmts_model(bs[0].1@))] + branches_model(
            bs.subrange(1, bs.len() as int),
        )
    }
}

} // verus!

verus! {

/// The meanings of the tokens, in order.
pub open spec fn token_models(ts: Seq<Token>) -> Seq<TokenModel> {
    ts.map_values(|t: Token| t.token_type@)
}

/// The token at `p` is keyword `k`.
pub open spec fn kw_at(ts: Seq<TokenModel>, p: int, k: Keyword) -> bool {
    0 <= p < ts.len() && ts[p] == TokenModel::Keyword(k)
}

/// The name of the identifier at `p`, if one is there.
pub open spec fn ident_at(ts: Seq<TokenModel>, p: int) -> Option<Seq<char>> {
    if 0 <= p < ts.len() {
        match ts[p] {
            TokenModel::Identifier(n) => Some(n),
            _ => None,
        }
    } else {
        None
    }
}

/// The first position at or after `p` that is not a newline.
pub open spec fn skip_nl(ts: Seq<TokenModel>, p: int) -> int
    decreases ts.len() - p,
{
    if kw_at(ts, p, Keyword::Newline) {
        skip_nl(ts, p + 1)
    } else {
        p
    }
}

pub proof fn lemma_skip_nl(ts: Seq<TokenModel>, p: int)
    requires
        0 <= p <= ts.len(),
    ensures
        p <= skip_nl(ts, p) <= ts.len(),
    decreases ts.len() - p,
{
    if kw_at(ts, p, Keyword::Newline) {
        lemma_skip_nl(ts, p + 1);
    }
}

/// The error for a missing token, named as its type's `Debug` form.
pub open spec fn err_expected(name: Seq<char>) -> ErrorModel {
    ErrorModel { code: 410, texts: seq![Seq::empty(), name, Seq::empty()], lines: seq![0usize] }
}

/// The error for a missing identifier.
pub open spec fn err_expected_identifier() -> ErrorModel {
    ErrorModel { code: 409, texts: seq![Seq::empty(), Seq::empty()], lines: seq![0usize] }
}

/// The error for a missing expression.
pub open spec fn err_expected_expression() -> ErrorModel {
    ErrorModel { code: 412, texts: seq![Seq::empty(), Seq::empty()], lines: seq![0usize] }
}

/// The error for a missing statement.
pub open spec fn err_expected_statement() -> ErrorModel {
    ErrorModel { code: 421, texts: seq![Seq::empty(), Seq::empty()], lines: seq![0usize] }
}

/// The binary operator that a keyword starts.
pub open spec fn binop_of(k: Keyword) -> Option<BinaryOperator> {
    match k {
        Keyword::SumOf => Some(BinaryOperator::Add),
        Keyword::DiffOf => Some(BinaryOperator::Sub),
        Keyword::ProduktOf => Some(BinaryOperator::Mul),
        Keyword::QuoshuntOf => Some(BinaryOperator::Div),
        Keyword::ModOf => Some(BinaryOperator::Mod),
        Keyword::BiggrOf => Some(BinaryOperator::Max),
        Keyword::SmallrOf => Some(BinaryOperator::Min),
        Keyword::BothOf => Some(BinaryOperator::And),
        Keyword::EitherOf => Some(BinaryOperator::Or),
        Keyword::WonOf => Some(BinaryOperator::Xor),
        Keyword::BothSaem => Some(BinaryOperator::Equal),
        Keyword::Diffrint => Some(BinaryOperator::NotEqual),
        _ => None,
    }
}

/// Where a block of statements stops.
#[derive(Clone, Copy)]
pub enum BlockEnd {
    /// A `YA RLY` or `MEBBE` block: at MEBBE, NO WAI or OIC.
    Branch,
    /// A `NO WAI` block: at OIC.
    Else,
    /// A loop body: at IM OUTTA YR.
    LoopBody,
    /// A function body: at IF U SAY SO.
    FunctionBody,
}

/// The token ends a block of the given kind.
pub open spec fn ends_block(t: TokenModel, end: BlockEnd) -> bool {
    match end {
        BlockEnd::Branch => t == TokenModel::Keyword(Keyword::Mebbe) || t == TokenModel::Keyword(
            Keyword::NoWai,
        ) || t == TokenModel::Keyword(Keyword::Oic),
        BlockEnd::Else => t == TokenModel::Keyword(Keyword::Oic),
        BlockEnd::LoopBody => t == TokenModel::Keyword(Keyword::ImOuttaYr),
        BlockEnd::FunctionBody => t == TokenModel::Keyword(Keyword::IfUSaySo),
    }
}

/// A sub-parse ended inside `lo ..= ts.len()`.
pub open spec fn in_range(ts: Seq<TokenModel>, q: int, lo: int) -> bool {
    lo <= q <= ts.len()
}

/// An expression from `p`: the tree and the position after it.
pub open spec fn p_expr(ts: Seq<TokenModel>, p: int) -> Result<(ExprM, int), ErrorModel>
    decreases ts.len() - p, 0nat,
{
    if p < 0 || p >= ts.len() {
        Err(err_expected_expression())
    } else {
        match ts[p] {
            TokenModel::Integer(v) => Ok((ExprM::Integer(v), p + 1)),
            TokenModel::Float(s) => Ok((ExprM::Float(s), p + 1)),
            TokenModel::Str(s) => Ok((ExprM::Str(s), p + 1)),
            TokenModel::Boolean(b) => Ok((ExprM::Boolean(b), p + 1)),
            TokenModel::Identifier(n) => Ok((ExprM::Variable(n), p + 1)),
            TokenModel::Keyword(k) => {
                if k == Keyword::Noob {
                    Ok((ExprM::Nil, p + 1))
                } else if k == Keyword::It {
                    Ok((ExprM::Implicit, p + 1))
                } else if k == Keyword::Not {
                    match p_expr(ts, p + 1) {
                        Err(e) => Err(e),
                        Ok((x, q)) => Ok((ExprM::Unary(UnaryOperator::Not, Box::new(x)), q)),
                    }
                } else if binop_of(k) is Some {
                    match p_expr(ts, p + 1) {
                        Err(e) => Err(e),
                        Ok((l, q)) => if !in_range(ts, q, p + 1) {
                            Err(err_expected_statement())
                        } else {
                            let q2 = if kw_at(ts, q, Keyword::An) { q + 1 } else { q };
                            match p_expr(ts, q2) {
                                Err(e) => Err(e),
                                Ok((r, q3)) => Ok(
                                    (ExprM::Binary(binop_of(k).unwrap(), Box::new(l), Box::new(r)), q3),
                                ),
                            }
                        },
                    }
                } else {
                    Err(err_expected_expression())
                }
            },
        }
    }
}

} // verus!

verus! {

/// A declaration after `HAS A`: its name, and a value after `ITZ`.
pub open spec fn p_decl(ts: Seq<TokenModel>, p: int) -> Result<(StmtM, int), ErrorModel> {
    match ident_at(ts, p) {
        None => Err(err_expected_identifier()),
        Some(n) => if kw_at(ts, p + 1, Keyword::Itz) {
            match p_expr(ts, p + 2) {
                Err(e) => Err(e),
                Ok((x, q)) => Ok((StmtM::Declaration(n, Some(x)), skip_nl(ts, q))),
            }
        } else {
            Ok((StmtM::Declaration(n, None), skip_nl(ts, p + 1)))
        },
    }
}

/// The expressions that a print statement lists from `p`, whether a
/// newline follows them (a `!` says no), and where the list ends.
pub open spec fn p_print_items(ts: Seq<TokenModel>, p: int) -> Result<
    (Seq<ExprM>, bool, int),
    ErrorModel,
>
    decreases ts.len() - p,
{
    if p < 0 || p >= ts.len() || kw_at(ts, p, Keyword::Newline) || kw_at(ts, p, Keyword::Eof) {
        Ok((Seq::empty(), true, p))
    } else if kw_at(ts, p, Keyword::Bang) {
        Ok((Seq::empty(), false, p + 1))
    } else {
        match p_expr(ts, p) {
            Err(e) => Err(e),
            Ok((x, q)) => if !in_range(ts, q, p + 1) {
                Err(err_expected_statement())
            } else {
                match p_print_items(ts, q) {
                    Err(e) => Err(e),
                    Ok((rest, nl, r)) => Ok((seq![x] + rest, nl, r)),
                }
            },
        }
    }
}

/// A print statement after `VISIBLE` or `INVISIBLE`.
pub open spec fn p_print(ts: Seq<TokenModel>, p: int, to_stderr: bool) -> Result<
    (StmtM, int),
    ErrorModel,
> {
    match p_print_items(ts, p) {
        Err(e) => Err(e),
        Ok((xs, nl, r)) => Ok((StmtM::Print(xs, nl, to_stderr), skip_nl(ts, r))),
    }
}

/// An input statement after `GIMMEH`.
pub open spec fn p_input(ts: Seq<TokenModel>, p: int) -> Result<(StmtM, int), ErrorModel> {
    match ident_at(ts, p) {
        None => Err(err_expected_identifier()),
        Some(n) => Ok((StmtM::Input(n), skip_nl(ts, p + 1))),
    }
}

/// A return statement after `FOUND YR`: a value, unless a newline or the
/// end of input comes first.
pub open spec fn p_return(ts: Seq<TokenModel>, p: int) -> Result<(StmtM, int), ErrorModel> {
    if 0 <= p < ts.len() && !kw_at(ts, p, Keyword::Newline) && !kw_at(ts, p, Keyword::Eof) {
        match p_expr(ts, p) {
            Err(e) => Err(e),
            Ok((x, q)) => Ok((StmtM::Return(Some(x)), skip_nl(ts, q))),
        }
    } else {
        Ok((StmtM::Return(None), skip_nl(ts, p)))
    }
}

/// Parameter names from `p`: identifiers separated by `AN YR`.
pub open spec fn p_params(ts: Seq<TokenModel>, p: int) -> (Seq<Seq<char>>, int)
    decreases ts.len() - p,
{
    match ident_at(ts, p) {
        None => (Seq::empty(), p),
        Some(x) => if kw_at(ts, p + 1, Keyword::AnYr) {
            let (r, q) = p_params(ts, p + 2);
            (seq![x] + r, q)
        } else {
            (seq![x], p + 1)
        },
    }
}

/// A statement from `p`, newlines before it skipped.
pub open spec fn p_stmt(ts: Seq<TokenModel>, p: int) -> Result<(StmtM, int), ErrorModel>
    decreases ts.len() - p, 2nat,
{
    if p < 0 || p > ts.len() {
        Err(err_expected_statement())
    } else {
        let q = skip_nl(ts, p);
        proof {
            lemma_skip_nl(ts, p);
        }
        if q >= ts.len() {
            Err(err_expected_statement())
        } else {
            match ts[q] {
                TokenModel::Identifier(n) => if n == seq!['I'] && (kw_at(ts, q + 1, Keyword::HasA)
                    || kw_at(ts, q + 1, Keyword::HasAn)) {
                    p_decl(ts, q + 2)
                } else if kw_at(ts, q + 1, Keyword::R) {
                    match p_expr(ts, q + 2) {
                        Err(e) => Err(e),
                        Ok((x, r)) => Ok((StmtM::Assignment(n, x), skip_nl(ts, r))),
                    }
                } else {
                    match p_expr(ts, q) {
                        Err(e) => Err(e),
                        Ok((x, r)) => Ok((StmtM::Expression(x), skip_nl(ts, r))),
                    }
                },
                TokenModel::Keyword(k) => {
                    if k == Keyword::HasA || k == Keyword::HasAn {
                        p_decl(ts, q + 1)
                    } else if k == Keyword::Visible {
                        p_print(ts, q + 1, false)
                    } else if k == Keyword::Invisible {
                        p_print(ts, q + 1, true)
                    } else if k == Keyword::Gimmeh {
                        p_input(ts, q + 1)
                    } else if k == Keyword::ORly {
                        p_if(ts, q + 1)
                    } else if k == Keyword::ImInYr {
                        p_loop(ts, q + 1)
                    } else if k == Keyword::HowIz {
                        p_func(ts, q + 1)
                    } else if k == Keyword::FoundYr {
                        p_return(ts, q + 1)
                    } else if k == Keyword::Gtfo {
                        Ok((StmtM::Break, skip_nl(ts, q + 1)))
                    } else {
                        match p_expr(ts, q) {
                            Err(e) => Err(e),
                            Ok((x, r)) => Ok((StmtM::Expression(x), skip_nl(ts, r))),
                        }
                    }
                },
                _ => match p_expr(ts, q) {
                    Err(e) => Err(e),
                    Ok((x, r)) => Ok((StmtM::Expression(x), skip_nl(ts, r))),
                },
            }
        }
    }
}

/// Statements from `p` up to the token that ends the block, or the end of
/// input.
pub open spec fn p_block(ts: Seq<TokenModel>, p: int, end: BlockEnd) -> Result<
    (Seq<StmtM>, int),
    ErrorModel,
>
    decreases ts.len() - p, 3nat,
{
    if p < 0 || p >= ts.len() || ends_block(ts[p], end) {
        Ok((Seq::empty(), p))
    } else {
        match p_stmt(ts, p) {
            Err(e) => Err(e),
            Ok((s, q)) => if !in_range(ts, q, p + 1) {
                Err(err_expected_statement())
            } else {
                match p_block(ts, q, end) {
                    Err(e) => Err(e),
                    Ok((rest, r)) => Ok((seq![s] + rest, r)),
                }
            },
        }
    }
}

/// The `MEBBE` branches from `p`, each a condition and a block.
pub open spec fn p_elifs(ts: Seq<TokenModel>, p: int) -> Result<
    (Seq<(ExprM, Seq<StmtM>)>, int),
    ErrorModel,
>
    decreases ts.len() - p, 0nat,
{
    if !kw_at(ts, p, Keyword::Mebbe) {
        Ok((Seq::empty(), p))
    } else {
        match p_expr(ts, p + 1) {
            Err(e) => Err(e),
            Ok((c, q)) => if !in_range(ts, q, p + 1) {
                Err(err_expected_statement())
            } else {
                let q2 = skip_nl(ts, q);
                proof {
                    lemma_skip_nl(ts, q);
                }
                match p_block(ts, q2, BlockEnd::Branch) {
                    Err(e) => Err(e),
                    Ok((b, q3)) => if !in_range(ts, q3, q2) {
                        Err(err_expected_statement())
                    } else {
                        match p_elifs(ts, q3) {
                            Err(e) => Err(e),
                            Ok((rest, r)) => Ok((seq![(c, b)] + rest, r)),
                        }
                    },
                }
            },
        }
    }
}

/// A conditional after `O RLY?`: `YA RLY` and its block, `MEBBE`
/// branches, an optional `NO WAI` block, then `OIC`.
pub open spec fn p_if(ts: Seq<TokenModel>, p: int) -> Result<(StmtM, int), ErrorModel>
    decreases ts.len() - p, 0nat,
{
    if p < 0 || p > ts.len() {
        Err(err_expected_statement())
    } else {
        let p1 = skip_nl(ts, p);
        proof {
            lemma_skip_nl(ts, p);
        }
        if !kw_at(ts, p1, Keyword::YaRly) {
            Err(err_expected("YaRly"@))
        } else {
            let p2 = skip_nl(ts, p1 + 1);
            proof {
                lemma_skip_nl(ts, p1 + 1);
            }
            match p_block(ts, p2, BlockEnd::Branch) {
                Err(e) => Err(e),
                Ok((tb, q)) => if !in_range(ts, q, p2) {
                    Err(err_expected_statement())
                } else {
                    match p_elifs(ts, q) {
                        Err(e) => Err(e),
                        Ok((eis, q2)) => if !in_range(ts, q2, q) {
                            Err(err_expected_statement())
                        } else if kw_at(ts, q2, Keyword::NoWai) {
                            let q4 = skip_nl(ts, q2 + 1);
                            proof {
                                lemma_skip_nl(ts, q2 + 1);
                            }
                            match p_block(ts, q4, BlockEnd::Else) {
                                Err(e) => Err(e),
                                Ok((eb, q5)) => if !kw_at(ts, q5, Keyword::Oic) {
                                    Err(err_expected("Oic"@))
                                } else {
                                    Ok(
                                        (
                                            StmtM::IfThenElse(None, tb, eis, Some(eb)),
                                            skip_nl(ts, q5 + 1),
                                        ),
                                    )
                                },
                            }
                        } else if !kw_at(ts, q2, Keyword::Oic) {
                            Err(err_expected("Oic"@))
                        } else {
                            Ok((StmtM::IfThenElse(None, tb, eis, None), skip_nl(ts, q2 + 1)))
                        },
                    }
                },
            }
        }
    }
}

/// The loop operation after a loop's label: `UPPIN` or `NERFIN`, `YR`,
/// then an optional variable.
pub open spec fn p_loop_op(ts: Seq<TokenModel>, p: int) -> Result<
    (Option<Seq<char>>, Option<Seq<char>>, int),
    ErrorModel,
> {
    if kw_at(ts, p, Keyword::Uppin) || kw_at(ts, p, Keyword::Nerfin) {
        let op = if kw_at(ts, p, Keyword::Uppin) { "UPPIN"@ } else { "NERFIN"@ };
        if !kw_at(ts, p + 1, Keyword::Yr) {
            Err(err_expected("Yr"@))
        } else {
            match ident_at(ts, p + 2) {
                Some(v) => Ok((Some(op), Some(v), p + 3)),
                None => Ok((Some(op), None, p + 2)),
            }
        }
    } else {
        Ok((None, None, p))
    }
}

/// A loop after `IM IN YR`: its label, an optional operation, an optional
/// `TIL` or `WILE` condition, its body, then `IM OUTTA YR` and an optional
/// label.
pub open spec fn p_loop(ts: Seq<TokenModel>, p: int) -> Result<(StmtM, int), ErrorModel>
    decreases ts.len() - p, 0nat,
{
    match ident_at(ts, p) {
        None => Err(err_expected_identifier()),
        Some(label) => match p_loop_op(ts, p + 1) {
            Err(e) => Err(e),
            Ok((op, var, p2)) => {
                let cond: Result<(Option<(Seq<char>, ExprM)>, int), ErrorModel> = if kw_at(
                    ts,
                    p2,
                    Keyword::Til,
                ) || kw_at(ts, p2, Keyword::Wile) {
                    let ct = if kw_at(ts, p2, Keyword::Til) { "TIL"@ } else { "WILE"@ };
                    match p_expr(ts, p2 + 1) {
                        Err(e) => Err(e),
                        Ok((x, q)) => Ok((Some((ct, x)), q)),
                    }
                } else {
                    Ok((None, p2))
                };
                match cond {
                    Err(e) => Err(e),
                    Ok((c, q)) => if !in_range(ts, q, p + 1) {
                        Err(err_expected_statement())
                    } else {
                        let q1 = skip_nl(ts, q);
                        proof {
                            lemma_skip_nl(ts, q);
                        }
                        match p_block(ts, q1, BlockEnd::LoopBody) {
                            Err(e) => Err(e),
                            Ok((body, q2)) => if !kw_at(ts, q2, Keyword::ImOuttaYr) {
                                Err(err_expected("ImOuttaYr"@))
                            } else {
                                let q3 = if ident_at(ts, q2 + 1) is Some { q2 + 2 } else { q2 + 1 };
                                Ok((StmtM::Loop(label, op, var, c, body), skip_nl(ts, q3)))
                            },
                        }
                    },
                }
            },
        },
    }
}

/// A function definition after `HOW IZ`: an optional `I`, its name, its
/// parameters after `YR`, its body, then `IF U SAY SO`.
pub open spec fn p_func(ts: Seq<TokenModel>, p: int) -> Result<(StmtM, int), ErrorModel>
    decreases ts.len() - p, 0nat,
{
    let p1 = if ident_at(ts, p) == Some(seq!['I']) { p + 1 } else { p };
    match ident_at(ts, p1) {
        None => Err(err_expected_identifier()),
        Some(name) => {
            let (params, p2) = if kw_at(ts, p1 + 1, Keyword::Yr) {
                p_params(ts, p1 + 2)
            } else {
                (Seq::empty(), p1 + 1)
            };
            if !in_range(ts, p2, p1 + 1) {
                Err(err_expected_statement())
            } else {
                let p3 = skip_nl(ts, p2);
                proof {
                    lemma_skip_nl(ts, p2);
                }
                match p_block(ts, p3, BlockEnd::FunctionBody) {
                    Err(e) => Err(e),
                    Ok((body, q)) => if !kw_at(ts, q, Keyword::IfUSaySo) {
                        Err(err_expected("IfUSaySo"@))
                    } else {
                        Ok((StmtM::FunctionDef(name, params, body), skip_nl(ts, q + 1)))
                    },
                }
            }
        },
    }
}

/// The program's statements from `p`, blank lines skipped, up to
/// `KTHXBYE` or the end of input.
pub open spec fn p_main_stmts(ts: Seq<TokenModel>, p: int) -> Result<(Seq<StmtM>, int), ErrorModel>
    decreases ts.len() - p,
{
    if p < 0 || p >= ts.len() || kw_at(ts, p, Keyword::KThxBye) {
        Ok((Seq::empty(), p))
    } else if kw_at(ts, p, Keyword::Newline) {
        p_main_stmts(ts, p + 1)
    } else {
        match p_stmt(ts, p) {
            Err(e) => Err(e),
            Ok((s, q)) => if !in_range(ts, q, p + 1) {
                Err(err_expected_statement())
            } else {
                match p_main_stmts(ts, q) {
                    Err(e) => Err(e),
                    Ok((rest, r)) => Ok((seq![s] + rest, r)),
                }
            },
        }
    }
}

/// The version after `HAI`: a float's text, an integer's decimal writing,
/// or 1.3 when neither is there; and the position after it.
pub open spec fn p_version(ts: Seq<TokenModel>, p: int) -> (Seq<char>, int) {
    if 0 <= p < ts.len() {
        match ts[p] {
            TokenModel::Float(s) => (s, p + 1),
            TokenModel::Integer(v) => (int_decimal(v as int), p + 1),
            _ => ("1.3"@, p),
        }
    } else {
        ("1.3"@, p)
    }
}

/// A whole program: `HAI`, a version, statements, `KTHXBYE`.
pub open spec fn p_main(ts: Seq<TokenModel>) -> Result<(Seq<char>, Seq<StmtM>), ErrorModel> {
    if !kw_at(ts, 0, Keyword::Hai) {
        Err(err_expected("Hai"@))
    } else {
        let (version, p2) = p_version(ts, skip_nl(ts, 1));
        match p_main_stmts(ts, skip_nl(ts, p2)) {
            Err(e) => Err(e),
            Ok((ss, q)) => if !kw_at(ts, q, Keyword::KThxBye) {
                Err(err_expected("KThxBye"@))
            } else {
                Ok((version, ss))
            },
        }
    }
}

} // verus!

verus! {

pub proof fn lemma_exprs_model_push(es: Seq<Expression>, e: Expression)
    ensures
        exprs_model(es.push(e)) == exprs_model(es).push(e.model()),
    decreases es.len(),
{
    if es.len() == 0 {
        assert(es.push(e).subrange(1, 1) =~= Seq::<Expression>::empty());
        assert(exprs_model(es) == Seq::<ExprM>::empty());
        assert(exprs_model(es.push(e)) =~= seq![e.model()] + exprs_model(es.push(e).subrange(1, 1)));
    } else {
        let t = es.subrange(1, es.len() as int);
        assert(es.push(e).subrange(1, es.len() + 1int) =~= t.push(e));
        lemma_exprs_model_push(t, e);
        assert(es.push(e)[0] == es[0]);
        assert(exprs_model(es.push(e)) =~= exprs_model(es).push(e.model()));
    }
}

pub proof fn lemma_stmts_model_push(ss: Seq<Statement>, s: Statement)
    ensures
        stmts_model(ss.push(s)) == stmts_model(ss).push(s.model()),
    decreases ss.len(),
{
    if ss.len() == 0 {
        assert(ss.push(s).subrange(1, 1) =~= Seq::<Statement>::empty());
        assert(stmts_model(ss) == Seq::<StmtM>::empty());
        assert(stmts_model(ss.push(s)) =~= seq![s.model()] + stmts_model(ss.push(s).subrange(1, 1)));
    } else {
        let t = ss.subrange(1, ss.len() as int);
        assert(ss.push(s).subrange(1, ss.len() + 1int) =~= t.push(s));
        lemma_stmts_model_push(t, s);
        assert(ss.push(s)[0] == ss[0]);
        assert(stmts_model(ss.push(s)) =~= stmts_model(ss).push(s.model()));
    }
}

pub proof fn lemma_branches_model_push(
    bs: Seq<(Expression, Vec<Statement>)>,
    b: (Expression, Vec<Statement>),
)
    ensures
        branches_model(bs.push(b)) == branches_model(bs).push((b.0.model(), stmts_model(b.1@))),
    decreases bs.len(),
{
    if bs.len() == 0 {
        assert(bs.push(b).subrange(1, 1) =~= Seq::<(Expression, Vec<Statement>)>::empty());
        assert(branches_model(bs) == Seq::<(ExprM, Seq<StmtM>)>::empty());
        assert(branches_model(bs.push(b)) =~= seq![(b.0.model(), stmts_model(b.1@))] + branches_model(bs.push(b).subrange(1, 1)));
    } else {
        let t = bs.subrange(1, bs.len() as int);
        assert(bs.push(b).subrange(1, bs.len() + 1int) =~= t.push(b));
        lemma_branches_model_push(t, b);
        assert(bs.push(b)[0] == bs[0]);
        assert(branches_model(bs.push(b)) =~= branches_model(bs).push((b.0.model(), stmts_model(b.1@))));
    }
}

/// An expression parse gave what the specification says.
pub open spec fn expr_result(
    r: Result<(Expression, usize), LciError>,
    s: Result<(ExprM, int), ErrorModel>,
) -> bool {
    match r {
        Ok((e, q)) => s == Ok::<(ExprM, int), ErrorModel>((e.model(), q as int)),
        Err(err) => s == Err::<(ExprM, int), ErrorModel>(err@),
    }
}

/// A statement parse gave what the specification says.
pub open spec fn stmt_result(
    r: Result<(Statement, usize), LciError>,
    s: Result<(StmtM, int), ErrorModel>,
) -> bool {
    match r {
        Ok((st, q)) => s == Ok::<(StmtM, int), ErrorModel>((st.model(), q as int)),
        Err(err) => s == Err::<(StmtM, int), ErrorModel>(err@),
    }
}

/// A block parse gave what the specification says.
pub open spec fn block_result(
    r: Result<(Vec<Statement>, usize), LciError>,
    s: Result<(Seq<StmtM>, int), ErrorModel>,
) -> bool {
    match r {
        Ok((b, q)) => s == Ok::<(Seq<StmtM>, int), ErrorModel>((stmts_model(b@), q as int)),
        Err(err) => s == Err::<(Seq<StmtM>, int), ErrorModel>(err@),
    }
}

fn err_expected_exec(name: &str) -> (e: LciError)
    ensures
        e@ == err_expected(name@),
{
    LciError::ExpectedToken(String::new(), 0, String::from_str(name), String::new())
}

fn err_identifier_exec() -> (e: LciError)
    ensures
        e@ == err_expected_identifier(),
{
    LciError::ExpectedIdentifier(String::new(), 0, String::new())
}

fn err_expression_exec() -> (e: LciError)
    ensures
        e@ == err_expected_expression(),
{
    LciError::ExpectedExpression(String::new(), 0, String::new())
}

fn err_statement_exec() -> (e: LciError)
    ensures
        e@ == err_expected_statement(),
{
    LciError::ExpectedStatement(String::new(), 0, String::new())
}

fn kw_at_exec(ts: &[Token], p: usize, k: Keyword) -> (r: bool)
    ensures
        r == kw_at(token_models(ts@), p as int, k),
{
    if p < ts.len() {
        match ts[p].token_type.keyword() {
            Some(k2) => k2 == k,
            None => false,
        }
    } else {
        false
    }
}

fn ident_at_exec(ts: &[Token], p: usize) -> (r: Option<String>)
    ensures
        match ident_at(token_models(ts@), p as int) {
            Some(n) => r is Some && r.unwrap()@ == n,
            None => r is None,
        },
{
    if p < ts.len() {
        match &ts[p].token_type {
            TokenType::Identifier(n) => Some(n.clone()),
            _ => None,
        }
    } else {
        None
    }
}

fn skip_newlines(ts: &[Token], p: usize) -> (q: usize)
    requires
        p <= ts@.len(),
    ensures
        q as int == skip_nl(token_models(ts@), p as int),
        p <= q <= ts@.len(),
{
    let n = ts.len();
    let mut q = p;
    while kw_at_exec(ts, q, Keyword::Newline)
        invariant
            p <= q <= ts@.len(),
            n == ts@.len(),
            skip_nl(token_models(ts@), q as int) == skip_nl(token_models(ts@), p as int),
        decreases ts@.len() - q,
    {
        q = q + 1;
    }
    q
}

fn binop_of_exec(k: Keyword) -> (r: Option<BinaryOperator>)
    ensures
        r == binop_of(k),
{
    match k {
        Keyword::SumOf => Some(BinaryOperator::Add),
        Keyword::DiffOf => Some(BinaryOperator::Sub),
        Keyword::ProduktOf => Some(BinaryOperator::Mul),
        Keyword::QuoshuntOf => Some(BinaryOperator::Div),
        Keyword::ModOf => Some(BinaryOperator::Mod),
        Keyword::BiggrOf => Some(BinaryOperator::Max),
        Keyword::SmallrOf => Some(BinaryOperator::Min),
        Keyword::BothOf => Some(BinaryOperator::And),
        Keyword::EitherOf => Some(BinaryOperator::Or),
        Keyword::WonOf => Some(BinaryOperator::Xor),
        Keyword::BothSaem => Some(BinaryOperator::Equal),
        Keyword::Diffrint => Some(BinaryOperator::NotEqual),
        _ => None,
    }
}

/// Parse an expression at `p`.
fn parse_expression(ts: &[Token], p: usize) -> (r: Result<(Expression, usize), LciError>)
    ensures
        expr_result(r, p_expr(token_models(ts@), p as int)),
        r is Ok ==> r.unwrap().1 <= ts@.len(),
    decreases ts@.len() - p, 0nat,
{
    let ghost tm = token_models(ts@);
    if p >= ts.len() {
        return Err(err_expression_exec());
    }
    let ghost tp = ts@[p as int].token_type@;
    assert(tm[p as int] == tp);
    match &ts[p].token_type {
        TokenType::Integer(v) => Ok((Expression::Integer(*v), p + 1)),
        TokenType::Float(s) => Ok((Expression::Float(s.clone()), p + 1)),
        TokenType::String(s) => Ok((Expression::String(s.clone()), p + 1)),
        TokenType::Boolean(b) => Ok((Expression::Boolean(*b), p + 1)),
        TokenType::Identifier(n) => Ok((Expression::Variable(n.clone()), p + 1)),
        other => {
            let k = match other.keyword() {
                Some(k) => k,
                None => {
                    return Err(err_expression_exec());
                },
            };
            if k == Keyword::Noob {
                Ok((Expression::Nil, p + 1))
            } else if k == Keyword::It {
                Ok((Expression::ImplicitVariable, p + 1))
            } else if k == Keyword::Not {
                match parse_expression(ts, p + 1) {
                    Err(e) => Err(e),
                    Ok((x, q)) => Ok(
                        (Expression::UnaryOp { op: UnaryOperator::Not, operand: Box::new(x) }, q),
                    ),
                }
            } else {
                match binop_of_exec(k) {
                    None => Err(err_expression_exec()),
                    Some(op) => match parse_expression(ts, p + 1) {
                        Err(e) => Err(e),
                        Ok((l, q)) => {
                            if q < p + 1 || q > ts.len() {
                                return Err(err_statement_exec());
                            }
                            let q2 = if kw_at_exec(ts, q, Keyword::An) {
                                q + 1
                            } else {
                                q
                            };
                            match parse_expression(ts, q2) {
                                Err(e) => Err(e),
                                Ok((rr, q3)) => Ok(
                                    (
                                        Expression::BinaryOp {
                                            op,
                                            left: Box::new(l),
                                            right: Box::new(rr),
                                        },
                                        q3,
                                    ),
                                ),
                            }
                        },
                    },
                }
            }
        },
    }
}

} // verus!

verus! {

fn parse_declaration(ts: &[Token], p: usize) -> (r: Result<(Statement, usize), LciError>)
    requires
        p <= ts@.len(),
    ensures
        stmt_result(r, p_decl(token_models(ts@), p as int)),
        r is Ok ==> r.unwrap().1 <= ts@.len(),
{
    let n = ts.len();
    let name = match ident_at_exec(ts, p) {
        Some(n) => n,
        None => {
            return Err(err_identifier_exec());
        },
    };
    if kw_at_exec(ts, p + 1, Keyword::Itz) {
        match parse_expression(ts, p + 2) {
            Err(e) => Err(e),
            Ok((x, q)) => {
                let q2 = skip_newlines(ts, q);
                Ok((Statement::Declaration { name, value: Some(x) }, q2))
            },
        }
    } else {
        let q2 = skip_newlines(ts, p + 1);
        Ok((Statement::Declaration { name, value: None }, q2))
    }
}

fn parse_print(ts: &[Token], p0: usize, to_stderr: bool) -> (r: Result<(Statement, usize), LciError>)
    requires
        p0 <= ts@.len(),
    ensures
        stmt_result(r, p_print(token_models(ts@), p0 as int, to_stderr)),
        r is Ok ==> r.unwrap().1 <= ts@.len(),
{
    let ghost tm = token_models(ts@);
    let n = ts.len();
    let mut expressions: Vec<Expression> = Vec::new();
    let mut p = p0;
    let mut newline = true;
    loop
        invariant_except_break
            p0 <= p <= n == ts@.len(),
            tm == token_models(ts@),
            newline,
            p_print_items(tm, p0 as int) == match p_print_items(tm, p as int) {
                Ok((rest, nl, e)) => Ok((exprs_model(expressions@) + rest, nl, e)),
                Err(e) => Err(e),
            },
        ensures
            p0 <= p <= n,
            p_print_items(tm, p0 as int) == Ok::<(Seq<ExprM>, bool, int), ErrorModel>(
                (exprs_model(expressions@), newline, p as int),
            ),
        decreases n - p,
    {
        if p >= n || kw_at_exec(ts, p, Keyword::Newline) || kw_at_exec(ts, p, Keyword::Eof) {
            assert(exprs_model(expressions@) + Seq::<ExprM>::empty() =~= exprs_model(expressions@));
            break;
        }
        if kw_at_exec(ts, p, Keyword::Bang) {
            assert(exprs_model(expressions@) + Seq::<ExprM>::empty() =~= exprs_model(expressions@));
            newline = false;
            p = p + 1;
            break;
        }
        match parse_expression(ts, p) {
            Err(e) => {
                return Err(e);
            },
            Ok((x, q)) => {
                if q < p + 1 || q > n {
                    return Err(err_statement_exec());
                }
                proof {
                    lemma_exprs_model_push(expressions@, x);
                    match p_print_items(tm, q as int) {
                        Ok((rest, nl, e)) => {
                            assert(exprs_model(expressions@) + (seq![x.model()] + rest)
                                =~= exprs_model(expressions@).push(x.model()) + rest);
                        },
                        Err(e) => {},
                    }
                }
                expressions.push(x);
                p = q;
            },
        }
    }
    let q = skip_newlines(ts, p);
    Ok((Statement::Print { expressions, newline, to_stderr }, q))
}

fn parse_input(ts: &[Token], p: usize) -> (r: Result<(Statement, usize), LciError>)
    requires
        p <= ts@.len(),
    ensures
        stmt_result(r, p_input(token_models(ts@), p as int)),
        r is Ok ==> r.unwrap().1 <= ts@.len(),
{
    let n = ts.len();
    match ident_at_exec(ts, p) {
        Some(target) => {
            let q = skip_newlines(ts, p + 1);
            Ok((Statement::Input { target }, q))
        },
        None => Err(err_identifier_exec()),
    }
}

fn parse_return(ts: &[Token], p: usize) -> (r: Result<(Statement, usize), LciError>)
    requires
        p <= ts@.len(),
    ensures
        stmt_result(r, p_return(token_models(ts@), p as int)),
        r is Ok ==> r.unwrap().1 <= ts@.len(),
{
    if p < ts.len() && !kw_at_exec(ts, p, Keyword::Newline) && !kw_at_exec(ts, p, Keyword::Eof) {
        match parse_expression(ts, p) {
            Err(e) => Err(e),
            Ok((x, q)) => {
                let q2 = skip_newlines(ts, q);
                Ok((Statement::Return { value: Some(x) }, q2))
            },
        }
    } else {
        let q = skip_newlines(ts, p);
        Ok((Statement::Return { value: None }, q))
    }
}

fn parse_params(ts: &[Token], p0: usize) -> (r: (Vec<String>, usize))
    requires
        p0 <= ts@.len(),
    ensures
        strings_view(r.0@) == p_params(token_models(ts@), p0 as int).0,
        r.1 as int == p_params(token_models(ts@), p0 as int).1,
        p0 <= r.1 <= ts@.len(),
{
    let ghost tm = token_models(ts@);
    let n = ts.len();
    let mut params: Vec<String> = Vec::new();
    let mut p = p0;
    loop
        invariant_except_break
            p0 <= p <= n == ts@.len(),
            tm == token_models(ts@),
            p_params(tm, p0 as int) == (
                strings_view(params@) + p_params(tm, p as int).0,
                p_params(tm, p as int).1,
            ),
        ensures
            p0 <= p <= n,
            p_params(tm, p0 as int) == (strings_view(params@), p as int),
        decreases n - p,
    {
        match ident_at_exec(ts, p) {
            None => {
                assert(strings_view(params@) + Seq::<Seq<char>>::empty() =~= strings_view(params@));
                break;
            },
            Some(x) => {
                let ghost before = params@;
                let ghost xv = x@;
                params.push(x);
                assert(strings_view(params@) =~= strings_view(before).push(xv));
                if kw_at_exec(ts, p + 1, Keyword::AnYr) {
                    proof {
                        let rest = p_params(tm, p + 2);
                        assert(strings_view(before) + (seq![xv] + rest.0) =~= strings_view(params@)
                            + rest.0);
                    }
                    p = p + 2;
                } else {
                    assert(strings_view(before) + seq![xv] =~= strings_view(params@));
                    p = p + 1;
                    break;
                }
            },
        }
    }
    (params, p)
}

} // verus!

verus! {

fn ends_block_exec(ts: &[Token], p: usize, end: BlockEnd) -> (r: bool)
    requires
        p < ts@.len(),
    ensures
        r == ends_block(token_models(ts@)[p as int], end),
{
    match end {
        BlockEnd::Branch => kw_at_exec(ts, p, Keyword::Mebbe) || kw_at_exec(ts, p, Keyword::NoWai)
            || kw_at_exec(ts, p, Keyword::Oic),
        BlockEnd::Else => kw_at_exec(ts, p, Keyword::Oic),
        BlockEnd::LoopBody => kw_at_exec(ts, p, Keyword::ImOuttaYr),
        BlockEnd::FunctionBody => kw_at_exec(ts, p, Keyword::IfUSaySo),
    }
}

fn expression_statement(ts: &[Token], q: usize) -> (r: Result<(Statement, usize), LciError>)
    requires
        q <= ts@.len(),
    ensures
        stmt_result(
            r,
            match p_expr(token_models(ts@), q as int) {
                Err(e) => Err(e),
                Ok((x, r)) => Ok((StmtM::Expression(x), skip_nl(token_models(ts@), r))),
            },
        ),
        r is Ok ==> r.unwrap().1 <= ts@.len(),
{
    match parse_expression(ts, q) {
        Err(e) => Err(e),
        Ok((x, r)) => {
            let r2 = skip_newlines(ts, r);
            Ok((Statement::Expression(x), r2))
        },
    }
}

/// Parse a statement at `p`, skipping newlines before it.
fn parse_statement(ts: &[Token], p: usize) -> (r: Result<(Statement, usize), LciError>)
    ensures
        stmt_result(r, p_stmt(token_models(ts@), p as int)),
        r is Ok ==> r.unwrap().1 <= ts@.len(),
    decreases ts@.len() - p, 2nat,
{
    let n = ts.len();
    if p > n {
        return Err(err_statement_exec());
    }
    let q = skip_newlines(ts, p);
    if q >= n {
        return Err(err_statement_exec());
    }
    let ghost tm = token_models(ts@);
    assert(tm[q as int] == ts@[q as int].token_type@);
    match &ts[q].token_type {
        TokenType::Identifier(name) => {
            proof {
                reveal_strlit("I");
                assert("I"@ =~= seq!['I']);
            }
            if str_eq(name.as_str(), "I") && (kw_at_exec(ts, q + 1, Keyword::HasA) || kw_at_exec(
                ts,
                q + 1,
                Keyword::HasAn,
            )) {
                parse_declaration(ts, q + 2)
            } else if kw_at_exec(ts, q + 1, Keyword::R) {
                match parse_expression(ts, q + 2) {
                    Err(e) => Err(e),
                    Ok((x, r)) => {
                        let r2 = skip_newlines(ts, r);
                        Ok((Statement::Assignment { target: name.clone(), value: x }, r2))
                    },
                }
            } else {
                expression_statement(ts, q)
            }
        },
        other => match other.keyword() {
            None => expression_statement(ts, q),
            Some(k) => {
                if k == Keyword::HasA || k == Keyword::HasAn {
                    parse_declaration(ts, q + 1)
                } else if k == Keyword::Visible {
                    parse_print(ts, q + 1, false)
                } else if k == Keyword::Invisible {
                    parse_print(ts, q + 1, true)
                } else if k == Keyword::Gimmeh {
                    parse_input(ts, q + 1)
                } else if k == Keyword::ORly {
                    parse_if_then_else(ts, q + 1)
                } else if k == Keyword::ImInYr {
                    parse_loop(ts, q + 1)
                } else if k == Keyword::HowIz {
                    parse_function_def(ts, q + 1)
                } else if k == Keyword::FoundYr {
                    parse_return(ts, q + 1)
                } else if k == Keyword::Gtfo {
                    let r2 = skip_newlines(ts, q + 1);
                    Ok((Statement::Break, r2))
                } else {
                    expression_statement(ts, q)
                }
            },
        },
    }
}

/// Parse statements from `p0` up to the token that ends the block.
fn parse_block(ts: &[Token], p0: usize, end: BlockEnd) -> (r: Result<
    (Vec<Statement>, usize),
    LciError,
>)
    requires
        p0 <= ts@.len(),
    ensures
        block_result(r, p_block(token_models(ts@), p0 as int, end)),
        r is Ok ==> r.unwrap().1 <= ts@.len(),
    decreases ts@.len() - p0, 3nat,
{
    let ghost tm = token_models(ts@);
    let n = ts.len();
    let mut out: Vec<Statement> = Vec::new();
    let mut p = p0;
    loop
        invariant
            p0 <= p <= n == ts@.len(),
            tm == token_models(ts@),
            p_block(tm, p0 as int, end) == match p_block(tm, p as int, end) {
                Ok((rest, e)) => Ok((stmts_model(out@) + rest, e)),
                Err(e) => Err(e),
            },
        decreases n - p,
    {
        if p >= n || ends_block_exec(ts, p, end) {
            assert(stmts_model(out@) + Seq::<StmtM>::empty() =~= stmts_model(out@));
            return Ok((out, p));
        }
        match parse_statement(ts, p) {
            Err(e) => {
                return Err(e);
            },
            Ok((s, q)) => {
                if q < p + 1 || q > n {
                    return Err(err_statement_exec());
                }
                proof {
                    lemma_stmts_model_push(out@, s);
                    match p_block(tm, q as int, end) {
                        Ok((rest, e)) => {
                            assert(stmts_model(out@) + (seq![s.model()] + rest)
                                =~= stmts_model(out@).push(s.model()) + rest);
                        },
                        Err(e) => {},
                    }
                }
                out.push(s);
                p = q;
            },
        }
    }
}

/// A `MEBBE` branch list parse gave what the specification says.
pub open spec fn elifs_result(
    r: Result<(Vec<(Expression, Vec<Statement>)>, usize), LciError>,
    s: Result<(Seq<(ExprM, Seq<StmtM>)>, int), ErrorModel>,
) -> bool {
    match r {
        Ok((b, q)) => s == Ok::<(Seq<(ExprM, Seq<StmtM>)>, int), ErrorModel>(
            (branches_model(b@), q as int),
        ),
        Err(err) => s == Err::<(Seq<(ExprM, Seq<StmtM>)>, int), ErrorModel>(err@),
    }
}

fn parse_else_ifs(ts: &[Token], p0: usize) -> (r: Result<
    (Vec<(Expression, Vec<Statement>)>, usize),
    LciError,
>)
    requires
        p0 <= ts@.len(),
    ensures
        elifs_result(r, p_elifs(token_models(ts@), p0 as int)),
        r is Ok ==> p0 <= r.unwrap().1 <= ts@.len(),
    decreases ts@.len() - p0, 0nat,
{
    let ghost tm = token_models(ts@);
    let n = ts.len();
    let mut out: Vec<(Expression, Vec<Statement>)> = Vec::new();
    let mut p = p0;
    loop
        invariant
            p0 <= p <= n == ts@.len(),
            tm == token_models(ts@),
            p_elifs(tm, p0 as int) == match p_elifs(tm, p as int) {
                Ok((rest, e)) => Ok((branches_model(out@) + rest, e)),
                Err(e) => Err(e),
            },
        decreases n - p,
    {
        if !kw_at_exec(ts, p, Keyword::Mebbe) {
            assert(branches_model(out@) + Seq::<(ExprM, Seq<StmtM>)>::empty() =~= branches_model(
                out@,
            ));
            return Ok((out, p));
        }
        let (c, q) = match parse_expression(ts, p + 1) {
            Err(e) => {
                return Err(e);
            },
            Ok(x) => x,
        };
        if q < p + 1 || q > n {
            return Err(err_statement_exec());
        }
        let q2 = skip_newlines(ts, q);
        let (b, q3) = match parse_block(ts, q2, BlockEnd::Branch) {
            Err(e) => {
                return Err(e);
            },
            Ok(x) => x,
        };
        if q3 < q2 || q3 > n {
            return Err(err_statement_exec());
        }
        let ghost item = (c, b);
        proof {
            lemma_branches_model_push(out@, item);
            match p_elifs(tm, q3 as int) {
                Ok((rest, e)) => {
                    assert(branches_model(out@) + (seq![(c.model(), stmts_model(b@))] + rest)
                        =~= branches_model(out@).push((c.model(), stmts_model(b@))) + rest);
                },
                Err(e) => {},
            }
        }
        out.push((c, b));
        p = q3;
    }
}

/// Parse a conditional after `O RLY?`.
fn parse_if_then_else(ts: &[Token], p: usize) -> (r: Result<(Statement, usize), LciError>)
    requires
        p <= ts@.len(),
    ensures
        stmt_result(r, p_if(token_models(ts@), p as int)),
        r is Ok ==> r.unwrap().1 <= ts@.len(),
    decreases ts@.len() - p, 0nat,
{
    let n = ts.len();
    let p1 = skip_newlines(ts, p);
    if !kw_at_exec(ts, p1, Keyword::YaRly) {
        return Err(err_expected_exec("YaRly"));
    }
    let p2 = skip_newlines(ts, p1 + 1);
    let (then_block, q) = match parse_block(ts, p2, BlockEnd::Branch) {
        Err(e) => {
            return Err(e);
        },
        Ok(x) => x,
    };
    if q < p2 || q > n {
        return Err(err_statement_exec());
    }
    let (else_ifs, q2) = match parse_else_ifs(ts, q) {
        Err(e) => {
            return Err(e);
        },
        Ok(x) => x,
    };
    if q2 < q || q2 > n {
        return Err(err_statement_exec());
    }
    if kw_at_exec(ts, q2, Keyword::NoWai) {
        let q4 = skip_newlines(ts, q2 + 1);
        let (else_block, q5) = match parse_block(ts, q4, BlockEnd::Else) {
            Err(e) => {
                return Err(e);
            },
            Ok(x) => x,
        };
        if !kw_at_exec(ts, q5, Keyword::Oic) {
            return Err(err_expected_exec("Oic"));
        }
        let q6 = skip_newlines(ts, q5 + 1);
        Ok((Statement::IfThenElse { condition: None, then_block, else_ifs, else_block: Some(else_block) }, q6))
    } else if !kw_at_exec(ts, q2, Keyword::Oic) {
        Err(err_expected_exec("Oic"))
    } else {
        let q6 = skip_newlines(ts, q2 + 1);
        Ok((Statement::IfThenElse { condition: None, then_block, else_ifs, else_block: None }, q6))
    }
}

fn parse_loop_operation(ts: &[Token], p: usize) -> (r: Result<
    (Option<String>, Option<String>, usize),
    LciError,
>)
    requires
        p <= ts@.len(),
    ensures
        match r {
            Ok((op, var, q)) => p_loop_op(token_models(ts@), p as int) == Ok::<
                (Option<Seq<char>>, Option<Seq<char>>, int),
                ErrorModel,
            >(
                (
                    match op {
                        Some(s) => Some(s@),
                        None => None,
                    },
                    match var {
                        Some(s) => Some(s@),
                        None => None,
                    },
                    q as int,
                ),
            ) && p <= q <= ts@.len(),
            Err(e) => p_loop_op(token_models(ts@), p as int) == Err::<
                (Option<Seq<char>>, Option<Seq<char>>, int),
                ErrorModel,
            >(e@),
        },
{
    let n = ts.len();
    let up = kw_at_exec(ts, p, Keyword::Uppin);
    if up || kw_at_exec(ts, p, Keyword::Nerfin) {
        let op = if up {
            String::from_str("UPPIN")
        } else {
            String::from_str("NERFIN")
        };
        if !kw_at_exec(ts, p + 1, Keyword::Yr) {
            return Err(err_expected_exec("Yr"));
        }
        match ident_at_exec(ts, p + 2) {
            Some(v) => Ok((Some(op), Some(v), p + 3)),
            None => Ok((Some(op), None, p + 2)),
        }
    } else {
        Ok((None, None, p))
    }
}

/// Parse a loop after `IM IN YR`.
fn parse_loop(ts: &[Token], p: usize) -> (r: Result<(Statement, usize), LciError>)
    requires
        p <= ts@.len(),
    ensures
        stmt_result(r, p_loop(token_models(ts@), p as int)),
        r is Ok ==> r.unwrap().1 <= ts@.len(),
    decreases ts@.len() - p, 0nat,
{
    let n = ts.len();
    let label = match ident_at_exec(ts, p) {
        Some(l) => l,
        None => {
            return Err(err_identifier_exec());
        },
    };
    let (operation, variable, p2) = match parse_loop_operation(ts, p + 1) {
        Err(e) => {
            return Err(e);
        },
        Ok(x) => x,
    };
    let til = kw_at_exec(ts, p2, Keyword::Til);
    let (condition, q) = if til || kw_at_exec(ts, p2, Keyword::Wile) {
        let ct = if til {
            String::from_str("TIL")
        } else {
            String::from_str("WILE")
        };
        match parse_expression(ts, p2 + 1) {
            Err(e) => {
                return Err(e);
            },
            Ok((x, q)) => (Some((ct, x)), q),
        }
    } else {
        (None, p2)
    };
    if q < p + 1 || q > n {
        return Err(err_statement_exec());
    }
    let q1 = skip_newlines(ts, q);
    let (body, q2) = match parse_block(ts, q1, BlockEnd::LoopBody) {
        Err(e) => {
            return Err(e);
        },
        Ok(x) => x,
    };
    if !kw_at_exec(ts, q2, Keyword::ImOuttaYr) {
        return Err(err_expected_exec("ImOuttaYr"));
    }
    let q3 = match ident_at_exec(ts, q2 + 1) {
        Some(_) => q2 + 2,
        None => q2 + 1,
    };
    let q4 = skip_newlines(ts, q3);
    Ok((Statement::Loop { label, operation, variable, condition, body }, q4))
}

/// Parse a function definition after `HOW IZ`.
fn parse_function_def(ts: &[Token], p: usize) -> (r: Result<(Statement, usize), LciError>)
    requires
        p <= ts@.len(),
    ensures
        stmt_result(r, p_func(token_models(ts@), p as int)),
        r is Ok ==> r.unwrap().1 <= ts@.len(),
    decreases ts@.len() - p, 0nat,
{
    let n = ts.len();
    let p1 = match ident_at_exec(ts, p) {
        Some(s) => {
            let cs = crate::text::chars_of(s.as_str());
            if cs.len() == 1 && cs[0] == 'I' {
                assert(s@ =~= seq!['I']);
                p + 1
            } else {
                assert(s@ != seq!['I']);
                p
            }
        },
        None => p,
    };
    let name = match ident_at_exec(ts, p1) {
        Some(nm) => nm,
        None => {
            return Err(err_identifier_exec());
        },
    };
    let (params, p2) = if kw_at_exec(ts, p1 + 1, Keyword::Yr) {
        parse_params(ts, p1 + 2)
    } else {
        let v: Vec<String> = Vec::new();
        assert(strings_view(v@) =~= Seq::<Seq<char>>::empty());
        (v, p1 + 1)
    };
    if p2 < p1 + 1 || p2 > n {
        return Err(err_statement_exec());
    }
    let p3 = skip_newlines(ts, p2);
    let (body, q) = match parse_block(ts, p3, BlockEnd::FunctionBody) {
        Err(e) => {
            return Err(e);
        },
        Ok(x) => x,
    };
    if !kw_at_exec(ts, q, Keyword::IfUSaySo) {
        return Err(err_expected_exec("IfUSaySo"));
    }
    let q2 = skip_newlines(ts, q + 1);
    Ok((Statement::FunctionDef { name, params, body }, q2))
}

} // verus!

verus! {

fn parse_main_statements(ts: &[Token], p0: usize) -> (r: Result<(Vec<Statement>, usize), LciError>)
    requires
        p0 <= ts@.len(),
    ensures
        block_result(r, p_main_stmts(token_models(ts@), p0 as int)),
        r is Ok ==> r.unwrap().1 <= ts@.len(),
{
    let ghost tm = token_models(ts@);
    let n = ts.len();
    let mut out: Vec<Statement> = Vec::new();
    let mut p = p0;
    loop
        invariant
            p0 <= p <= n == ts@.len(),
            tm == token_models(ts@),
            p_main_stmts(tm, p0 as int) == match p_main_stmts(tm, p as int) {
                Ok((rest, e)) => Ok((stmts_model(out@) + rest, e)),
                Err(e) => Err(e),
            },
        decreases n - p,
    {
        if p >= n || kw_at_exec(ts, p, Keyword::KThxBye) {
            assert(stmts_model(out@) + Seq::<StmtM>::empty() =~= stmts_model(out@));
            return Ok((out, p));
        }
        if kw_at_exec(ts, p, Keyword::Newline) {
            p = p + 1;
        } else {
            match parse_statement(ts, p) {
                Err(e) => {
                    return Err(e);
                },
                Ok((s, q)) => {
                    if q < p + 1 || q > n {
                        return Err(err_statement_exec());
                    }
                    proof {
                        lemma_stmts_model_push(out@, s);
                        match p_main_stmts(tm, q as int) {
                            Ok((rest, e)) => {
                                assert(stmts_model(out@) + (seq![s.model()] + rest)
                                    =~= stmts_model(out@).push(s.model()) + rest);
                            },
                            Err(e) => {},
                        }
                    }
                    out.push(s);
                    p = q;
                },
            }
        }
    }
}

/// Parse tokens into a syntax tree: `HAI`, an optional version,
/// statements, then `KTHXBYE`.
pub fn parse_main_node(tokens: &[Token]) -> (r: Result<MainNode, LciError>)
    ensures
        match r {
            Ok(m) => p_main(token_models(tokens@)) == Ok::<(Seq<char>, Seq<StmtM>), ErrorModel>(
                (m.version@, stmts_model(m.statements@)),
            ),
            Err(e) => p_main(token_models(tokens@)) == Err::<(Seq<char>, Seq<StmtM>), ErrorModel>(
                e@,
            ),
        },
{
    let ts = tokens;
    let n = ts.len();
    let ghost tm = token_models(ts@);
    if !kw_at_exec(ts, 0, Keyword::Hai) {
        return Err(err_expected_exec("Hai"));
    }
    let p1 = skip_newlines(ts, 1);
    let (version, p2) = if p1 < n {
        assert(tm[p1 as int] == ts@[p1 as int].token_type@);
        match &ts[p1].token_type {
            TokenType::Float(s) => (s.clone(), p1 + 1),
            TokenType::Integer(v) => (i64_decimal(*v), p1 + 1),
            _ => (String::from_str("1.3"), p1),
        }
    } else {
        (String::from_str("1.3"), p1)
    };
    let p3 = skip_newlines(ts, p2);
    let (statements, q) = match parse_main_statements(ts, p3) {
        Err(e) => {
            return Err(e);
        },
        Ok(x) => x,
    };
    if !kw_at_exec(ts, q, Keyword::KThxBye) {
        return Err(err_expected_exec("KThxBye"));
    }
    Ok(MainNode { version, statements })
}

} // verus!

verus! {

fn duplicate_string_option(o: &Option<String>) -> (r: Option<String>)
    ensures
        match o {
            Some(s) => r is Some && r.unwrap()@ == s@,
            None => r is None,
        },
{
    match o {
        Some(s) => Some(s.clone()),
        None => None,
    }
}

/// A copy of the strings.
pub fn duplicate_strings(v: &Vec<String>) -> (r: Vec<String>)
    ensures
        strings_view(r@) == strings_view(v@),
{
    let mut out: Vec<String> = Vec::new();
    let mut i: usize = 0;
    while i < v.len()
        invariant
            i <= v@.len(),
            out@.len() == i,
            forall|j: int| 0 <= j < i ==> (#[trigger] out@[j])@ == v@[j]@,
        decreases v@.len() - i,
    {
        out.push(v[i].clone());
        i = i + 1;
    }
    assert(strings_view(out@) =~= strings_view(v@));
    out
}

impl Expression {
    /// A copy of the expression, with the same meaning.
    pub fn duplicate(&self) -> (r: Self)
        ensures
            r.model() == self.model(),
        decreases self,
    {
        match self {
            Expression::Integer(v) => Expression::Integer(*v),
            Expression::Float(s) => Expression::Float(s.clone()),
            Expression::String(s) => Expression::String(s.clone()),
            Expression::Boolean(b) => Expression::Boolean(*b),
            Expression::Nil => Expression::Nil,
            Expression::Variable(s) => Expression::Variable(s.clone()),
            Expression::ImplicitVariable => Expression::ImplicitVariable,
            Expression::BinaryOp { op, left, right } => Expression::BinaryOp {
                op: *op,
                left: Box::new((**left).duplicate()),
                right: Box::new((**right).duplicate()),
            },
            Expression::UnaryOp { op, operand } => Expression::UnaryOp {
                op: *op,
                operand: Box::new((**operand).duplicate()),
            },
            Expression::FunctionCall { name, args } => Expression::FunctionCall {
                name: name.clone(),
                args: duplicate_expressions(args),
            },
            Expression::Cast { expr, target_type } => Expression::Cast {
                expr: Box::new((**expr).duplicate()),
                target_type: *target_type,
            },
        }
    }
}

/// A copy of the expressions, with the same meanings.
pub fn duplicate_expressions(v: &Vec<Expression>) -> (r: Vec<Expression>)
    ensures
        exprs_model(r@) == exprs_model(v@),
    decreases v,
{
    let mut out: Vec<Expression> = Vec::new();
    let mut i: usize = 0;
    while i < v.len()
        invariant
            i <= v@.len(),
            exprs_model(out@) == exprs_model(v@.subrange(0, i as int)),
        decreases v@.len() - i,
    {
        proof {
            assert(decreases_to!(v => v@));
            assert(decreases_to!(v@ => v@[i as int]));
        }
        let x = v[i].duplicate();
        proof {
            lemma_exprs_model_push(out@, x);
            lemma_exprs_model_push(v@.subrange(0, i as int), v@[i as int]);
            assert(v@.subrange(0, i + 1) =~= v@.subrange(0, i as int).push(v@[i as int]));
        }
        out.push(x);
        i = i + 1;
    }
    assert(v@.subrange(0, v@.len() as int) =~= v@);
    out
}

} // verus!

verus! {

fn duplicate_expression_option(o: &Option<Expression>) -> (r: Option<Expression>)
    ensures
        match o {
            Some(e) => r is Some && r.unwrap().model() == e.model(),
            None => r is None,
        },
{
    match o {
        Some(e) => Some(e.duplicate()),
        None => None,
    }
}

impl Statement {
    /// A copy of the statement, with the same meaning.
    pub fn duplicate(&self) -> (r: Self)
        ensures
            r.model() == self.model(),
        decreases self,
    {
        match self {
            Statement::Declaration { name, value } => Statement::Declaration {
                name: name.clone(),
                value: duplicate_expression_option(value),
            },
            Statement::Assignment { target, value } => Statement::Assignment {
                target: target.clone(),
                value: value.duplicate(),
            },
            Statement::Print { expressions, newline, to_stderr } => Statement::Print {
                expressions: duplicate_expressions(expressions),
                newline: *newline,
                to_stderr: *to_stderr,
            },
            Statement::Input { target } => Statement::Input { target: target.clone() },
            Statement::IfThenElse { condition, then_block, else_ifs, else_block } => {
                let eb = match else_block {
                    Some(b) => Some(duplicate_statements(b)),
                    None => None,
                };
                Statement::IfThenElse {
                    condition: duplicate_expression_option(condition),
                    then_block: duplicate_statements(then_block),
                    else_ifs: duplicate_branches(else_ifs),
                    else_block: eb,
                }
            },
            Statement::Loop { label, operation, variable, condition, body } => {
                let c = match condition {
                    Some((k, e)) => Some((k.clone(), e.duplicate())),
                    None => None,
                };
                Statement::Loop {
                    label: label.clone(),
                    operation: duplicate_string_option(operation),
                    variable: duplicate_string_option(variable),
                    condition: c,
                    body: duplicate_statements(body),
                }
            },
            Statement::FunctionDef { name, params, body } => Statement::FunctionDef {
                name: name.clone(),
                params: duplicate_strings(params),
                body: duplicate_statements(body),
            },
            Statement::FunctionCall { name, args } => Statement::FunctionCall {
                name: name.clone(),
                args: duplicate_expressions(args),
            },
            Statement::Return { value } => Statement::Return {
                value: duplicate_expression_option(value),
            },
            Statement::Break => Statement::Break,
            Statement::Expression(e) => Statement::Expression(e.duplicate()),
        }
    }
}

/// A copy of the statements, with the same meanings.
pub fn duplicate_statements(v: &Vec<Statement>) -> (r: Vec<Statement>)
    ensures
        stmts_model(r@) == stmts_model(v@),
    decreases v,
{
    let mut out: Vec<Statement> = Vec::new();
    let mut i: usize = 0;
    while i < v.len()
        invariant
            i <= v@.len(),
            stmts_model(out@) == stmts_model(v@.subrange(0, i as int)),
        decreases v@.len() - i,
    {
        proof {
            assert(decreases_to!(v => v@));
            assert(decreases_to!(v@ => v@[i as int]));
        }
        let x = v[i].duplicate();
        proof {
            lemma_stmts_model_push(out@, x);
            lemma_stmts_model_push(v@.subrange(0, i as int), v@[i as int]);
            assert(v@.subrange(0, i + 1) =~= v@.subrange(0, i as int).push(v@[i as int]));
        }
        out.push(x);
        i = i + 1;
    }
    assert(v@.subrange(0, v@.len() as int) =~= v@);
    out
}

fn duplicate_branches(v: &Vec<(Expression, Vec<Statement>)>) -> (r: Vec<(Expression, Vec<Statement>)>)
    ensures
        branches_model(r@) == branches_model(v@),
    decreases v,
{
    let mut out: Vec<(Expression, Vec<Statement>)> = Vec::new();
    let mut i: usize = 0;
    while i < v.len()
        invariant
            i <= v@.len(),
            branches_model(out@) == branches_model(v@.subrange(0, i as int)),
        decreases v@.len() - i,
    {
        proof {
            assert(decreases_to!(v => v@));
            assert(decreases_to!(v@ => v@[i as int]));
            assert(decreases_to!(v@[i as int] => v@[i as int].0));
            assert(decreases_to!(v@[i as int] => v@[i as int].1));
        }
        let c = v[i].0.duplicate();
        let b = duplicate_statements(&v[i].1);
        let ghost item = (c, b);
        proof {
            lemma_branches_model_push(out@, item);
            lemma_branches_model_push(v@.subrange(0, i as int), v@[i as int]);
            assert(v@.subrange(0, i + 1) =~= v@.subrange(0, i as int).push(v@[i as int]));
        }
        out.push((c, b));
        i = i + 1;
    }
    assert(v@.subrange(0, v@.len() as int) =~= v@);
    out
}

} // verus!

verus! {

pub proof fn lemma_exprs_model_index(es: Seq<Expression>)
    ensures
        exprs_model(es).len() == es.len(),
        forall|i: int| 0 <= i < es.len() ==> #[trigger] exprs_model(es)[i] == es[i].model(),
    decreases es.len(),
{
    if es.len() > 0 {
        let t = es.subrange(1, es.len() as int);
        lemma_exprs_model_index(t);
        assert forall|i: int| 0 <= i < es.len() implies #[trigger] exprs_model(es)[i]
            == es[i].model() by {
            if i > 0 {
                assert(exprs_model(es)[i] == exprs_model(t)[i - 1]);
                assert(t[i - 1] == es[i]);
            }
        }
    }
}

pub proof fn lemma_stmts_model_index(ss: Seq<Statement>)
    ensures
        stmts_model(ss).len() == ss.len(),
        forall|i: int| 0 <= i < ss.len() ==> #[trigger] stmts_model(ss)[i] == ss[i].model(),
    decreases ss.len(),
{
    if ss.len() > 0 {
        let t = ss.subrange(1, ss.len() as int);
        lemma_stmts_model_index(t);
        assert forall|i: int| 0 <= i < ss.len() implies #[trigger] stmts_model(ss)[i]
            == ss[i].model() by {
            if i > 0 {
                assert(stmts_model(ss)[i] == stmts_model(t)[i - 1]);
                assert(t[i - 1] == ss[i]);
            }
        }
    }
}

pub proof fn lemma_branches_model_index(bs: Seq<(Expression, Vec<Statement>)>)
    ensures
        branches_model(bs).len() == bs.len(),
        forall|i: int|
            0 <= i < bs.len() ==> #[trigger] branches_model(bs)[i] == (
                bs[i].0.model(),
                stmts_model(bs[i].1@),
            ),
    decreases bs.len(),
{
    if bs.len() > 0 {
        let t = bs.subrange(1, bs.len() as int);
        lemma_branches_model_index(t);
        assert forall|i: int| 0 <= i < bs.len() implies #[trigger] branches_model(bs)[i] == (
            bs[i].0.model(),
            stmts_model(bs[i].1@),
        ) by {
            if i > 0 {
                assert(branches_model(bs)[i] == branches_model(t)[i - 1]);
                assert(t[i - 1] == bs[i]);
            }
        }
    }
}

proof fn lemma_main_stmts_end(ts: Seq<TokenModel>, p: int)
    requires
        0 <= p,
        p_main_stmts(ts, p) is Ok,
    ensures
        p_main_stmts(ts, p)->Ok_0.1 >= p,
    decreases ts.len() - p,
{
    if p < ts.len() && !kw_at(ts, p, Keyword::KThxBye) {
        if kw_at(ts, p, Keyword::Newline) {
            lemma_main_stmts_end(ts, p + 1);
        } else {
            let q = p_stmt(ts, p)->Ok_0.1;
            lemma_main_stmts_end(ts, q);
        }
    }
}

/// A program is accepted only when its first token is `HAI` and a
/// `KTHXBYE` comes after it; one that does not start with `HAI` is refused
/// as expecting it.
pub proof fn program_framed(ts: Seq<TokenModel>)
    ensures
        p_main(ts) is Ok ==> kw_at(ts, 0, Keyword::Hai) && exists|q: int|
            0 < q < ts.len() && kw_at(ts, q, Keyword::KThxBye),
        !kw_at(ts, 0, Keyword::Hai) ==> p_main(ts) == Err::<(Seq<char>, Seq<StmtM>), ErrorModel>(
            err_expected("Hai"@),
        ),
{
    if p_main(ts) is Ok {
        lemma_skip_nl(ts, 1);
        let (version, p2) = p_version(ts, skip_nl(ts, 1));
        assert(p2 >= 1);
        if p2 <= ts.len() {
            lemma_skip_nl(ts, p2);
        }
        let start = skip_nl(ts, p2);
        assert(start >= 1);
        lemma_main_stmts_end(ts, start);
        let q = p_main_stmts(ts, start)->Ok_0.1;
        assert(kw_at(ts, q, Keyword::KThxBye));
    }
}

/// The keyword that names each binary operator: SUM OF for addition,
/// DIFF OF for subtraction, PRODUKT OF for multiplication, QUOSHUNT OF for
/// division, MOD OF for the remainder, BIGGR OF for the larger, SMALLR OF
/// for the smaller, BOTH OF for "and", EITHER OF for "or", WON OF for
/// "exclusive or", BOTH SAEM for equality, DIFFRINT for inequality.
pub open spec fn operator_keyword(op: BinaryOperator) -> Keyword {
    match op {
        BinaryOperator::Add => Keyword::SumOf,
        BinaryOperator::Sub => Keyword::DiffOf,
        BinaryOperator::Mul => Keyword::ProduktOf,
        BinaryOperator::Div => Keyword::QuoshuntOf,
        BinaryOperator::Mod => Keyword::ModOf,
        BinaryOperator::Max => Keyword::BiggrOf,
        BinaryOperator::Min => Keyword::SmallrOf,
        BinaryOperator::And => Keyword::BothOf,
        BinaryOperator::Or => Keyword::EitherOf,
        BinaryOperator::Xor => Keyword::WonOf,
        BinaryOperator::Equal => Keyword::BothSaem,
        BinaryOperator::NotEqual => Keyword::Diffrint,
    }
}

/// A keyword starts a binary operation exactly when it names an operator,
/// and the operation is the one it names; no two keywords start the same
/// operation.
pub proof fn operator_keywords_law(k: Keyword, op: BinaryOperator)
    ensures
        binop_of(k) == Some(op) <==> k == operator_keyword(op),
        forall|k2: Keyword| #[trigger] binop_of(k2) == binop_of(k) && binop_of(k) is Some ==> k2 == k,
{
}

/// An expression that starts with an operator's keyword parses, when it
/// parses, to an operation with that operator.
pub proof fn operator_parse_law(ts: Seq<TokenModel>, p: int, op: BinaryOperator)
    requires
        0 <= p < ts.len(),
        ts[p] == TokenModel::Keyword(operator_keyword(op)),
        p_expr(ts, p) is Ok,
    ensures
        p_expr(ts, p)->Ok_0.0 matches ExprM::Binary(o, _, _) && o == op,
{
    operator_keywords_law(operator_keyword(op), op);
}

} // verus!
