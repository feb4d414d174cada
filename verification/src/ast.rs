//! The syntax-tree model that the scoring engine walks.
//!
//! The engine does not parse source text. A caller (for instance a
//! command-line front end sitting on a real Python parser) builds this
//! tree, keeping for every statement the byte range it occupies in the
//! original source; the engine only ever reads those ranges to translate
//! byte offsets into line numbers. Statement and expression kinds that
//! carry no complexity of their own are collapsed into `Stmt::Other` and
//! `Expr::Atom`, which score zero: unknown constructs of a growing
//! grammar are thereby skipped rather than rejected.

use vstd::prelude::*;

verus! {

/// A half-open-agnostic byte range `[start, end]` into the source text.
#[derive(Clone, Copy, Debug, PartialEq, Eq, Structural)]
pub struct SourceRange {
    pub start: usize,
    pub end: usize,
}

/// The two boolean operators of a boolean-operator run.
#[derive(Clone, Copy, Debug, PartialEq, Eq, Structural)]
pub enum BoolOpKind {
    And,
    Or,
}

/// One `for ... in ...` clause of a comprehension, with its `if` filters.
/// The iterated and target expressions carry no complexity and are not kept.
#[derive(Debug)]
pub struct Comprehension {
    pub ifs: Vec<Expr>,
}

/// An expression, reduced to the shape the expression scorer reads.
#[derive(Debug)]
pub enum Expr {
    /// A run of `and`/`or` over two or more operands.
    BoolOp { op: BoolOpKind, values: Vec<Expr> },
    /// A unary operator application (`not`, `-`, `+`, `~`).
    UnaryOp { operand: Box<Expr> },
    /// A comparison chain: left operand and the comparators.
    Compare { left: Box<Expr>, comparators: Vec<Expr> },
    /// A conditional (ternary) expression.
    IfExp { test: Box<Expr>, body: Box<Expr>, orelse: Box<Expr> },
    /// A call; `callee_name` is the bare identifier called, when the callee
    /// is a plain name. Only positional arguments are kept.
    Call { callee_name: Option<String>, args: Vec<Expr> },
    TupleLit { elts: Vec<Expr> },
    ListLit { elts: Vec<Expr> },
    SetLit { elts: Vec<Expr> },
    /// A dictionary literal; only the value expressions are kept.
    DictLit { values: Vec<Expr> },
    /// A formatted string literal; only the interpolated expressions are kept.
    FString { parts: Vec<Expr> },
    ListComp { elt: Box<Expr>, generators: Vec<Comprehension> },
    SetComp { elt: Box<Expr>, generators: Vec<Comprehension> },
    GeneratorExp { elt: Box<Expr>, generators: Vec<Comprehension> },
    DictComp { key: Box<Expr>, value: Box<Expr>, generators: Vec<Comprehension> },
    /// Any other expression; contributes no complexity.
    Atom,
}

/// An `elif` or `else` clause of an `if` statement (`test` is `None` for
/// a plain `else`).
#[derive(Debug)]
pub struct ElifElseClause {
    pub range: SourceRange,
    pub test: Option<Expr>,
    pub body: Vec<Stmt>,
}

/// One `except` handler of a `try` statement.
#[derive(Debug)]
pub struct ExceptHandler {
    pub range: SourceRange,
    pub body: Vec<Stmt>,
}

/// One `case` arm of a `match` statement; patterns and guards carry no
/// complexity and are not kept.
#[derive(Debug)]
pub struct MatchCase {
    pub body: Vec<Stmt>,
}

/// One item of a `with` statement header.
#[derive(Debug)]
pub struct WithItem {
    pub context_expr: Expr,
}

/// A statement, reduced to the shape the statement scorer reads.
#[derive(Debug)]
pub enum Stmt {
    FunctionDef { range: SourceRange, name: String, body: Vec<Stmt> },
    ClassDef { range: SourceRange, name: String, body: Vec<Stmt> },
    If { range: SourceRange, test: Expr, body: Vec<Stmt>, elif_else_clauses: Vec<ElifElseClause> },
    For { range: SourceRange, body: Vec<Stmt>, orelse: Vec<Stmt> },
    While { range: SourceRange, test: Expr, body: Vec<Stmt>, orelse: Vec<Stmt> },
    Try {
        range: SourceRange,
        body: Vec<Stmt>,
        handlers: Vec<ExceptHandler>,
        orelse: Vec<Stmt>,
        finalbody: Vec<Stmt>,
    },
    Match { range: SourceRange, cases: Vec<MatchCase> },
    With { range: SourceRange, items: Vec<WithItem>, body: Vec<Stmt> },
    Assign { range: SourceRange, value: Expr },
    AnnAssign { range: SourceRange, value: Option<Expr> },
    AugAssign { range: SourceRange, value: Expr },
    Return { range: SourceRange, value: Option<Expr> },
    Raise { range: SourceRange, exc: Option<Expr>, cause: Option<Expr> },
    Assert { range: SourceRange, test: Expr, msg: Option<Expr> },
    /// A bare expression statement.
    ExprStmt { range: SourceRange, value: Expr },
    /// Any other statement; contributes no complexity.
    Other { range: SourceRange },
}

/// The byte range a statement occupies in the source text.
pub open spec fn range_of(s: Stmt) -> SourceRange {
    match s {
        Stmt::FunctionDef { range, .. } => range,
        Stmt::ClassDef { range, .. } => range,
        Stmt::If { range, .. } => range,
        Stmt::For { range, .. } => range,
        Stmt::While { range, .. } => range,
        Stmt::Try { range, .. } => range,
        Stmt::Match { range, .. } => range,
        Stmt::With { range, .. } => range,
        Stmt::Assign { range, .. } => range,
        Stmt::AnnAssign { range, .. } => range,
        Stmt::AugAssign { range, .. } => range,
        Stmt::Return { range, .. } => range,
        Stmt::Raise { range, .. } => range,
        Stmt::Assert { range, .. } => range,
        Stmt::ExprStmt { range, .. } => range,
        Stmt::Other { range } => range,
    }
}

/// An ordered byte range lying within a source text of length `len`.
pub open spec fn range_wf(r: SourceRange, len: nat) -> bool {
    r.start <= r.end <= len
}

/// `inner` lies entirely within `outer`.
pub open spec fn range_within(inner: SourceRange, outer: SourceRange) -> bool {
    outer.start <= inner.start && inner.end <= outer.end
}

/// A well-formed statement over a source text of length `len`: its byte
/// range is ordered and in bounds, and every nested statement or clause
/// lies within the range of the construct that holds it.
pub open spec fn stmt_wf(s: Stmt, len: nat) -> bool
    decreases s, 1nat,
{
    &&& range_wf(range_of(s), len)
    &&& match s {
        Stmt::FunctionDef { range, body, .. } => stmts_wf_within(body@, len, range),
        Stmt::ClassDef { range, body, .. } => stmts_wf_within(body@, len, range),
        Stmt::If { range, body, elif_else_clauses, .. } => {
            &&& stmts_wf_within(body@, len, range)
            &&& forall|i: int|
                0 <= i < elif_else_clauses@.len() ==> clause_wf(
                    #[trigger] elif_else_clauses@[i],
                    len,
                    range,
                )
        },
        Stmt::For { range, body, orelse } => {
            &&& stmts_wf_within(body@, len, range)
            &&& stmts_wf_within(orelse@, len, range)
        },
        Stmt::While { range, body, orelse, .. } => {
            &&& stmts_wf_within(body@, len, range)
            &&& stmts_wf_within(orelse@, len, range)
        },
        Stmt::Try { range, body, handlers, orelse, finalbody } => {
            &&& stmts_wf_within(body@, len, range)
            &&& forall|i: int|
                0 <= i < handlers@.len() ==> handler_wf(#[trigger] handlers@[i], len, range)
            &&& stmts_wf_within(orelse@, len, range)
            &&& stmts_wf_within(finalbody@, len, range)
        },
        Stmt::Match { range, cases } => forall|i: int|
            0 <= i < cases@.len() ==> stmts_wf_within((#[trigger] cases@[i]).body@, len, range),
        Stmt::With { range, body, .. } => stmts_wf_within(body@, len, range),
        _ => true,
    }
}

/// Every statement of `body` is well-formed and lies within `outer`.
pub open spec fn stmts_wf_within(body: Seq<Stmt>, len: nat, outer: SourceRange) -> bool
    decreases body, 0nat,
{
    forall|i: int|
        0 <= i < body.len() ==> stmt_wf(#[trigger] body[i], len) && range_within(
            range_of(body[i]),
            outer,
        )
}

/// A clause has an ordered range within `outer` and a well-formed body
/// within its own range.
pub open spec fn clause_wf(c: ElifElseClause, len: nat, outer: SourceRange) -> bool
    decreases c, 0nat,
{
    &&& range_wf(c.range, len)
    &&& range_within(c.range, outer)
    &&& stmts_wf_within(c.body@, len, c.range)
}

/// A handler has an ordered range within `outer` and a well-formed body
/// within its own range.
pub open spec fn handler_wf(h: ExceptHandler, len: nat, outer: SourceRange) -> bool
    decreases h, 0nat,
{
    &&& range_wf(h.range, len)
    &&& range_within(h.range, outer)
    &&& stmts_wf_within(h.body@, len, h.range)
}

/// A well-formed module body: every top-level statement is well-formed.
pub open spec fn module_wf(body: Seq<Stmt>, len: nat) -> bool {
    forall|i: int| 0 <= i < body.len() ==> stmt_wf(#[trigger] body[i], len)
}

/// Every statement of `body` is well-formed (without a containment bound).
pub open spec fn stmts_wf(body: Seq<Stmt>, len: nat) -> bool {
    forall|i: int| 0 <= i < body.len() ==> stmt_wf(#[trigger] body[i], len)
}

/// Containment-qualified well-formedness implies plain well-formedness.
pub proof fn lemma_wf_within_implies_wf(body: Seq<Stmt>, len: nat, outer: SourceRange)
    requires
        stmts_wf_within(body, len, outer),
    ensures
        stmts_wf(body, len),
{
    assert forall|i: int| 0 <= i < body.len() implies stmt_wf(#[trigger] body[i], len) by {
        assert(stmt_wf(body[i], len) && range_within(range_of(body[i]), outer));
    }
}

/// Structural size of a statement: the number of statements, clauses and
/// handlers in its subtree. The walk never nests deeper than this, so it
/// bounds how far the nesting level can grow.
pub open spec fn stmt_size(s: Stmt) -> nat
    decreases s, 1nat,
{
    1 + match s {
        Stmt::FunctionDef { body, .. } => stmts_size(body@),
        Stmt::ClassDef { body, .. } => stmts_size(body@),
        Stmt::If { body, elif_else_clauses, .. } => stmts_size(body@) + clauses_size(
            elif_else_clauses@,
        ),
        Stmt::For { body, orelse, .. } => stmts_size(body@) + stmts_size(orelse@),
        Stmt::While { body, orelse, .. } => stmts_size(body@) + stmts_size(orelse@),
        Stmt::Try { body, handlers, orelse, finalbody, .. } => stmts_size(body@) + handlers_size(
            handlers@,
        ) + stmts_size(orelse@) + stmts_size(finalbody@),
        Stmt::Match { cases, .. } => cases_size(cases@),
        Stmt::With { body, .. } => stmts_size(body@),
        _ => 0nat,
    }
}

/// Sum of the sizes of a sequence of statements.
pub open spec fn stmts_size(ss: Seq<Stmt>) -> nat
    decreases ss, 0nat,
{
    if ss.len() == 0 {
        0
    } else {
        stmt_size(ss[0]) + stmts_size(ss.drop_first())
    }
}

/// Sum of the sizes of the clause bodies, one extra unit per clause.
pub open spec fn clauses_size(cs: Seq<ElifElseClause>) -> nat
    decreases cs, 0nat,
{
    if cs.len() == 0 {
        0
    } else {
        1 + stmts_size(cs[0].body@) + clauses_size(cs.drop_first())
    }
}

/// Sum of the sizes of the handler bodies, one extra unit per handler.
pub open spec fn handlers_size(hs: Seq<ExceptHandler>) -> nat
    decreases hs, 0nat,
{
    if hs.len() == 0 {
        0
    } else {
        1 + stmts_size(hs[0].body@) + handlers_size(hs.drop_first())
    }
}

/// Sum of the sizes of the case bodies, one extra unit per case.
pub open spec fn cases_size(cs: Seq<MatchCase>) -> nat
    decreases cs, 0nat,
{
    if cs.len() == 0 {
        0
    } else {
        1 + stmts_size(cs[0].body@) + cases_size(cs.drop_first())
    }
}

/// Each statement of a sequence is no larger than the whole.
pub proof fn lemma_stmts_size_elem(ss: Seq<Stmt>, i: int)
    requires
        0 <= i < ss.len(),
    ensures
        stmt_size(ss[i]) <= stmts_size(ss),
    decreases ss,
{
    if i > 0 {
        lemma_stmts_size_elem(ss.drop_first(), i - 1);
    }
}

/// Each clause body is smaller than the clause sequence's size.
pub proof fn lemma_clauses_size_elem(cs: Seq<ElifElseClause>, i: int)
    requires
        0 <= i < cs.len(),
    ensures
        1 + stmts_size(cs[i].body@) <= clauses_size(cs),
    decreases cs,
{
    if i > 0 {
        lemma_clauses_size_elem(cs.drop_first(), i - 1);
    }
}

/// Each handler body is smaller than the handler sequence's size.
pub proof fn lemma_handlers_size_elem(hs: Seq<ExceptHandler>, i: int)
    requires
        0 <= i < hs.len(),
    ensures
        1 + stmts_size(hs[i].body@) <= handlers_size(hs),
    decreases hs,
{
    if i > 0 {
        lemma_handlers_size_elem(hs.drop_first(), i - 1);
    }
}

/// Each case body is smaller than the case sequence's size.
pub proof fn lemma_cases_size_elem(cs: Seq<MatchCase>, i: int)
    requires
        0 <= i < cs.len(),
    ensures
        1 + stmts_size(cs[i].body@) <= cases_size(cs),
    decreases cs,
{
    if i > 0 {
        lemma_cases_size_elem(cs.drop_first(), i - 1);
    }
}

/// Structural size of an expression, used as a termination measure by the
/// operator-switch walk, which descends two expressions at once.
pub open spec fn expr_size(e: Expr) -> nat
    decreases e,
{
    match e {
        Expr::BoolOp { values, .. } => 1 + expr_list_size(values@),
        Expr::UnaryOp { operand } => 1 + expr_size(*operand),
        Expr::Compare { left, comparators } => 1 + expr_size(*left) + expr_list_size(
            comparators@,
        ),
        Expr::IfExp { test, body, orelse } => 1 + expr_size(*test) + expr_size(*body) + expr_size(
            *orelse,
        ),
        Expr::Call { args, .. } => 1 + expr_list_size(args@),
        Expr::TupleLit { elts } => 1 + expr_list_size(elts@),
        Expr::ListLit { elts } => 1 + expr_list_size(elts@),
        Expr::SetLit { elts } => 1 + expr_list_size(elts@),
        Expr::DictLit { values } => 1 + expr_list_size(values@),
        Expr::FString { parts } => 1 + expr_list_size(parts@),
        Expr::ListComp { elt, generators } => 1 + expr_size(*elt) + comp_list_size(generators@),
        Expr::SetComp { elt, generators } => 1 + expr_size(*elt) + comp_list_size(generators@),
        Expr::GeneratorExp { elt, generators } => 1 + expr_size(*elt) + comp_list_size(
            generators@,
        ),
        Expr::DictComp { key, value, generators } => 1 + expr_size(*key) + expr_size(*value)
            + comp_list_size(generators@),
        Expr::Atom => 1,
    }
}

/// Sum of the sizes of a sequence of expressions.
pub open spec fn expr_list_size(es: Seq<Expr>) -> nat
    decreases es,
{
    if es.len() == 0 {
        0
    } else {
        expr_size(es[0]) + expr_list_size(es.drop_first())
    }
}

/// Sum of the sizes of the filters of a sequence of comprehension clauses.
pub open spec fn comp_list_size(cs: Seq<Comprehension>) -> nat
    decreases cs,
{
    if cs.len() == 0 {
        0
    } else {
        1 + expr_list_size(cs[0].ifs@) + comp_list_size(cs.drop_first())
    }
}

/// Each element of a sequence of expressions is no larger than the whole.
pub proof fn lemma_expr_list_size_elem(es: Seq<Expr>, i: int)
    requires
        0 <= i < es.len(),
    ensures
        expr_size(es[i]) <= expr_list_size(es),
    decreases es,
{
    if i > 0 {
        lemma_expr_list_size_elem(es.drop_first(), i - 1);
    }
}

} // verus!
