//! The legacy strictness classifier: direct self-recursion.
//!
//! An early revision of the rule set charged one flat unit, once per
//! function, when a function's own name is called from a `return` or a
//! bare expression statement of its body. Later revisions dropped the
//! charge, so it is kept here as an optional mode, off by default: the
//! standard entry points never consult it, and a caller that wants the
//! legacy behaviour scores a function through
//! [`strict_function_complexity`] instead.

use vstd::prelude::*;

use crate::ast::{ElifElseClause, ExceptHandler, Expr, MatchCase, Stmt};
use crate::cognitive_complexity::{
    statement_cognitive_complexity_shared,
    stmt_exec_pre,
    stmt_score,
};

verus! {

/// The expression is a call of the plain name `name`.
pub open spec fn expr_calls_name(name: Seq<char>, e: Expr) -> bool {
    match e {
        Expr::Call { callee_name, .. } => match callee_name {
            Some(n) => n@ == name,
            None => false,
        },
        _ => false,
    }
}

/// The statement is, or contains outside nested definitions, a `return`
/// or bare expression statement calling `name`.
pub open spec fn stmt_has_self_call(name: Seq<char>, s: Stmt) -> bool
    decreases s, 1nat,
{
    match s {
        Stmt::Return { value, .. } => match value {
            Some(v) => expr_calls_name(name, v),
            None => false,
        },
        Stmt::ExprStmt { value, .. } => expr_calls_name(name, value),
        Stmt::If { body, elif_else_clauses, .. } => stmts_have_self_call(name, body@)
            || clauses_have_self_call(name, elif_else_clauses@),
        Stmt::For { body, orelse, .. } => stmts_have_self_call(name, body@)
            || stmts_have_self_call(name, orelse@),
        Stmt::While { body, orelse, .. } => stmts_have_self_call(name, body@)
            || stmts_have_self_call(name, orelse@),
        Stmt::Try { body, handlers, orelse, finalbody, .. } => stmts_have_self_call(name, body@)
            || handlers_have_self_call(name, handlers@) || stmts_have_self_call(name, orelse@)
            || stmts_have_self_call(name, finalbody@),
        Stmt::Match { cases, .. } => cases_have_self_call(name, cases@),
        Stmt::With { body, .. } => stmts_have_self_call(name, body@),
        _ => false,
    }
}

/// Some statement of the list has a direct self-call.
pub open spec fn stmts_have_self_call(name: Seq<char>, ss: Seq<Stmt>) -> bool
    decreases ss, 0nat,
{
    exists|i: int| 0 <= i < ss.len() && stmt_has_self_call(name, #[trigger] ss[i])
}

/// Some clause body has a direct self-call.
pub open spec fn clauses_have_self_call(name: Seq<char>, cs: Seq<ElifElseClause>) -> bool
    decreases cs, 0nat,
{
    exists|i: int| 0 <= i < cs.len() && stmts_have_self_call(name, (#[trigger] cs[i]).body@)
}

/// Some handler body has a direct self-call.
pub open spec fn handlers_have_self_call(name: Seq<char>, hs: Seq<ExceptHandler>) -> bool
    decreases hs, 0nat,
{
    exists|i: int| 0 <= i < hs.len() && stmts_have_self_call(name, (#[trigger] hs[i]).body@)
}

/// Some case body has a direct self-call.
pub open spec fn cases_have_self_call(name: Seq<char>, cs: Seq<MatchCase>) -> bool
    decreases cs, 0nat,
{
    exists|i: int| 0 <= i < cs.len() && stmts_have_self_call(name, (#[trigger] cs[i]).body@)
}

/// The legacy strict score of a statement: its ordinary score, plus one
/// flat unit when it is a function definition whose body directly calls
/// the function's own name.
pub open spec fn strict_fn_score(s: Stmt, code: Seq<u8>) -> nat {
    stmt_score(s, 0, code).0 + match s {
        Stmt::FunctionDef { name, body, .. } => if stmts_have_self_call(name@, body@) {
            1nat
        } else {
            0nat
        },
        _ => 0nat,
    }
}

/// Whether one statement (outside nested definitions) directly calls
/// `name` from a `return` or bare expression statement.
pub fn stmt_calls_own_name(name: &String, s: &Stmt) -> (r: bool)
    ensures
        r == stmt_has_self_call(name@, *s),
    decreases *s, 1nat,
{
    match s {
        Stmt::Return { value, .. } => match value {
            Some(v) => expr_is_call_of(name, v),
            None => false,
        },
        Stmt::ExprStmt { value, .. } => expr_is_call_of(name, value),
        Stmt::If { body, elif_else_clauses, .. } => {
            let in_body = stmts_call_own_name(name, body);
            in_body || clauses_call_own_name(name, elif_else_clauses)
        },
        Stmt::For { body, orelse, .. } => {
            let in_body = stmts_call_own_name(name, body);
            in_body || stmts_call_own_name(name, orelse)
        },
        Stmt::While { body, orelse, .. } => {
            let in_body = stmts_call_own_name(name, body);
            in_body || stmts_call_own_name(name, orelse)
        },
        Stmt::Try { body, handlers, orelse, finalbody, .. } => {
            let a = stmts_call_own_name(name, body);
            let b = a || handlers_call_own_name(name, handlers);
            let c = b || stmts_call_own_name(name, orelse);
            c || stmts_call_own_name(name, finalbody)
        },
        Stmt::Match { cases, .. } => cases_call_own_name(name, cases),
        Stmt::With { body, .. } => stmts_call_own_name(name, body),
        _ => false,
    }
}

/// Whether the expression is a call of the plain name `name`.
fn expr_is_call_of(name: &String, e: &Expr) -> (r: bool)
    ensures
        r == expr_calls_name(name@, *e),
{
    match e {
        Expr::Call { callee_name, .. } => match callee_name {
            Some(n) => n.eq(name),
            None => false,
        },
        _ => false,
    }
}

/// Whether some statement of the list directly calls `name`.
fn stmts_call_own_name(name: &String, ss: &Vec<Stmt>) -> (r: bool)
    ensures
        r == stmts_have_self_call(name@, ss@),
    decreases ss@, 2nat,
{
    let mut i: usize = 0;
    while i < ss.len()
        invariant
            0 <= i <= ss@.len(),
            forall|k: int| 0 <= k < i ==> !stmt_has_self_call(name@, #[trigger] ss@[k]),
        decreases ss@.len() - i,
    {
        if stmt_calls_own_name(name, &ss[i]) {
            proof {
                assert(stmt_has_self_call(name@, ss@[i as int]));
            }
            return true;
        }
        i = i + 1;
    }
    false
}

/// Whether some clause body directly calls `name`.
fn clauses_call_own_name(name: &String, cs: &Vec<ElifElseClause>) -> (r: bool)
    ensures
        r == clauses_have_self_call(name@, cs@),
    decreases cs@, 2nat,
{
    let mut i: usize = 0;
    while i < cs.len()
        invariant
            0 <= i <= cs@.len(),
            forall|k: int| 0 <= k < i ==> !stmts_have_self_call(name@, (#[trigger] cs@[k]).body@),
        decreases cs@.len() - i,
    {
        if stmts_call_own_name(name, &cs[i].body) {
            proof {
                assert(stmts_have_self_call(name@, cs@[i as int].body@));
            }
            return true;
        }
        i = i + 1;
    }
    false
}

/// Whether some handler body directly calls `name`.
fn handlers_call_own_name(name: &String, hs: &Vec<ExceptHandler>) -> (r: bool)
    ensures
        r == handlers_have_self_call(name@, hs@),
    decreases hs@, 2nat,
{
    let mut i: usize = 0;
    while i < hs.len()
        invariant
            0 <= i <= hs@.len(),
            forall|k: int| 0 <= k < i ==> !stmts_have_self_call(name@, (#[trigger] hs@[k]).body@),
        decreases hs@.len() - i,
    {
        if stmts_call_own_name(name, &hs[i].body) {
            proof {
                assert(stmts_have_self_call(name@, hs@[i as int].body@));
            }
            return true;
        }
        i = i + 1;
    }
    false
}

/// Whether some case body directly calls `name`.
fn cases_call_own_name(name: &String, cs: &Vec<MatchCase>) -> (r: bool)
    ensures
        r == cases_have_self_call(name@, cs@),
    decreases cs@, 2nat,
{
    let mut i: usize = 0;
    while i < cs.len()
        invariant
            0 <= i <= cs@.len(),
            forall|k: int| 0 <= k < i ==> !stmts_have_self_call(name@, (#[trigger] cs@[k]).body@),
        decreases cs@.len() - i,
    {
        if stmts_call_own_name(name, &cs[i].body) {
            proof {
                assert(stmts_have_self_call(name@, cs@[i as int].body@));
            }
            return true;
        }
        i = i + 1;
    }
    false
}

/// Whether a function definition's body directly calls the function's
/// own name from a `return` or bare expression statement.
pub fn is_directly_recursive(statement: &Stmt) -> (r: bool)
    ensures
        r == match *statement {
            Stmt::FunctionDef { name, body, .. } => stmts_have_self_call(name@, body@),
            _ => false,
        },
{
    match statement {
        Stmt::FunctionDef { name, body, .. } => stmts_call_own_name(name, body),
        _ => false,
    }
}

/// The legacy strictness mode: the ordinary score of a function
/// definition at nesting level zero, plus one flat unit when the function
/// directly recurses into itself.
pub fn strict_function_complexity(statement: &Stmt, code: &[u8]) -> (r: u64)
    requires
        stmt_exec_pre(*statement, 0, code@),
        stmt_score(*statement, 0, code@).0 < u64::MAX,
    ensures
        r == strict_fn_score(*statement, code@),
{
    let base = statement_cognitive_complexity_shared(statement, 0, code);
    if is_directly_recursive(statement) {
        base.0 + 1
    } else {
        base.0
    }
}

} // verus!
