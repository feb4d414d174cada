//! The statement scorer: the central recursive walk.
//!
//! Given a statement and the current nesting level, it returns the
//! statement's complexity contribution together with the ordered list of
//! `(line, increment)` pairs it gives rise to. Control-flow statements
//! cost `1 + nesting_level` (plus the test's expression score for `if`
//! and `while`); their bodies recurse one level deeper. `try` handlers
//! cost one flat unit each. Function definitions cost nothing themselves;
//! a function body is walked at the enclosing level, with nested function
//! and class definitions one level deeper. A function whose body is
//! exactly a nested function followed by a `return` is treated as a
//! decorator factory and scored as the nested function alone.

use vstd::prelude::*;

use crate::ast::{stmt_wf, ElifElseClause, ExceptHandler, MatchCase, Stmt, WithItem};
use crate::bool_ops::{bool_ops_score, count_bool_ops};
use crate::classes::LineComplexity;
use crate::lines::{get_line_number, line_of};

verus! {

/// A complexity total together with its ordered line attributions.
pub type ScoreV = (nat, Seq<(nat, nat)>);

/// A decorator factory: a function definition whose body is exactly a
/// nested function definition followed by a `return`.
pub open spec fn is_decorator_spec(s: Stmt) -> bool {
    match s {
        Stmt::FunctionDef { body, .. } => body@.len() == 2 && body@[0] is FunctionDef
            && body@[1] is Return,
        _ => false,
    }
}

/// The statement scorer, as a mathematical function.
pub open spec fn stmt_score(s: Stmt, nesting: nat, code: Seq<u8>) -> ScoreV
    decreases s, 2nat,
{
    match s {
        Stmt::FunctionDef { range, name, body } => {
            if is_decorator_spec(s) {
                stmt_score(body@[0], nesting, code)
            } else {
                fn_body_score(body@, nesting, code)
            }
        },
        Stmt::ClassDef { body, .. } => class_body_score(body@, code),
        Stmt::If { range, test, body, elif_else_clauses } => {
            let base = 1 + nesting + bool_ops_score(test, nesting);
            let b = stmts_score(body@, nesting + 1, code);
            let cl = clauses_score(elif_else_clauses@, nesting, code);
            (
                base + b.0 + cl.0,
                seq![(line_of(code, range.start as int), base)] + b.1 + cl.1,
            )
        },
        Stmt::For { range, body, orelse } => {
            let base = (1 + nesting) as nat;
            let b = stmts_score(body@, nesting + 1, code);
            let o = stmts_score(orelse@, nesting + 1, code);
            (
                base + b.0 + o.0,
                seq![(line_of(code, range.start as int), base)] + b.1 + o.1,
            )
        },
        Stmt::While { range, test, body, orelse } => {
            let base = 1 + nesting + bool_ops_score(test, nesting);
            let b = stmts_score(body@, nesting + 1, code);
            let o = stmts_score(orelse@, nesting + 1, code);
            (
                base + b.0 + o.0,
                seq![(line_of(code, range.start as int), base)] + b.1 + o.1,
            )
        },
        Stmt::Try { range, body, handlers, orelse, finalbody } => {
            let b = stmts_score(body@, nesting + 1, code);
            let h = handlers_score(handlers@, nesting, code);
            let o = stmts_score(orelse@, nesting + 1, code);
            let f = stmts_score(finalbody@, nesting + 1, code);
            (b.0 + h.0 + o.0 + f.0, b.1 + h.1 + o.1 + f.1)
        },
        Stmt::Match { range, cases } => cases_score(cases@, nesting, code),
        Stmt::With { range, items, body } => {
            let w = items_score(items@, nesting);
            let b = stmts_score(body@, nesting + 1, code);
            (
                w + b.0,
                seq![(line_of(code, range.start as int), w)] + b.1,
            )
        },
        Stmt::Assign { range, value } => {
            let c = bool_ops_score(value, nesting);
            (c, seq![(line_of(code, range.start as int), c)])
        },
        Stmt::AnnAssign { range, value } => match value {
            Some(v) => {
                let c = bool_ops_score(v, nesting);
                (c, seq![(line_of(code, range.start as int), c)])
            },
            None => (0nat, Seq::empty()),
        },
        Stmt::AugAssign { range, value } => {
            let c = bool_ops_score(value, nesting);
            (c, seq![(line_of(code, range.start as int), c)])
        },
        Stmt::Return { range, value } => match value {
            Some(v) => {
                let c = bool_ops_score(v, nesting);
                (c, seq![(line_of(code, range.start as int), c)])
            },
            None => (0nat, Seq::empty()),
        },
        Stmt::Raise { range, exc, cause } => {
            let c = (match exc {
                Some(e) => bool_ops_score(e, nesting),
                None => 0nat,
            }) + (match cause {
                Some(e) => bool_ops_score(e, nesting),
                None => 0nat,
            });
            (c, seq![(line_of(code, range.start as int), c)])
        },
        Stmt::Assert { range, test, msg } => {
            let c = bool_ops_score(test, nesting) + (match msg {
                Some(e) => bool_ops_score(e, nesting),
                None => 0nat,
            });
            (c, seq![(line_of(code, range.start as int), c)])
        },
        Stmt::ExprStmt { .. } => (0nat, Seq::empty()),
        Stmt::Other { .. } => (0nat, Seq::empty()),
    }
}

/// Score of a statement sequence: the componentwise sum, lines in order.
pub open spec fn stmts_score(ss: Seq<Stmt>, nesting: nat, code: Seq<u8>) -> ScoreV
    decreases ss, 0nat,
{
    if ss.len() == 0 {
        (0nat, Seq::empty())
    } else {
        let first = stmt_score(ss[0], nesting, code);
        let rest = stmts_score(ss.drop_first(), nesting, code);
        (first.0 + rest.0, first.1 + rest.1)
    }
}

/// Score of a function body: each child at the enclosing level, except
/// nested function and class definitions, which recurse one level deeper.
pub open spec fn fn_body_score(ss: Seq<Stmt>, nesting: nat, code: Seq<u8>) -> ScoreV
    decreases ss, 0nat,
{
    if ss.len() == 0 {
        (0nat, Seq::empty())
    } else {
        let child_nesting = if ss[0] is FunctionDef || ss[0] is ClassDef {
            nesting + 1
        } else {
            nesting
        };
        let first = stmt_score(ss[0], child_nesting, code);
        let rest = fn_body_score(ss.drop_first(), nesting, code);
        (first.0 + rest.0, first.1 + rest.1)
    }
}

/// Score of a class body: only direct function definitions (the methods)
/// are walked, each starting fresh at nesting level zero.
pub open spec fn class_body_score(ss: Seq<Stmt>, code: Seq<u8>) -> ScoreV
    decreases ss, 0nat,
{
    if ss.len() == 0 {
        (0nat, Seq::empty())
    } else {
        let rest = class_body_score(ss.drop_first(), code);
        if ss[0] is FunctionDef {
            let first = stmt_score(ss[0], 0, code);
            (first.0 + rest.0, first.1 + rest.1)
        } else {
            rest
        }
    }
}

/// Score of the `elif`/`else` clauses of an `if`: a clause's test (when
/// present) is scored at the `if`'s own nesting level and attributed to
/// the clause's start line only when non-zero; clause bodies recurse one
/// level deeper.
pub open spec fn clauses_score(cs: Seq<ElifElseClause>, nesting: nat, code: Seq<u8>) -> ScoreV
    decreases cs, 0nat,
{
    if cs.len() == 0 {
        (0nat, Seq::empty())
    } else {
        let t = clause_test_score(cs[0], nesting);
        let tl: Seq<(nat, nat)> = if cs[0].test is Some && t > 0 {
            seq![(line_of(code, cs[0].range.start as int), t)]
        } else {
            Seq::empty()
        };
        let b = stmts_score(cs[0].body@, nesting + 1, code);
        let rest = clauses_score(cs.drop_first(), nesting, code);
        (t + b.0 + rest.0, tl + b.1 + rest.1)
    }
}

/// Expression score of a clause's test, zero for a plain `else`.
pub open spec fn clause_test_score(c: ElifElseClause, nesting: nat) -> nat {
    match c.test {
        Some(t) => bool_ops_score(t, nesting),
        None => 0nat,
    }
}

/// Score of `except` handlers: one flat unit per handler, independent of
/// nesting, at the handler's start line; handler bodies one level deeper.
pub open spec fn handlers_score(hs: Seq<ExceptHandler>, nesting: nat, code: Seq<u8>) -> ScoreV
    decreases hs, 0nat,
{
    if hs.len() == 0 {
        (0nat, Seq::empty())
    } else {
        let b = stmts_score(hs[0].body@, nesting + 1, code);
        let rest = handlers_score(hs.drop_first(), nesting, code);
        (
            1 + b.0 + rest.0,
            seq![(line_of(code, hs[0].range.start as int), 1nat)] + b.1 + rest.1,
        )
    }
}

/// Score of `match` cases: the match header and the patterns cost
/// nothing; case bodies recurse one level deeper.
pub open spec fn cases_score(cs: Seq<MatchCase>, nesting: nat, code: Seq<u8>) -> ScoreV
    decreases cs, 0nat,
{
    if cs.len() == 0 {
        (0nat, Seq::empty())
    } else {
        let b = stmts_score(cs[0].body@, nesting + 1, code);
        let rest = cases_score(cs.drop_first(), nesting, code);
        (b.0 + rest.0, b.1 + rest.1)
    }
}

/// Expression score of the context expressions of a `with` header.
pub open spec fn items_score(items: Seq<WithItem>, nesting: nat) -> nat
    decreases items,
{
    if items.len() == 0 {
        0
    } else {
        bool_ops_score(items[0].context_expr, nesting) + items_score(items.drop_first(), nesting)
    }
}

/// A decorator factory: a function whose body is exactly a nested function
/// definition followed by a `return`.
pub fn is_decorator(statement: &Stmt) -> (r: bool)
    ensures
        r == is_decorator_spec(*statement),
{
    match statement {
        Stmt::FunctionDef { body, .. } => {
            if body.len() == 2 {
                let first_is_fn = matches!(&body[0], Stmt::FunctionDef { .. });
                let second_is_ret = matches!(&body[1], Stmt::Return { .. });
                first_is_fn && second_is_ret
            } else {
                false
            }
        },
        _ => false,
    }
}

/// What the statement scorer asks of its callers: a well-formed statement,
/// a nesting level that cannot outgrow `u64` along this subtree, and a
/// total score that fits in `u64`.
pub open spec fn stmt_exec_pre(s: Stmt, nesting: nat, code: Seq<u8>) -> bool {
    &&& stmt_wf(s, code.len())
    &&& code.len() < u64::MAX
    &&& nesting + crate::ast::stmt_size(s) <= u64::MAX
    &&& stmt_score(s, nesting, code).0 <= u64::MAX
}

/// The statement scorer. Returns the complexity contribution of
/// `statement` at depth `nesting_level` and its line attributions, equal
/// to the mathematical [`stmt_score`].
pub fn statement_cognitive_complexity_shared(statement: &Stmt, nesting_level: u64, code: &[u8]) -> (r: (
    u64,
    Vec<LineComplexity>,
))
    requires
        stmt_exec_pre(*statement, nesting_level as nat, code@),
    ensures
        r.0 == stmt_score(*statement, nesting_level as nat, code@).0,
        r.1.deep_view() == stmt_score(*statement, nesting_level as nat, code@).1,
    decreases *statement, 2nat,
{
    let ghost n = nesting_level as nat;
    let ghost total = stmt_score(*statement, n, code@);
    if is_decorator(statement) {
        match statement {
            Stmt::FunctionDef { body, .. } => {
                proof {
                    crate::ast::lemma_stmts_size_elem(body@, 0);
                }
                return statement_cognitive_complexity_shared(&body[0], nesting_level, code);
            },
            _ => {
                proof {
                    assert(false);
                }
                return (0, Vec::new());
            },
        }
    }
    match statement {
        Stmt::FunctionDef { body, .. } => {
            let r = score_fn_body(body, nesting_level, code);
            proof {
                assert(r.1.deep_view() =~= total.1);
            }
            (r.0, r.1)
        },
        Stmt::ClassDef { body, .. } => {
            let r = score_class_body(body, code);
            proof {
                assert(r.1.deep_view() =~= total.1);
            }
            (r.0, r.1)
        },
        Stmt::If { range, test, body, elif_else_clauses } => {
            let t = count_bool_ops(test, nesting_level);
            let base = 1 + nesting_level + t;
            let line = get_line_number(range.start, code);
            let mut lines: Vec<LineComplexity> = Vec::new();
            lines.push(LineComplexity { line, complexity: base });
            let mut b = score_stmts(body, nesting_level + 1, code);
            proof {
                let len = code@.len();
                assert forall|i: int| 0 <= i < elif_else_clauses@.len() implies crate::ast::range_wf(
                    (#[trigger] elif_else_clauses@[i]).range,
                    len,
                ) && crate::ast::stmts_wf(elif_else_clauses@[i].body@, len) by {
                    assert(crate::ast::clause_wf(elif_else_clauses@[i], len, *range));
                    crate::ast::lemma_wf_within_implies_wf(
                        elif_else_clauses@[i].body@,
                        len,
                        elif_else_clauses@[i].range,
                    );
                }
            }
            let mut cl = score_clauses(elif_else_clauses, nesting_level, code);
            let complexity = base + b.0 + cl.0;
            lines.append(&mut b.1);
            lines.append(&mut cl.1);
            proof {
                assert(lines.deep_view() =~= total.1);
            }
            (complexity, lines)
        },
        Stmt::For { range, body, orelse } => {
            let base = 1 + nesting_level;
            let line = get_line_number(range.start, code);
            let mut lines: Vec<LineComplexity> = Vec::new();
            lines.push(LineComplexity { line, complexity: base });
            let mut b = score_stmts(body, nesting_level + 1, code);
            let mut o = score_stmts(orelse, nesting_level + 1, code);
            let complexity = base + b.0 + o.0;
            lines.append(&mut b.1);
            lines.append(&mut o.1);
            proof {
                assert(lines.deep_view() =~= total.1);
            }
            (complexity, lines)
        },
        Stmt::While { range, test, body, orelse } => {
            let t = count_bool_ops(test, nesting_level);
            let base = 1 + nesting_level + t;
            let line = get_line_number(range.start, code);
            let mut lines: Vec<LineComplexity> = Vec::new();
            lines.push(LineComplexity { line, complexity: base });
            let mut b = score_stmts(body, nesting_level + 1, code);
            let mut o = score_stmts(orelse, nesting_level + 1, code);
            let complexity = base + b.0 + o.0;
            lines.append(&mut b.1);
            lines.append(&mut o.1);
            proof {
                assert(lines.deep_view() =~= total.1);
            }
            (complexity, lines)
        },
        Stmt::Try { range, body, handlers, orelse, finalbody } => {
            let mut b = score_stmts(body, nesting_level + 1, code);
            proof {
                let len = code@.len();
                assert forall|i: int| 0 <= i < handlers@.len() implies crate::ast::range_wf(
                    (#[trigger] handlers@[i]).range,
                    len,
                ) && crate::ast::stmts_wf(handlers@[i].body@, len) by {
                    assert(crate::ast::handler_wf(handlers@[i], len, *range));
                    crate::ast::lemma_wf_within_implies_wf(
                        handlers@[i].body@,
                        len,
                        handlers@[i].range,
                    );
                }
            }
            let mut h = score_handlers(handlers, nesting_level, code);
            let mut o = score_stmts(orelse, nesting_level + 1, code);
            let mut f = score_stmts(finalbody, nesting_level + 1, code);
            let complexity = b.0 + h.0 + o.0 + f.0;
            let mut lines = b.1;
            lines.append(&mut h.1);
            lines.append(&mut o.1);
            lines.append(&mut f.1);
            proof {
                assert(lines.deep_view() =~= total.1);
            }
            (complexity, lines)
        },
        Stmt::Match { range, cases } => {
            proof {
                let len = code@.len();
                assert forall|i: int| 0 <= i < cases@.len() implies crate::ast::stmts_wf(
                    (#[trigger] cases@[i]).body@,
                    len,
                ) by {
                    assert(crate::ast::stmts_wf_within(cases@[i].body@, len, *range));
                    crate::ast::lemma_wf_within_implies_wf(cases@[i].body@, len, *range);
                }
            }
            let r = score_cases(cases, nesting_level, code);
            proof {
                assert(r.1.deep_view() =~= total.1);
            }
            (r.0, r.1)
        },
        Stmt::With { range, items, body } => {
            let w = score_with_items(items, nesting_level);
            let line = get_line_number(range.start, code);
            let mut lines: Vec<LineComplexity> = Vec::new();
            lines.push(LineComplexity { line, complexity: w });
            let mut b = score_stmts(body, nesting_level + 1, code);
            let complexity = w + b.0;
            lines.append(&mut b.1);
            proof {
                assert(lines.deep_view() =~= total.1);
            }
            (complexity, lines)
        },
        Stmt::Assign { range, value } => {
            let c = count_bool_ops(value, nesting_level);
            let line = get_line_number(range.start, code);
            let mut lines: Vec<LineComplexity> = Vec::new();
            lines.push(LineComplexity { line, complexity: c });
            proof {
                assert(lines.deep_view() =~= total.1);
            }
            (c, lines)
        },
        Stmt::AnnAssign { range, value } => match value {
            Some(v) => {
                let c = count_bool_ops(v, nesting_level);
                let line = get_line_number(range.start, code);
                let mut lines: Vec<LineComplexity> = Vec::new();
                lines.push(LineComplexity { line, complexity: c });
                proof {
                    assert(lines.deep_view() =~= total.1);
                }
                (c, lines)
            },
            None => (0, Vec::new()),
        },
        Stmt::AugAssign { range, value } => {
            let c = count_bool_ops(value, nesting_level);
            let line = get_line_number(range.start, code);
            let mut lines: Vec<LineComplexity> = Vec::new();
            lines.push(LineComplexity { line, complexity: c });
            proof {
                assert(lines.deep_view() =~= total.1);
            }
            (c, lines)
        },
        Stmt::Return { range, value } => match value {
            Some(v) => {
                let c = count_bool_ops(v, nesting_level);
                let line = get_line_number(range.start, code);
                let mut lines: Vec<LineComplexity> = Vec::new();
                lines.push(LineComplexity { line, complexity: c });
                proof {
                    assert(lines.deep_view() =~= total.1);
                }
                (c, lines)
            },
            None => (0, Vec::new()),
        },
        Stmt::Raise { range, exc, cause } => {
            let a: u64 = match exc {
                Some(e) => count_bool_ops(e, nesting_level),
                None => 0,
            };
            let b: u64 = match cause {
                Some(e) => count_bool_ops(e, nesting_level),
                None => 0,
            };
            let c = a + b;
            let line = get_line_number(range.start, code);
            let mut lines: Vec<LineComplexity> = Vec::new();
            lines.push(LineComplexity { line, complexity: c });
            proof {
                assert(lines.deep_view() =~= total.1);
            }
            (c, lines)
        },
        Stmt::Assert { range, test, msg } => {
            let a = count_bool_ops(test, nesting_level);
            let b: u64 = match msg {
                Some(e) => count_bool_ops(e, nesting_level),
                None => 0,
            };
            let c = a + b;
            let line = get_line_number(range.start, code);
            let mut lines: Vec<LineComplexity> = Vec::new();
            lines.push(LineComplexity { line, complexity: c });
            proof {
                assert(lines.deep_view() =~= total.1);
            }
            (c, lines)
        },
        Stmt::ExprStmt { .. } => (0, Vec::new()),
        Stmt::Other { .. } => (0, Vec::new()),
    }
}

/// Scores a statement sequence at one nesting level, summing complexities
/// and concatenating line attributions.
fn score_stmts(body: &Vec<Stmt>, nesting_level: u64, code: &[u8]) -> (r: (u64, Vec<LineComplexity>))
    requires
        crate::ast::stmts_wf(body@, code@.len()),
        code@.len() < u64::MAX,
        nesting_level + crate::ast::stmts_size(body@) <= u64::MAX,
        stmts_score(body@, nesting_level as nat, code@).0 <= u64::MAX,
    ensures
        r.0 == stmts_score(body@, nesting_level as nat, code@).0,
        r.1.deep_view() == stmts_score(body@, nesting_level as nat, code@).1,
    decreases body@, 1nat,
{
    let ghost n = nesting_level as nat;
    let ghost total = stmts_score(body@, n, code@);
    let mut acc: u64 = 0;
    let mut lines: Vec<LineComplexity> = Vec::new();
    let mut i: usize = 0;
    proof {
        assert(body@.skip(0) =~= body@);
        assert(lines.deep_view() + stmts_score(body@, n, code@).1 =~= total.1);
    }
    while i < body.len()
        invariant
            0 <= i <= body@.len(),
            crate::ast::stmts_wf(body@, code@.len()),
            code@.len() < u64::MAX,
            nesting_level + crate::ast::stmts_size(body@) <= u64::MAX,
            total == stmts_score(body@, n, code@),
            total.0 <= u64::MAX,
            n == nesting_level as nat,
            acc + stmts_score(body@.skip(i as int), n, code@).0 == total.0,
            lines.deep_view() + stmts_score(body@.skip(i as int), n, code@).1 == total.1,
        decreases body@.len() - i,
    {
        proof {
            assert(body@.skip(i as int)[0] == body@[i as int]);
            assert(body@.skip(i as int).drop_first() =~= body@.skip(i as int + 1));
            crate::ast::lemma_stmts_size_elem(body@, i as int);
        }
        let ghost old_lines = lines.deep_view();
        let r = statement_cognitive_complexity_shared(&body[i], nesting_level, code);
        let mut rl = r.1;
        acc = acc + r.0;
        lines.append(&mut rl);
        proof {
            assert(lines.deep_view() =~= old_lines + stmt_score(body@[i as int], n, code@).1);
        }
        i = i + 1;
    }
    proof {
        assert(lines.deep_view() =~= total.1);
    }
    (acc, lines)
}

/// Scores a function body: nested function and class definitions one
/// level deeper, everything else at the enclosing level.
fn score_fn_body(body: &Vec<Stmt>, nesting_level: u64, code: &[u8]) -> (r: (
    u64,
    Vec<LineComplexity>,
))
    requires
        crate::ast::stmts_wf(body@, code@.len()),
        code@.len() < u64::MAX,
        nesting_level + 1 + crate::ast::stmts_size(body@) <= u64::MAX,
        fn_body_score(body@, nesting_level as nat, code@).0 <= u64::MAX,
    ensures
        r.0 == fn_body_score(body@, nesting_level as nat, code@).0,
        r.1.deep_view() == fn_body_score(body@, nesting_level as nat, code@).1,
    decreases body@, 1nat,
{
    let ghost n = nesting_level as nat;
    let ghost total = fn_body_score(body@, n, code@);
    let mut acc: u64 = 0;
    let mut lines: Vec<LineComplexity> = Vec::new();
    let mut i: usize = 0;
    proof {
        assert(body@.skip(0) =~= body@);
        assert(lines.deep_view() + total.1 =~= total.1);
    }
    while i < body.len()
        invariant
            0 <= i <= body@.len(),
            crate::ast::stmts_wf(body@, code@.len()),
            code@.len() < u64::MAX,
            nesting_level + 1 + crate::ast::stmts_size(body@) <= u64::MAX,
            total == fn_body_score(body@, n, code@),
            total.0 <= u64::MAX,
            n == nesting_level as nat,
            acc + fn_body_score(body@.skip(i as int), n, code@).0 == total.0,
            lines.deep_view() + fn_body_score(body@.skip(i as int), n, code@).1 == total.1,
        decreases body@.len() - i,
    {
        proof {
            assert(body@.skip(i as int)[0] == body@[i as int]);
            assert(body@.skip(i as int).drop_first() =~= body@.skip(i as int + 1));
            crate::ast::lemma_stmts_size_elem(body@, i as int);
        }
        let ghost old_lines = lines.deep_view();
        let nested = matches!(&body[i], Stmt::FunctionDef { .. }) || matches!(
            &body[i],
            Stmt::ClassDef { .. },
        );
        let child_nesting: u64 = if nested {
            nesting_level + 1
        } else {
            nesting_level
        };
        let r = statement_cognitive_complexity_shared(&body[i], child_nesting, code);
        let mut rl = r.1;
        acc = acc + r.0;
        lines.append(&mut rl);
        proof {
            assert(lines.deep_view() =~= old_lines + stmt_score(
                body@[i as int],
                child_nesting as nat,
                code@,
            ).1);
        }
        i = i + 1;
    }
    proof {
        assert(lines.deep_view() =~= total.1);
    }
    (acc, lines)
}

/// Scores a class body: only direct function definitions, each starting
/// fresh at nesting level zero.
fn score_class_body(body: &Vec<Stmt>, code: &[u8]) -> (r: (u64, Vec<LineComplexity>))
    requires
        crate::ast::stmts_wf(body@, code@.len()),
        code@.len() < u64::MAX,
        crate::ast::stmts_size(body@) <= u64::MAX,
        class_body_score(body@, code@).0 <= u64::MAX,
    ensures
        r.0 == class_body_score(body@, code@).0,
        r.1.deep_view() == class_body_score(body@, code@).1,
    decreases body@, 1nat,
{
    let ghost total = class_body_score(body@, code@);
    let mut acc: u64 = 0;
    let mut lines: Vec<LineComplexity> = Vec::new();
    let mut i: usize = 0;
    proof {
        assert(body@.skip(0) =~= body@);
        assert(lines.deep_view() + total.1 =~= total.1);
    }
    while i < body.len()
        invariant
            0 <= i <= body@.len(),
            crate::ast::stmts_wf(body@, code@.len()),
            code@.len() < u64::MAX,
            crate::ast::stmts_size(body@) <= u64::MAX,
            total == class_body_score(body@, code@),
            total.0 <= u64::MAX,
            acc + class_body_score(body@.skip(i as int), code@).0 == total.0,
            lines.deep_view() + class_body_score(body@.skip(i as int), code@).1 == total.1,
        decreases body@.len() - i,
    {
        proof {
            assert(body@.skip(i as int)[0] == body@[i as int]);
            assert(body@.skip(i as int).drop_first() =~= body@.skip(i as int + 1));
            crate::ast::lemma_stmts_size_elem(body@, i as int);
        }
        let ghost old_lines = lines.deep_view();
        if matches!(&body[i], Stmt::FunctionDef { .. }) {
            let r = statement_cognitive_complexity_shared(&body[i], 0, code);
            let mut rl = r.1;
            acc = acc + r.0;
            lines.append(&mut rl);
            proof {
                assert(lines.deep_view() =~= old_lines + stmt_score(body@[i as int], 0, code@).1);
            }
        }
        i = i + 1;
    }
    proof {
        assert(lines.deep_view() =~= total.1);
    }
    (acc, lines)
}

/// Scores the `elif`/`else` clauses of an `if` statement.
fn score_clauses(cs: &Vec<ElifElseClause>, nesting_level: u64, code: &[u8]) -> (r: (
    u64,
    Vec<LineComplexity>,
))
    requires
        forall|i: int|
            0 <= i < cs@.len() ==> crate::ast::range_wf((#[trigger] cs@[i]).range, code@.len())
                && crate::ast::stmts_wf(cs@[i].body@, code@.len()),
        code@.len() < u64::MAX,
        nesting_level + crate::ast::clauses_size(cs@) <= u64::MAX,
        clauses_score(cs@, nesting_level as nat, code@).0 <= u64::MAX,
    ensures
        r.0 == clauses_score(cs@, nesting_level as nat, code@).0,
        r.1.deep_view() == clauses_score(cs@, nesting_level as nat, code@).1,
    decreases cs@, 1nat,
{
    let ghost n = nesting_level as nat;
    let ghost total = clauses_score(cs@, n, code@);
    let mut acc: u64 = 0;
    let mut lines: Vec<LineComplexity> = Vec::new();
    let mut i: usize = 0;
    proof {
        assert(cs@.skip(0) =~= cs@);
        assert(lines.deep_view() + total.1 =~= total.1);
    }
    while i < cs.len()
        invariant
            0 <= i <= cs@.len(),
            forall|j: int|
                0 <= j < cs@.len() ==> crate::ast::range_wf((#[trigger] cs@[j]).range, code@.len())
                    && crate::ast::stmts_wf(cs@[j].body@, code@.len()),
            code@.len() < u64::MAX,
            nesting_level + crate::ast::clauses_size(cs@) <= u64::MAX,
            total == clauses_score(cs@, n, code@),
            total.0 <= u64::MAX,
            n == nesting_level as nat,
            acc + clauses_score(cs@.skip(i as int), n, code@).0 == total.0,
            lines.deep_view() + clauses_score(cs@.skip(i as int), n, code@).1 == total.1,
        decreases cs@.len() - i,
    {
        proof {
            assert(cs@.skip(i as int)[0] == cs@[i as int]);
            assert(cs@.skip(i as int).drop_first() =~= cs@.skip(i as int + 1));
            crate::ast::lemma_clauses_size_elem(cs@, i as int);
        }
        let ghost old_lines = lines.deep_view();
        let clause = &cs[i];
        let t: u64 = match &clause.test {
            Some(test) => count_bool_ops(test, nesting_level),
            None => 0,
        };
        let pushed = match &clause.test {
            Some(_) => t > 0,
            None => false,
        };
        if pushed {
            let line = get_line_number(clause.range.start, code);
            lines.push(LineComplexity { line, complexity: t });
        }
        let ghost mid_lines = lines.deep_view();
        let b = score_stmts(&clause.body, nesting_level + 1, code);
        let mut bl = b.1;
        acc = acc + t + b.0;
        lines.append(&mut bl);
        proof {
            assert(lines.deep_view() =~= mid_lines + stmts_score(
                cs@[i as int].body@,
                n + 1,
                code@,
            ).1);
            assert(lines.deep_view() + clauses_score(cs@.skip(i as int + 1), n, code@).1
                =~= total.1);
        }
        i = i + 1;
    }
    proof {
        assert(lines.deep_view() =~= total.1);
    }
    (acc, lines)
}

/// Scores the `except` handlers of a `try` statement.
fn score_handlers(hs: &Vec<ExceptHandler>, nesting_level: u64, code: &[u8]) -> (r: (
    u64,
    Vec<LineComplexity>,
))
    requires
        forall|i: int|
            0 <= i < hs@.len() ==> crate::ast::range_wf((#[trigger] hs@[i]).range, code@.len())
                && crate::ast::stmts_wf(hs@[i].body@, code@.len()),
        code@.len() < u64::MAX,
        nesting_level + crate::ast::handlers_size(hs@) <= u64::MAX,
        handlers_score(hs@, nesting_level as nat, code@).0 <= u64::MAX,
    ensures
        r.0 == handlers_score(hs@, nesting_level as nat, code@).0,
        r.1.deep_view() == handlers_score(hs@, nesting_level as nat, code@).1,
    decreases hs@, 1nat,
{
    let ghost n = nesting_level as nat;
    let ghost total = handlers_score(hs@, n, code@);
    let mut acc: u64 = 0;
    let mut lines: Vec<LineComplexity> = Vec::new();
    let mut i: usize = 0;
    proof {
        assert(hs@.skip(0) =~= hs@);
        assert(lines.deep_view() + total.1 =~= total.1);
    }
    while i < hs.len()
        invariant
            0 <= i <= hs@.len(),
            forall|j: int|
                0 <= j < hs@.len() ==> crate::ast::range_wf((#[trigger] hs@[j]).range, code@.len())
                    && crate::ast::stmts_wf(hs@[j].body@, code@.len()),
            code@.len() < u64::MAX,
            nesting_level + crate::ast::handlers_size(hs@) <= u64::MAX,
            total == handlers_score(hs@, n, code@),
            total.0 <= u64::MAX,
            n == nesting_level as nat,
            acc + handlers_score(hs@.skip(i as int), n, code@).0 == total.0,
            lines.deep_view() + handlers_score(hs@.skip(i as int), n, code@).1 == total.1,
        decreases hs@.len() - i,
    {
        proof {
            assert(hs@.skip(i as int)[0] == hs@[i as int]);
            assert(hs@.skip(i as int).drop_first() =~= hs@.skip(i as int + 1));
            crate::ast::lemma_handlers_size_elem(hs@, i as int);
        }
        let ghost old_lines = lines.deep_view();
        let handler = &hs[i];
        let line = get_line_number(handler.range.start, code);
        lines.push(LineComplexity { line, complexity: 1 });
        let ghost mid_lines = lines.deep_view();
        let b = score_stmts(&handler.body, nesting_level + 1, code);
        let mut bl = b.1;
        acc = acc + 1 + b.0;
        lines.append(&mut bl);
        proof {
            assert(mid_lines =~= old_lines + seq![
                (line_of(code@, hs@[i as int].range.start as int), 1nat),
            ]);
            assert(lines.deep_view() =~= mid_lines + stmts_score(
                hs@[i as int].body@,
                n + 1,
                code@,
            ).1);
            assert(lines.deep_view() + handlers_score(hs@.skip(i as int + 1), n, code@).1
                =~= total.1);
        }
        i = i + 1;
    }
    proof {
        assert(lines.deep_view() =~= total.1);
    }
    (acc, lines)
}

/// Scores the case bodies of a `match` statement.
fn score_cases(cs: &Vec<MatchCase>, nesting_level: u64, code: &[u8]) -> (r: (
    u64,
    Vec<LineComplexity>,
))
    requires
        forall|i: int|
            0 <= i < cs@.len() ==> crate::ast::stmts_wf((#[trigger] cs@[i]).body@, code@.len()),
        code@.len() < u64::MAX,
        nesting_level + crate::ast::cases_size(cs@) <= u64::MAX,
        cases_score(cs@, nesting_level as nat, code@).0 <= u64::MAX,
    ensures
        r.0 == cases_score(cs@, nesting_level as nat, code@).0,
        r.1.deep_view() == cases_score(cs@, nesting_level as nat, code@).1,
    decreases cs@, 1nat,
{
    let ghost n = nesting_level as nat;
    let ghost total = cases_score(cs@, n, code@);
    let mut acc: u64 = 0;
    let mut lines: Vec<LineComplexity> = Vec::new();
    let mut i: usize = 0;
    proof {
        assert(cs@.skip(0) =~= cs@);
        assert(lines.deep_view() + total.1 =~= total.1);
    }
    while i < cs.len()
        invariant
            0 <= i <= cs@.len(),
            forall|j: int|
                0 <= j < cs@.len() ==> crate::ast::stmts_wf((#[trigger] cs@[j]).body@, code@.len()),
            code@.len() < u64::MAX,
            nesting_level + crate::ast::cases_size(cs@) <= u64::MAX,
            total == cases_score(cs@, n, code@),
            total.0 <= u64::MAX,
            n == nesting_level as nat,
            acc + cases_score(cs@.skip(i as int), n, code@).0 == total.0,
            lines.deep_view() + cases_score(cs@.skip(i as int), n, code@).1 == total.1,
        decreases cs@.len() - i,
    {
        proof {
            assert(cs@.skip(i as int)[0] == cs@[i as int]);
            assert(cs@.skip(i as int).drop_first() =~= cs@.skip(i as int + 1));
            crate::ast::lemma_cases_size_elem(cs@, i as int);
        }
        let ghost old_lines = lines.deep_view();
        let b = score_stmts(&cs[i].body, nesting_level + 1, code);
        let mut bl = b.1;
        acc = acc + b.0;
        lines.append(&mut bl);
        proof {
            assert(lines.deep_view() =~= old_lines + stmts_score(
                cs@[i as int].body@,
                n + 1,
                code@,
            ).1);
        }
        i = i + 1;
    }
    proof {
        assert(lines.deep_view() =~= total.1);
    }
    (acc, lines)
}

/// Scores the context expressions of a `with` header.
fn score_with_items(items: &Vec<WithItem>, nesting_level: u64) -> (r: u64)
    requires
        items_score(items@, nesting_level as nat) <= u64::MAX,
    ensures
        r == items_score(items@, nesting_level as nat),
{
    let ghost n = nesting_level as nat;
    let ghost total = items_score(items@, n);
    let mut acc: u64 = 0;
    let mut i: usize = 0;
    proof {
        assert(items@.skip(0) =~= items@);
    }
    while i < items.len()
        invariant
            0 <= i <= items@.len(),
            total == items_score(items@, n),
            total <= u64::MAX,
            n == nesting_level as nat,
            acc + items_score(items@.skip(i as int), n) == total,
        decreases items@.len() - i,
    {
        proof {
            assert(items@.skip(i as int)[0] == items@[i as int]);
            assert(items@.skip(i as int).drop_first() =~= items@.skip(i as int + 1));
        }
        let c = count_bool_ops(&items[i].context_expr, nesting_level);
        acc = acc + c;
        i = i + 1;
    }
    acc
}

} // verus!
