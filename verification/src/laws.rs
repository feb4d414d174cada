//! Properties that hold of the engine as a whole, stated and proved over
//! the mathematical scorer.

use vstd::prelude::*;

use crate::aggregate::{agg_total, fn_record, fns_sum, lemma_fns_sum_concat, module_agg};
use crate::ast::{
    clause_wf,
    handler_wf,
    module_wf,
    range_of,
    range_within,
    stmt_wf,
    stmts_wf_within,
    ElifElseClause,
    ExceptHandler,
    MatchCase,
    SourceRange,
    Stmt,
};
use crate::classes::FunctionComplexityV;
use crate::cognitive_complexity::{
    cases_score,
    class_body_score,
    clauses_score,
    fn_body_score,
    handlers_score,
    is_decorator_spec,
    stmt_score,
    stmts_score,
};
use crate::lines::{lemma_line_of_monotonic, line_of};
use crate::sorting::{insert_fn_rec, sort_fn_recs};

verus! {

/// The file aggregate decomposes as the sum of all per-function
/// complexities plus the score of top-level non-function statements; and
/// every complexity, being a natural number, is non-negative.
pub proof fn lemma_aggregate_decomposition(body: Seq<Stmt>, code: Seq<u8>)
    ensures
        agg_total(body, code) == fns_sum(module_agg(body, code).0) + module_agg(body, code).1,
        agg_total(body, code) >= 0,
        module_agg(body, code).1 >= 0,
        forall|i: int|
            0 <= i < module_agg(body, code).0.len() ==> (#[trigger] module_agg(
                body,
                code,
            ).0[i]).complexity >= 0,
{
}

/// The sum over a single record is its complexity.
proof fn lemma_fns_sum_single(x: FunctionComplexityV)
    ensures
        fns_sum(seq![x]) == x.complexity,
{
    assert(seq![x].drop_first() =~= Seq::<FunctionComplexityV>::empty());
    assert(fns_sum(Seq::<FunctionComplexityV>::empty()) == 0);
}

/// Inserting one record adds exactly its complexity to the sum.
proof fn lemma_fns_sum_insert(s: Seq<FunctionComplexityV>, x: FunctionComplexityV)
    ensures
        fns_sum(insert_fn_rec(s, x)) == fns_sum(s) + x.complexity,
    decreases s.len(),
{
    if s.len() == 0 {
        lemma_fns_sum_single(x);
    } else if crate::sorting::fn_le(s.last(), x) {
        assert(s.push(x) =~= s + seq![x]);
        lemma_fns_sum_concat(s, seq![x]);
        lemma_fns_sum_single(x);
    } else {
        lemma_fns_sum_insert(s.drop_last(), x);
        let inner = insert_fn_rec(s.drop_last(), x);
        assert(inner.push(s.last()) =~= inner + seq![s.last()]);
        lemma_fns_sum_concat(inner, seq![s.last()]);
        lemma_fns_sum_single(s.last());
        assert(s =~= s.drop_last() + seq![s.last()]);
        lemma_fns_sum_concat(s.drop_last(), seq![s.last()]);
    }
}

/// Sorting the records leaves the sum of their complexities unchanged, so
/// the file aggregate also equals the sum over the sorted records plus the
/// top-level remainder.
pub proof fn lemma_fns_sum_sorted(s: Seq<FunctionComplexityV>)
    ensures
        fns_sum(sort_fn_recs(s)) == fns_sum(s),
    decreases s.len(),
{
    if s.len() > 0 {
        lemma_fns_sum_sorted(s.drop_last());
        lemma_fns_sum_insert(sort_fn_recs(s.drop_last()), s.last());
        assert(s =~= s.drop_last() + seq![s.last()]);
        lemma_fns_sum_concat(s.drop_last(), seq![s.last()]);
        lemma_fns_sum_single(s.last());
    }
}

/// Scoring is a pure function of the tree and the source text: any two
/// results that meet the scorer's contract for the same input are equal,
/// so scoring the same input twice yields identical results.
pub proof fn lemma_scoring_deterministic(
    f1: Seq<FunctionComplexityV>,
    c1: nat,
    f2: Seq<FunctionComplexityV>,
    c2: nat,
    body: Seq<Stmt>,
    code: Seq<u8>,
)
    requires
        f1 == module_agg(body, code).0,
        c1 == agg_total(body, code),
        f2 == module_agg(body, code).0,
        c2 == agg_total(body, code),
    ensures
        f1 == f2,
        c1 == c2,
{
}

/// All line attributions of a list lie within `[lo, hi]`.
pub open spec fn lines_in(lines: Seq<(nat, nat)>, lo: nat, hi: nat) -> bool {
    forall|k: int| 0 <= k < lines.len() ==> lo <= (#[trigger] lines[k]).0 <= hi
}

proof fn lemma_lines_in_concat(a: Seq<(nat, nat)>, b: Seq<(nat, nat)>, lo: nat, hi: nat)
    requires
        lines_in(a, lo, hi),
        lines_in(b, lo, hi),
    ensures
        lines_in(a + b, lo, hi),
{
    assert forall|k: int| 0 <= k < (a + b).len() implies lo <= (#[trigger] (a + b)[k]).0 <= hi by {
        if k < a.len() {
            assert((a + b)[k] == a[k]);
        } else {
            assert((a + b)[k] == b[k - a.len()]);
        }
    }
}

proof fn lemma_lines_in_widen(lines: Seq<(nat, nat)>, lo: nat, hi: nat, lo2: nat, hi2: nat)
    requires
        lines_in(lines, lo, hi),
        lo2 <= lo,
        hi <= hi2,
    ensures
        lines_in(lines, lo2, hi2),
{
}

/// Widens a child statement's line bounds to an enclosing range.
proof fn lemma_widen_child(s: Stmt, nesting: nat, code: Seq<u8>, outer: SourceRange)
    requires
        stmt_wf(s, code.len()),
        range_within(range_of(s), outer),
        outer.start <= outer.end,
    ensures
        lines_in(
            stmt_score(s, nesting, code).1,
            line_of(code, outer.start as int),
            line_of(code, outer.end as int),
        ),
    decreases s, 1nat,
{
    lemma_stmt_lines(s, nesting, code);
    lemma_line_of_monotonic(code, outer.start as int, range_of(s).start as int);
    lemma_line_of_monotonic(code, range_of(s).end as int, outer.end as int);
    lemma_lines_in_widen(
        stmt_score(s, nesting, code).1,
        line_of(code, range_of(s).start as int),
        line_of(code, range_of(s).end as int),
        line_of(code, outer.start as int),
        line_of(code, outer.end as int),
    );
}

/// Every line a statement's score attributes lies between the lines of the
/// statement's own start and end offsets.
pub proof fn lemma_stmt_lines(s: Stmt, nesting: nat, code: Seq<u8>)
    requires
        stmt_wf(s, code.len()),
    ensures
        lines_in(
            stmt_score(s, nesting, code).1,
            line_of(code, range_of(s).start as int),
            line_of(code, range_of(s).end as int),
        ),
    decreases s, 0nat,
{
    let lo = line_of(code, range_of(s).start as int);
    let hi = line_of(code, range_of(s).end as int);
    lemma_line_of_monotonic(code, range_of(s).start as int, range_of(s).end as int);
    match s {
        Stmt::FunctionDef { range, name, body } => {
            if is_decorator_spec(s) {
                assert(stmt_wf(body@[0], code.len()) && range_within(range_of(body@[0]), range));
                lemma_widen_child(body@[0], nesting, code, range);
            } else {
                lemma_fn_body_lines(body@, nesting, code, range);
            }
        },
        Stmt::ClassDef { range, body, .. } => {
            lemma_class_body_lines(body@, code, range);
        },
        Stmt::If { range, test, body, elif_else_clauses } => {
            lemma_stmts_lines(body@, nesting + 1, code, range);
            lemma_clauses_lines(elif_else_clauses@, nesting, code, range);
            let b = stmts_score(body@, nesting + 1, code);
            let cl = clauses_score(elif_else_clauses@, nesting, code);
            lemma_lines_in_concat(b.1, cl.1, lo, hi);
            lemma_lines_in_concat(
                seq![(lo, (1 + nesting + crate::bool_ops::bool_ops_score(test, nesting)) as nat)],
                b.1 + cl.1,
                lo,
                hi,
            );
            assert(stmt_score(s, nesting, code).1 =~= seq![
                (lo, (1 + nesting + crate::bool_ops::bool_ops_score(test, nesting)) as nat),
            ] + (b.1 + cl.1));
        },
        Stmt::For { range, body, orelse } => {
            lemma_stmts_lines(body@, nesting + 1, code, range);
            lemma_stmts_lines(orelse@, nesting + 1, code, range);
            let b = stmts_score(body@, nesting + 1, code);
            let o = stmts_score(orelse@, nesting + 1, code);
            lemma_lines_in_concat(b.1, o.1, lo, hi);
            lemma_lines_in_concat(seq![(lo, (1 + nesting) as nat)], b.1 + o.1, lo, hi);
            assert(stmt_score(s, nesting, code).1 =~= seq![(lo, (1 + nesting) as nat)] + (b.1
                + o.1));
        },
        Stmt::While { range, test, body, orelse } => {
            lemma_stmts_lines(body@, nesting + 1, code, range);
            lemma_stmts_lines(orelse@, nesting + 1, code, range);
            let base = (1 + nesting + crate::bool_ops::bool_ops_score(test, nesting)) as nat;
            let b = stmts_score(body@, nesting + 1, code);
            let o = stmts_score(orelse@, nesting + 1, code);
            lemma_lines_in_concat(b.1, o.1, lo, hi);
            lemma_lines_in_concat(seq![(lo, base)], b.1 + o.1, lo, hi);
            assert(stmt_score(s, nesting, code).1 =~= seq![(lo, base)] + (b.1 + o.1));
        },
        Stmt::Try { range, body, handlers, orelse, finalbody } => {
            lemma_stmts_lines(body@, nesting + 1, code, range);
            lemma_handlers_lines(handlers@, nesting, code, range);
            lemma_stmts_lines(orelse@, nesting + 1, code, range);
            lemma_stmts_lines(finalbody@, nesting + 1, code, range);
            let b = stmts_score(body@, nesting + 1, code);
            let h = handlers_score(handlers@, nesting, code);
            let o = stmts_score(orelse@, nesting + 1, code);
            let f = stmts_score(finalbody@, nesting + 1, code);
            lemma_lines_in_concat(b.1, h.1, lo, hi);
            lemma_lines_in_concat(b.1 + h.1, o.1, lo, hi);
            lemma_lines_in_concat(b.1 + h.1 + o.1, f.1, lo, hi);
        },
        Stmt::Match { range, cases } => {
            lemma_cases_lines(cases@, nesting, code, range);
        },
        Stmt::With { range, items, body } => {
            lemma_stmts_lines(body@, nesting + 1, code, range);
            let w = crate::cognitive_complexity::items_score(items@, nesting);
            let b = stmts_score(body@, nesting + 1, code);
            lemma_lines_in_concat(seq![(lo, w)], b.1, lo, hi);
        },
        _ => {},
    }
}

/// Line bounds for a statement list, all of whose members lie within
/// `outer`.
proof fn lemma_stmts_lines(ss: Seq<Stmt>, nesting: nat, code: Seq<u8>, outer: SourceRange)
    requires
        stmts_wf_within(ss, code.len(), outer),
        outer.start <= outer.end,
    ensures
        lines_in(
            stmts_score(ss, nesting, code).1,
            line_of(code, outer.start as int),
            line_of(code, outer.end as int),
        ),
    decreases ss, 0nat,
{
    if ss.len() > 0 {
        assert(stmt_wf(ss[0], code.len()) && range_within(range_of(ss[0]), outer));
        lemma_widen_child(ss[0], nesting, code, outer);
        assert(stmts_wf_within(ss.drop_first(), code.len(), outer)) by {
            assert forall|i: int|
                0 <= i < ss.drop_first().len() implies stmt_wf(
                #[trigger] ss.drop_first()[i],
                code.len(),
            ) && range_within(range_of(ss.drop_first()[i]), outer) by {
                assert(ss.drop_first()[i] == ss[i + 1]);
            }
        }
        lemma_stmts_lines(ss.drop_first(), nesting, code, outer);
        lemma_lines_in_concat(
            stmt_score(ss[0], nesting, code).1,
            stmts_score(ss.drop_first(), nesting, code).1,
            line_of(code, outer.start as int),
            line_of(code, outer.end as int),
        );
    }
}

/// Line bounds for a function body.
proof fn lemma_fn_body_lines(ss: Seq<Stmt>, nesting: nat, code: Seq<u8>, outer: SourceRange)
    requires
        stmts_wf_within(ss, code.len(), outer),
        outer.start <= outer.end,
    ensures
        lines_in(
            fn_body_score(ss, nesting, code).1,
            line_of(code, outer.start as int),
            line_of(code, outer.end as int),
        ),
    decreases ss, 0nat,
{
    if ss.len() > 0 {
        assert(stmt_wf(ss[0], code.len()) && range_within(range_of(ss[0]), outer));
        let child_nesting = if ss[0] is FunctionDef || ss[0] is ClassDef {
            nesting + 1
        } else {
            nesting
        };
        lemma_widen_child(ss[0], child_nesting, code, outer);
        assert(stmts_wf_within(ss.drop_first(), code.len(), outer)) by {
            assert forall|i: int|
                0 <= i < ss.drop_first().len() implies stmt_wf(
                #[trigger] ss.drop_first()[i],
                code.len(),
            ) && range_within(range_of(ss.drop_first()[i]), outer) by {
                assert(ss.drop_first()[i] == ss[i + 1]);
            }
        }
        lemma_fn_body_lines(ss.drop_first(), nesting, code, outer);
        lemma_lines_in_concat(
            stmt_score(ss[0], child_nesting, code).1,
            fn_body_score(ss.drop_first(), nesting, code).1,
            line_of(code, outer.start as int),
            line_of(code, outer.end as int),
        );
    }
}

/// Line bounds for a class body.
proof fn lemma_class_body_lines(ss: Seq<Stmt>, code: Seq<u8>, outer: SourceRange)
    requires
        stmts_wf_within(ss, code.len(), outer),
        outer.start <= outer.end,
    ensures
        lines_in(
            class_body_score(ss, code).1,
            line_of(code, outer.start as int),
            line_of(code, outer.end as int),
        ),
    decreases ss, 0nat,
{
    if ss.len() > 0 {
        assert(stmt_wf(ss[0], code.len()) && range_within(range_of(ss[0]), outer));
        assert(stmts_wf_within(ss.drop_first(), code.len(), outer)) by {
            assert forall|i: int|
                0 <= i < ss.drop_first().len() implies stmt_wf(
                #[trigger] ss.drop_first()[i],
                code.len(),
            ) && range_within(range_of(ss.drop_first()[i]), outer) by {
                assert(ss.drop_first()[i] == ss[i + 1]);
            }
        }
        lemma_class_body_lines(ss.drop_first(), code, outer);
        if ss[0] is FunctionDef {
            lemma_widen_child(ss[0], 0, code, outer);
            lemma_lines_in_concat(
                stmt_score(ss[0], 0, code).1,
                class_body_score(ss.drop_first(), code).1,
                line_of(code, outer.start as int),
                line_of(code, outer.end as int),
            );
        }
    }
}

/// Line bounds for `elif`/`else` clauses.
proof fn lemma_clauses_lines(cs: Seq<ElifElseClause>, nesting: nat, code: Seq<u8>, outer: SourceRange)
    requires
        forall|i: int| 0 <= i < cs.len() ==> clause_wf(#[trigger] cs[i], code.len(), outer),
        outer.start <= outer.end,
    ensures
        lines_in(
            clauses_score(cs, nesting, code).1,
            line_of(code, outer.start as int),
            line_of(code, outer.end as int),
        ),
    decreases cs, 0nat,
{
    let lo = line_of(code, outer.start as int);
    let hi = line_of(code, outer.end as int);
    if cs.len() > 0 {
        assert(clause_wf(cs[0], code.len(), outer));
        let c = cs[0];
        lemma_line_of_monotonic(code, outer.start as int, c.range.start as int);
        lemma_line_of_monotonic(code, c.range.start as int, c.range.end as int);
        lemma_line_of_monotonic(code, c.range.end as int, outer.end as int);
        lemma_stmts_lines(c.body@, nesting + 1, code, c.range);
        lemma_lines_in_widen(
            stmts_score(c.body@, nesting + 1, code).1,
            line_of(code, c.range.start as int),
            line_of(code, c.range.end as int),
            lo,
            hi,
        );
        assert forall|i: int|
            0 <= i < cs.drop_first().len() implies clause_wf(
            #[trigger] cs.drop_first()[i],
            code.len(),
            outer,
        ) by {
            assert(cs.drop_first()[i] == cs[i + 1]);
        }
        lemma_clauses_lines(cs.drop_first(), nesting, code, outer);
        let t = crate::cognitive_complexity::clause_test_score(c, nesting);
        let tl: Seq<(nat, nat)> = if c.test is Some && t > 0 {
            seq![(line_of(code, c.range.start as int), t)]
        } else {
            Seq::empty()
        };
        lemma_lines_in_concat(tl, stmts_score(c.body@, nesting + 1, code).1, lo, hi);
        lemma_lines_in_concat(
            tl + stmts_score(c.body@, nesting + 1, code).1,
            clauses_score(cs.drop_first(), nesting, code).1,
            lo,
            hi,
        );
        assert(clauses_score(cs, nesting, code).1 =~= (tl + stmts_score(
            c.body@,
            nesting + 1,
            code,
        ).1) + clauses_score(cs.drop_first(), nesting, code).1);
    }
}

/// Line bounds for `except` handlers.
proof fn lemma_handlers_lines(hs: Seq<ExceptHandler>, nesting: nat, code: Seq<u8>, outer: SourceRange)
    requires
        forall|i: int| 0 <= i < hs.len() ==> handler_wf(#[trigger] hs[i], code.len(), outer),
        outer.start <= outer.end,
    ensures
        lines_in(
            handlers_score(hs, nesting, code).1,
            line_of(code, outer.start as int),
            line_of(code, outer.end as int),
        ),
    decreases hs, 0nat,
{
    let lo = line_of(code, outer.start as int);
    let hi = line_of(code, outer.end as int);
    if hs.len() > 0 {
        assert(handler_wf(hs[0], code.len(), outer));
        let h = hs[0];
        lemma_line_of_monotonic(code, outer.start as int, h.range.start as int);
        lemma_line_of_monotonic(code, h.range.start as int, h.range.end as int);
        lemma_line_of_monotonic(code, h.range.end as int, outer.end as int);
        lemma_stmts_lines(h.body@, nesting + 1, code, h.range);
        lemma_lines_in_widen(
            stmts_score(h.body@, nesting + 1, code).1,
            line_of(code, h.range.start as int),
            line_of(code, h.range.end as int),
            lo,
            hi,
        );
        assert forall|i: int|
            0 <= i < hs.drop_first().len() implies handler_wf(
            #[trigger] hs.drop_first()[i],
            code.len(),
            outer,
        ) by {
            assert(hs.drop_first()[i] == hs[i + 1]);
        }
        lemma_handlers_lines(hs.drop_first(), nesting, code, outer);
        let head: Seq<(nat, nat)> = seq![(line_of(code, h.range.start as int), 1nat)];
        lemma_lines_in_concat(head, stmts_score(h.body@, nesting + 1, code).1, lo, hi);
        lemma_lines_in_concat(
            head + stmts_score(h.body@, nesting + 1, code).1,
            handlers_score(hs.drop_first(), nesting, code).1,
            lo,
            hi,
        );
        assert(handlers_score(hs, nesting, code).1 =~= (head + stmts_score(
            h.body@,
            nesting + 1,
            code,
        ).1) + handlers_score(hs.drop_first(), nesting, code).1);
    }
}

/// Line bounds for `match` cases.
proof fn lemma_cases_lines(cs: Seq<MatchCase>, nesting: nat, code: Seq<u8>, outer: SourceRange)
    requires
        forall|i: int|
            0 <= i < cs.len() ==> stmts_wf_within((#[trigger] cs[i]).body@, code.len(), outer),
        outer.start <= outer.end,
    ensures
        lines_in(
            cases_score(cs, nesting, code).1,
            line_of(code, outer.start as int),
            line_of(code, outer.end as int),
        ),
    decreases cs, 0nat,
{
    if cs.len() > 0 {
        assert(stmts_wf_within(cs[0].body@, code.len(), outer));
        lemma_stmts_lines(cs[0].body@, nesting + 1, code, outer);
        assert forall|i: int|
            0 <= i < cs.drop_first().len() implies stmts_wf_within(
            (#[trigger] cs.drop_first()[i]).body@,
            code.len(),
            outer,
        ) by {
            assert(cs.drop_first()[i] == cs[i + 1]);
        }
        lemma_cases_lines(cs.drop_first(), nesting, code, outer);
        lemma_lines_in_concat(
            stmts_score(cs[0].body@, nesting + 1, code).1,
            cases_score(cs.drop_first(), nesting, code).1,
            line_of(code, outer.start as int),
            line_of(code, outer.end as int),
        );
    }
}

/// A record respects its own line bounds: every line attribution of a
/// record the aggregator emits lies within `[line_start, line_end]`.
pub open spec fn record_lines_ok(r: FunctionComplexityV) -> bool {
    forall|k: int|
        0 <= k < r.line_complexities.len() ==> r.line_start <= (
        #[trigger] r.line_complexities[k]).0 <= r.line_end
}

/// Every record of the direct methods of a well-formed class respects its
/// line bounds.
proof fn lemma_class_records_lines(cname: Seq<char>, cbody: Seq<Stmt>, code: Seq<u8>, outer: SourceRange)
    requires
        stmts_wf_within(cbody, code.len(), outer),
    ensures
        forall|i: int|
            0 <= i < crate::aggregate::class_records(cname, cbody, code).len()
                ==> record_lines_ok(#[trigger] crate::aggregate::class_records(cname, cbody, code)[i]),
    decreases cbody,
{
    if cbody.len() > 0 {
        assert(stmt_wf(cbody[0], code.len()) && range_within(range_of(cbody[0]), outer));
        assert forall|i: int|
            0 <= i < cbody.drop_first().len() implies stmt_wf(
            #[trigger] cbody.drop_first()[i],
            code.len(),
        ) && range_within(range_of(cbody.drop_first()[i]), outer) by {
            assert(cbody.drop_first()[i] == cbody[i + 1]);
        }
        lemma_class_records_lines(cname, cbody.drop_first(), code, outer);
        let recs = crate::aggregate::class_records(cname, cbody, code);
        let rest = crate::aggregate::class_records(cname, cbody.drop_first(), code);
        match cbody[0] {
            Stmt::FunctionDef { range, name, .. } => {
                lemma_stmt_lines(cbody[0], 0, code);
                assert forall|i: int| 0 <= i < recs.len() implies record_lines_ok(
                    #[trigger] recs[i],
                ) by {
                    if i == 0 {
                        assert(recs[0] == fn_record(cbody[0], cname + seq![':', ':'] + name@, range, code));
                    } else {
                        assert(recs[i] == rest[i - 1]);
                    }
                }
            },
            _ => {},
        }
    }
}

/// The sorted records a whole-module scoring returns respect their line
/// bounds too: each attributed line lies within `[line_start, line_end]`.
pub proof fn lemma_sorted_lines_in_range(body: Seq<Stmt>, code: Seq<u8>)
    requires
        module_wf(body, code.len()),
    ensures
        forall|i: int|
            0 <= i < sort_fn_recs(module_agg(body, code).0).len() ==> record_lines_ok(
                #[trigger] sort_fn_recs(module_agg(body, code).0)[i],
            ),
{
    lemma_agg_lines_in_range(body, code);
    crate::sorting::lemma_sort_fn_recs_elems(module_agg(body, code).0);
    let sorted = sort_fn_recs(module_agg(body, code).0);
    assert forall|i: int| 0 <= i < sorted.len() implies record_lines_ok(#[trigger] sorted[i]) by {
        let k = choose|k: int|
            0 <= k < module_agg(body, code).0.len() && sorted[i] == module_agg(body, code).0[k];
        assert(record_lines_ok(module_agg(body, code).0[k]));
    }
}

/// Every record the aggregator emits for a well-formed module respects its
/// line bounds: each attributed line lies within `[line_start, line_end]`.
pub proof fn lemma_agg_lines_in_range(body: Seq<Stmt>, code: Seq<u8>)
    requires
        module_wf(body, code.len()),
    ensures
        forall|i: int|
            0 <= i < module_agg(body, code).0.len() ==> record_lines_ok(
                #[trigger] module_agg(body, code).0[i],
            ),
    decreases body,
{
    if body.len() > 0 {
        assert(stmt_wf(body[0], code.len()));
        assert forall|i: int| 0 <= i < body.drop_first().len() implies stmt_wf(
            #[trigger] body.drop_first()[i],
            code.len(),
        ) by {
            assert(body.drop_first()[i] == body[i + 1]);
        }
        lemma_agg_lines_in_range(body.drop_first(), code);
        let agg = module_agg(body, code).0;
        let rest = module_agg(body.drop_first(), code).0;
        match body[0] {
            Stmt::FunctionDef { range, name, .. } => {
                lemma_stmt_lines(body[0], 0, code);
                assert forall|i: int| 0 <= i < agg.len() implies record_lines_ok(
                    #[trigger] agg[i],
                ) by {
                    if i == 0 {
                        assert(agg[0] == fn_record(body[0], name@, range, code));
                    } else {
                        assert(agg[i] == rest[i - 1]);
                    }
                }
            },
            Stmt::ClassDef { range, name, body: cbody } => {
                lemma_class_records_lines(name@, cbody@, code, range);
                let recs = crate::aggregate::class_records(name@, cbody@, code);
                assert forall|i: int| 0 <= i < agg.len() implies record_lines_ok(
                    #[trigger] agg[i],
                ) by {
                    if i < recs.len() {
                        assert(agg[i] == recs[i]);
                    } else {
                        assert(agg[i] == rest[i - recs.len()]);
                    }
                }
            },
            _ => {},
        }
    }
}

} // verus!
