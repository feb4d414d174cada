//! The function/class aggregator.
//!
//! It walks a module's top-level statements once. Every top-level function
//! definition becomes a record under its bare name; every direct method of
//! a top-level class becomes a record under `Class::method`; both are
//! scored at nesting level zero. All other top-level statements are scored
//! directly and folded into the file aggregate without a record of their
//! own, so the file complexity is the sum of the function complexities
//! plus the top-level remainder.

use vstd::prelude::*;

use crate::ast::{module_wf, range_of, stmt_wf, stmts_size, stmts_wf, SourceRange, Stmt};
use crate::classes::{FunctionComplexity, FunctionComplexityV, LineComplexity};
use crate::cognitive_complexity::{statement_cognitive_complexity_shared, stmt_score};
use crate::lines::{get_line_number, line_of};

verus! {

/// The record the aggregator emits for a function definition `s` with
/// qualified name `name`.
pub open spec fn fn_record(s: Stmt, name: Seq<char>, range: SourceRange, code: Seq<u8>) -> FunctionComplexityV {
    FunctionComplexityV {
        name: name,
        complexity: stmt_score(s, 0, code).0,
        line_start: line_of(code, range.start as int),
        line_end: line_of(code, range.end as int),
        line_complexities: stmt_score(s, 0, code).1,
    }
}

/// The records of the direct methods of a class named `cname`.
pub open spec fn class_records(cname: Seq<char>, cbody: Seq<Stmt>, code: Seq<u8>) -> Seq<
    FunctionComplexityV,
>
    decreases cbody,
{
    if cbody.len() == 0 {
        Seq::empty()
    } else {
        let rest = class_records(cname, cbody.drop_first(), code);
        match cbody[0] {
            Stmt::FunctionDef { range, name, .. } => seq![
                fn_record(cbody[0], cname + seq![':', ':'] + name@, range, code),
            ] + rest,
            _ => rest,
        }
    }
}

/// The aggregator: the function records of a module body, in source
/// order, together with the total score of top-level non-function
/// statements.
pub open spec fn module_agg(body: Seq<Stmt>, code: Seq<u8>) -> (Seq<FunctionComplexityV>, nat)
    decreases body,
{
    if body.len() == 0 {
        (Seq::empty(), 0nat)
    } else {
        let rest = module_agg(body.drop_first(), code);
        match body[0] {
            Stmt::FunctionDef { range, name, .. } => (
                seq![fn_record(body[0], name@, range, code)] + rest.0,
                rest.1,
            ),
            Stmt::ClassDef { name, body: cbody, .. } => (
                class_records(name@, cbody@, code) + rest.0,
                rest.1,
            ),
            _ => (rest.0, stmt_score(body[0], 0, code).0 + rest.1),
        }
    }
}

/// Sum of the complexities of a sequence of function records.
pub open spec fn fns_sum(fs: Seq<FunctionComplexityV>) -> nat
    decreases fs,
{
    if fs.len() == 0 {
        0
    } else {
        fs[0].complexity + fns_sum(fs.drop_first())
    }
}

/// The file aggregate: all function complexities plus the top-level
/// remainder.
pub open spec fn agg_total(body: Seq<Stmt>, code: Seq<u8>) -> nat {
    fns_sum(module_agg(body, code).0) + module_agg(body, code).1
}

/// Summing distributes over concatenation of record sequences.
pub proof fn lemma_fns_sum_concat(a: Seq<FunctionComplexityV>, b: Seq<FunctionComplexityV>)
    ensures
        fns_sum(a + b) == fns_sum(a) + fns_sum(b),
    decreases a,
{
    if a.len() == 0 {
        assert(a + b =~= b);
    } else {
        assert((a + b).drop_first() =~= a.drop_first() + b);
        lemma_fns_sum_concat(a.drop_first(), b);
    }
}

/// What the aggregator asks of its callers: a well-formed module body over
/// the source text, and totals that fit in `u64`.
pub open spec fn module_exec_pre(body: Seq<Stmt>, code: Seq<u8>) -> bool {
    &&& module_wf(body, code.len())
    &&& code.len() < u64::MAX
    &&& stmts_size(body) <= u64::MAX
    &&& agg_total(body, code) <= u64::MAX
}

/// Records of the direct methods of one top-level class, named
/// `Class::method` and scored from nesting level zero.
fn score_class_functions(cname: &String, cbody: &Vec<Stmt>, code: &[u8]) -> (r: Vec<
    FunctionComplexity,
>)
    requires
        stmts_wf(cbody@, code@.len()),
        code@.len() < u64::MAX,
        stmts_size(cbody@) <= u64::MAX,
        fns_sum(class_records(cname@, cbody@, code@)) <= u64::MAX,
    ensures
        r.deep_view() == class_records(cname@, cbody@, code@),
{
    let ghost total = class_records(cname@, cbody@, code@);
    let mut funcs: Vec<FunctionComplexity> = Vec::new();
    let mut i: usize = 0;
    proof {
        assert(cbody@.skip(0) =~= cbody@);
        assert(funcs.deep_view() + total =~= total);
    }
    while i < cbody.len()
        invariant
            0 <= i <= cbody@.len(),
            stmts_wf(cbody@, code@.len()),
            code@.len() < u64::MAX,
            stmts_size(cbody@) <= u64::MAX,
            total == class_records(cname@, cbody@, code@),
            fns_sum(total) <= u64::MAX,
            funcs.deep_view() + class_records(cname@, cbody@.skip(i as int), code@) == total,
        decreases cbody@.len() - i,
    {
        proof {
            assert(cbody@.skip(i as int)[0] == cbody@[i as int]);
            assert(cbody@.skip(i as int).drop_first() =~= cbody@.skip(i as int + 1));
            crate::ast::lemma_stmts_size_elem(cbody@, i as int);
            lemma_fns_sum_concat(
                funcs.deep_view(),
                class_records(cname@, cbody@.skip(i as int), code@),
            );
        }
        let ghost old_funcs = funcs.deep_view();
        match &cbody[i] {
            Stmt::FunctionDef { range, name, .. } => {
                let ghost rec = fn_record(
                    cbody@[i as int],
                    cname@ + seq![':', ':'] + name@,
                    *range,
                    code@,
                );
                proof {
                    assert(class_records(cname@, cbody@.skip(i as int), code@) == seq![rec]
                        + class_records(cname@, cbody@.skip(i as int + 1), code@));
                    lemma_fns_sum_concat(
                        seq![rec],
                        class_records(cname@, cbody@.skip(i as int + 1), code@),
                    );
                    assert(fns_sum(seq![rec]) == rec.complexity + fns_sum(
                        Seq::<FunctionComplexityV>::empty(),
                    )) by {
                        assert(seq![rec].drop_first() =~= Seq::<FunctionComplexityV>::empty());
                    }
                }
                let sc = statement_cognitive_complexity_shared(&cbody[i], 0, code);
                let mut qualified = cname.clone();
                qualified.append("::");
                qualified.append(name.as_str());
                proof {
                    reveal_strlit("::");
                    assert(qualified@ =~= cname@ + seq![':', ':'] + name@);
                }
                let function = FunctionComplexity {
                    name: qualified,
                    complexity: sc.0,
                    line_start: get_line_number(range.start, code),
                    line_end: get_line_number(range.end, code),
                    line_complexities: sc.1,
                };
                funcs.push(function);
                proof {
                    assert(funcs.deep_view() =~= old_funcs + seq![rec]);
                    assert(funcs.deep_view() + class_records(
                        cname@,
                        cbody@.skip(i as int + 1),
                        code@,
                    ) =~= total);
                }
            },
            _ => {
                proof {
                    assert(class_records(cname@, cbody@.skip(i as int), code@) == class_records(
                        cname@,
                        cbody@.skip(i as int + 1),
                        code@,
                    ));
                }
            },
        }
        i = i + 1;
    }
    proof {
        assert(funcs.deep_view() =~= total);
    }
    funcs
}

/// The aggregator: walks the top level of a module, emitting one record
/// per function and method (scored from nesting level zero) and summing
/// everything else into the second component; returns the records in
/// source order and the file aggregate, which equals the sum of the
/// function complexities plus the top-level remainder.
pub fn function_level_cognitive_complexity_shared(ast_body: &Vec<Stmt>, code: &[u8]) -> (r: (
    Vec<FunctionComplexity>,
    u64,
))
    requires
        module_exec_pre(ast_body@, code@),
    ensures
        r.0.deep_view() == module_agg(ast_body@, code@).0,
        r.1 == agg_total(ast_body@, code@),
        forall|i: int|
            0 <= i < r.0.deep_view().len() ==> crate::laws::record_lines_ok(
                #[trigger] r.0.deep_view()[i],
            ),
{
    proof {
        crate::laws::lemma_agg_lines_in_range(ast_body@, code@);
    }
    let ghost total = module_agg(ast_body@, code@);
    let mut functions: Vec<FunctionComplexity> = Vec::new();
    let mut complexity: u64 = 0;
    let mut i: usize = 0;
    proof {
        assert(ast_body@.skip(0) =~= ast_body@);
        assert(functions.deep_view() + total.0 =~= total.0);
    }
    while i < ast_body.len()
        invariant
            0 <= i <= ast_body@.len(),
            module_wf(ast_body@, code@.len()),
            code@.len() < u64::MAX,
            stmts_size(ast_body@) <= u64::MAX,
            total == module_agg(ast_body@, code@),
            fns_sum(total.0) + total.1 <= u64::MAX,
            functions.deep_view() + module_agg(ast_body@.skip(i as int), code@).0 == total.0,
            complexity + module_agg(ast_body@.skip(i as int), code@).1 == total.1,
        decreases ast_body@.len() - i,
    {
        proof {
            assert(ast_body@.skip(i as int)[0] == ast_body@[i as int]);
            assert(ast_body@.skip(i as int).drop_first() =~= ast_body@.skip(i as int + 1));
            crate::ast::lemma_stmts_size_elem(ast_body@, i as int);
            lemma_fns_sum_concat(
                functions.deep_view(),
                module_agg(ast_body@.skip(i as int), code@).0,
            );
        }
        let ghost old_funcs = functions.deep_view();
        match &ast_body[i] {
            Stmt::FunctionDef { range, name, .. } => {
                let ghost rec = fn_record(ast_body@[i as int], name@, *range, code@);
                proof {
                    assert(module_agg(ast_body@.skip(i as int), code@).0 == seq![rec] + module_agg(
                        ast_body@.skip(i as int + 1),
                        code@,
                    ).0);
                    lemma_fns_sum_concat(
                        seq![rec],
                        module_agg(ast_body@.skip(i as int + 1), code@).0,
                    );
                    assert(fns_sum(seq![rec]) == rec.complexity + fns_sum(
                        Seq::<FunctionComplexityV>::empty(),
                    )) by {
                        assert(seq![rec].drop_first() =~= Seq::<FunctionComplexityV>::empty());
                    }
                }
                let sc = statement_cognitive_complexity_shared(&ast_body[i], 0, code);
                let function = FunctionComplexity {
                    name: name.clone(),
                    complexity: sc.0,
                    line_start: get_line_number(range.start, code),
                    line_end: get_line_number(range.end, code),
                    line_complexities: sc.1,
                };
                functions.push(function);
                proof {
                    assert(functions.deep_view() =~= old_funcs + seq![rec]);
                    assert(functions.deep_view() + module_agg(
                        ast_body@.skip(i as int + 1),
                        code@,
                    ).0 =~= total.0);
                }
            },
            Stmt::ClassDef { name, body: cbody, .. } => {
                let ghost recs = class_records(name@, cbody@, code@);
                proof {
                    assert(module_agg(ast_body@.skip(i as int), code@).0 == recs + module_agg(
                        ast_body@.skip(i as int + 1),
                        code@,
                    ).0);
                    lemma_fns_sum_concat(recs, module_agg(ast_body@.skip(i as int + 1), code@).0);
                    assert(stmt_wf(ast_body@[i as int], code@.len()));
                    crate::ast::lemma_wf_within_implies_wf(
                        cbody@,
                        code@.len(),
                        range_of(ast_body@[i as int]),
                    );
                }
                let mut methods = score_class_functions(name, cbody, code);
                let ghost methods_dv = methods.deep_view();
                functions.append(&mut methods);
                proof {
                    assert(functions.deep_view() =~= old_funcs + methods_dv);
                    assert(functions.deep_view() + module_agg(
                        ast_body@.skip(i as int + 1),
                        code@,
                    ).0 =~= total.0);
                }
            },
            _ => {
                let sc = statement_cognitive_complexity_shared(&ast_body[i], 0, code);
                complexity = complexity + sc.0;
            },
        }
        i = i + 1;
    }
    proof {
        assert(ast_body@.skip(ast_body@.len() as int) =~= Seq::<Stmt>::empty());
        assert(functions.deep_view() =~= total.0);
    }
    let mut j: usize = 0;
    proof {
        assert(functions.deep_view().skip(0) =~= functions.deep_view());
    }
    while j < functions.len()
        invariant
            0 <= j <= functions@.len(),
            functions.deep_view() == total.0,
            complexity == total.1 + fns_sum(total.0) - fns_sum(total.0.skip(j as int)),
            fns_sum(total.0) + total.1 <= u64::MAX,
            fns_sum(total.0.skip(j as int)) <= fns_sum(total.0),
        decreases functions@.len() - j,
    {
        proof {
            assert(total.0.skip(j as int)[0] == total.0[j as int]);
            assert(total.0.skip(j as int).drop_first() =~= total.0.skip(j as int + 1));
            assert(functions@[j as int].deep_view() == total.0[j as int]);
        }
        complexity = complexity + functions[j].complexity;
        j = j + 1;
    }
    proof {
        assert(total.0.skip(functions@.len() as int) =~= Seq::<FunctionComplexityV>::empty());
    }
    (functions, complexity)
}

/// Scores a whole parsed module: the aggregator's records sorted by
/// `(complexity, name)` ascending, together with the file aggregate.
pub fn code_complexity(ast_body: &Vec<Stmt>, code: &[u8]) -> (r: crate::classes::CodeComplexity)
    requires
        module_exec_pre(ast_body@, code@),
    ensures
        r@.functions == crate::sorting::sort_fn_recs(module_agg(ast_body@, code@).0),
        r@.complexity == agg_total(ast_body@, code@),
        forall|i: int|
            0 <= i < r@.functions.len() ==> crate::laws::record_lines_ok(
                #[trigger] r@.functions[i],
            ),
{
    proof {
        crate::laws::lemma_sorted_lines_in_range(ast_body@, code@);
    }
    let scored = function_level_cognitive_complexity_shared(ast_body, code);
    let functions = crate::sorting::sort_functions(scored.0);
    crate::classes::CodeComplexity { functions, complexity: scored.1 }
}

} // verus!
