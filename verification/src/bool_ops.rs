//! The expression scorer.
//!
//! A boolean-operator run (`and`/`or` chain) costs one unit, plus one unit
//! per operator switch inside it; a unary operator propagates the switch
//! check to its operand without a unit of its own. Conditional expressions
//! and comprehensions cost `1 + nesting_level`; comprehensions further pay
//! one unit per `for` clause beyond the first and `1 +` the filter's score
//! (one nesting level deeper) per `if` filter, and rescore their element
//! (and, for mapping forms, value) expressions one level deeper. Calls,
//! container literals, formatted strings and comparison chains are
//! transparent: their parts are scored with no flat addition.

use vstd::prelude::*;

use crate::ast::{
    expr_list_size,
    expr_size,
    lemma_expr_list_size_elem,
    BoolOpKind,
    Comprehension,
    Expr,
};

verus! {

/// Units contributed by operator switches when `e` appears as an operand
/// whose immediately enclosing boolean or unary expression is `prev`.
pub open spec fn switch_score(e: Expr, prev: Expr) -> nat
    decreases expr_size(e) + expr_size(prev), 0nat,
{
    match e {
        Expr::BoolOp { op: eop, .. } => match prev {
            Expr::BoolOp { op: pop, values: pvals } => (if eop != pop {
                1nat
            } else {
                0nat
            }) + switch_list_score(pvals@, e),
            Expr::UnaryOp { operand } => 1 + switch_score(*operand, e),
            _ => 0,
        },
        Expr::UnaryOp { .. } => match prev {
            Expr::BoolOp { values: pvals, .. } => switch_list_score(pvals@, e),
            Expr::UnaryOp { operand } => switch_score(*operand, e),
            _ => 0,
        },
        _ => 0,
    }
}

/// Sum of the switch scores of `vs` against the enclosing expression `prev`.
pub open spec fn switch_list_score(vs: Seq<Expr>, prev: Expr) -> nat
    decreases expr_list_size(vs) + expr_size(prev), 1nat,
    via switch_list_score_dec
{
    if vs.len() == 0 {
        0
    } else {
        switch_score(vs[0], prev) + switch_list_score(vs.drop_first(), prev)
    }
}

#[via_fn]
proof fn switch_list_score_dec(vs: Seq<Expr>, prev: Expr) {
    if vs.len() > 0 {
        lemma_expr_list_size_elem(vs, 0);
    }
}

/// The expression scorer: complexity of `e` at nesting depth `nesting`.
pub open spec fn bool_ops_score(e: Expr, nesting: nat) -> nat
    decreases e,
{
    match e {
        Expr::BoolOp { values, .. } => 1 + switch_list_score(values@, e),
        Expr::UnaryOp { operand } => switch_score(*operand, e),
        Expr::Compare { left, comparators } => bool_ops_score(*left, nesting)
            + bool_ops_list_score(comparators@, nesting),
        Expr::IfExp { test, body, orelse } => 1 + nesting + bool_ops_score(*test, nesting)
            + bool_ops_score(*body, nesting) + bool_ops_score(*orelse, nesting),
        Expr::Call { args, .. } => bool_ops_list_score(args@, nesting),
        Expr::TupleLit { elts } => bool_ops_list_score(elts@, nesting),
        Expr::ListLit { elts } => bool_ops_list_score(elts@, nesting),
        Expr::SetLit { elts } => bool_ops_list_score(elts@, nesting),
        Expr::DictLit { values } => bool_ops_list_score(values@, nesting),
        Expr::FString { parts } => bool_ops_list_score(parts@, nesting),
        Expr::ListComp { elt, generators } => comp_base(generators@, nesting) + comp_gens_score(
            generators@,
            nesting,
        ) + bool_ops_score(*elt, nesting + 1),
        Expr::SetComp { elt, generators } => comp_base(generators@, nesting) + comp_gens_score(
            generators@,
            nesting,
        ) + bool_ops_score(*elt, nesting + 1),
        Expr::GeneratorExp { elt, generators } => comp_base(generators@, nesting)
            + comp_gens_score(generators@, nesting) + bool_ops_score(*elt, nesting + 1),
        Expr::DictComp { key, value, generators } => comp_base(generators@, nesting)
            + comp_gens_score(generators@, nesting) + bool_ops_score(*key, nesting + 1)
            + bool_ops_score(*value, nesting + 1),
        Expr::Atom => 0,
    }
}

/// Flat cost of a comprehension construct: `1 + nesting` plus one unit per
/// `for` clause beyond the first.
pub open spec fn comp_base(gens: Seq<Comprehension>, nesting: nat) -> nat {
    1 + nesting + if gens.len() == 0 {
        0nat
    } else {
        (gens.len() - 1) as nat
    }
}

/// Sum of the expression scores of `es` at nesting depth `nesting`.
pub open spec fn bool_ops_list_score(es: Seq<Expr>, nesting: nat) -> nat
    decreases es,
{
    if es.len() == 0 {
        0
    } else {
        bool_ops_score(es[0], nesting) + bool_ops_list_score(es.drop_first(), nesting)
    }
}

/// Cost of the `if` filters of a sequence of comprehension clauses.
pub open spec fn comp_gens_score(gens: Seq<Comprehension>, nesting: nat) -> nat
    decreases gens,
{
    if gens.len() == 0 {
        0
    } else {
        comp_ifs_score(gens[0].ifs@, nesting) + comp_gens_score(gens.drop_first(), nesting)
    }
}

/// Each `if` filter costs one unit plus its own score one level deeper.
pub open spec fn comp_ifs_score(ifs: Seq<Expr>, nesting: nat) -> nat
    decreases ifs,
{
    if ifs.len() == 0 {
        0
    } else {
        1 + bool_ops_score(ifs[0], nesting + 1) + comp_ifs_score(ifs.drop_first(), nesting)
    }
}

/// Operator-switch units of `expr` against its enclosing expression `prev`.
pub fn count_different_childs_type(expr: &Expr, prev: &Expr) -> (r: u64)
    requires
        switch_score(*expr, *prev) <= u64::MAX,
    ensures
        r == switch_score(*expr, *prev),
    decreases expr_size(*expr) + expr_size(*prev), 0nat,
{
    match expr {
        Expr::BoolOp { op: eop, .. } => match prev {
            Expr::BoolOp { op: pop, values: pvals } => {
                let switch: u64 = if *eop != *pop {
                    1
                } else {
                    0
                };
                switch + count_switch_list(pvals, expr)
            },
            Expr::UnaryOp { operand } => 1 + count_different_childs_type(operand, expr),
            _ => 0,
        },
        Expr::UnaryOp { .. } => match prev {
            Expr::BoolOp { values: pvals, .. } => count_switch_list(pvals, expr),
            Expr::UnaryOp { operand } => count_different_childs_type(operand, expr),
            _ => 0,
        },
        _ => 0,
    }
}

/// Sum of the switch scores of `vs` against `prev`.
fn count_switch_list(vs: &Vec<Expr>, prev: &Expr) -> (r: u64)
    requires
        switch_list_score(vs@, *prev) <= u64::MAX,
    ensures
        r == switch_list_score(vs@, *prev),
    decreases expr_list_size(vs@) + expr_size(*prev), 1nat,
{
    let mut acc: u64 = 0;
    let mut i: usize = 0;
    proof {
        assert(vs@.skip(0) =~= vs@);
    }
    while i < vs.len()
        invariant
            0 <= i <= vs@.len(),
            switch_list_score(vs@, *prev) <= u64::MAX,
            acc + switch_list_score(vs@.skip(i as int), *prev) == switch_list_score(vs@, *prev),
        decreases vs@.len() - i,
    {
        proof {
            assert(vs@.skip(i as int)[0] == vs@[i as int]);
            assert(vs@.skip(i as int).drop_first() =~= vs@.skip(i as int + 1));
            lemma_expr_list_size_elem(vs@, i as int);
        }
        let c = count_different_childs_type(&vs[i], prev);
        acc = acc + c;
        i = i + 1;
    }
    acc
}

/// The expression scorer: complexity contributed by `expr` at nesting
/// depth `nesting_level`, counting boolean-operator runs and switches,
/// conditional expressions and comprehensions.
pub fn count_bool_ops(expr: &Expr, nesting_level: u64) -> (r: u64)
    requires
        bool_ops_score(*expr, nesting_level as nat) <= u64::MAX,
    ensures
        r == bool_ops_score(*expr, nesting_level as nat),
    decreases *expr,
{
    match expr {
        Expr::BoolOp { values, .. } => 1 + count_switch_list(values, expr),
        Expr::UnaryOp { operand } => count_different_childs_type(operand, expr),
        Expr::Compare { left, comparators } => {
            let a = count_bool_ops(left, nesting_level);
            a + count_bool_ops_list(comparators, nesting_level)
        },
        Expr::IfExp { test, body, orelse } => {
            let a = count_bool_ops(test, nesting_level);
            let b = count_bool_ops(body, nesting_level);
            let c = count_bool_ops(orelse, nesting_level);
            1 + nesting_level + a + b + c
        },
        Expr::Call { args, .. } => count_bool_ops_list(args, nesting_level),
        Expr::TupleLit { elts } => count_bool_ops_list(elts, nesting_level),
        Expr::ListLit { elts } => count_bool_ops_list(elts, nesting_level),
        Expr::SetLit { elts } => count_bool_ops_list(elts, nesting_level),
        Expr::DictLit { values } => count_bool_ops_list(values, nesting_level),
        Expr::FString { parts } => count_bool_ops_list(parts, nesting_level),
        Expr::ListComp { elt, generators } => {
            let base = comp_base_cost(generators, nesting_level);
            let gens = count_comp_gens(generators, nesting_level);
            base + gens + count_bool_ops(elt, nesting_level + 1)
        },
        Expr::SetComp { elt, generators } => {
            let base = comp_base_cost(generators, nesting_level);
            let gens = count_comp_gens(generators, nesting_level);
            base + gens + count_bool_ops(elt, nesting_level + 1)
        },
        Expr::GeneratorExp { elt, generators } => {
            let base = comp_base_cost(generators, nesting_level);
            let gens = count_comp_gens(generators, nesting_level);
            base + gens + count_bool_ops(elt, nesting_level + 1)
        },
        Expr::DictComp { key, value, generators } => {
            let base = comp_base_cost(generators, nesting_level);
            let gens = count_comp_gens(generators, nesting_level);
            let k = count_bool_ops(key, nesting_level + 1);
            base + gens + k + count_bool_ops(value, nesting_level + 1)
        },
        Expr::Atom => 0,
    }
}

/// Sum of the expression scores of `es` at depth `nesting_level`.
fn count_bool_ops_list(es: &Vec<Expr>, nesting_level: u64) -> (r: u64)
    requires
        bool_ops_list_score(es@, nesting_level as nat) <= u64::MAX,
    ensures
        r == bool_ops_list_score(es@, nesting_level as nat),
    decreases es@,
{
    let mut acc: u64 = 0;
    let mut i: usize = 0;
    proof {
        assert(es@.skip(0) =~= es@);
    }
    while i < es.len()
        invariant
            0 <= i <= es@.len(),
            bool_ops_list_score(es@, nesting_level as nat) <= u64::MAX,
            acc + bool_ops_list_score(es@.skip(i as int), nesting_level as nat)
                == bool_ops_list_score(es@, nesting_level as nat),
        decreases es@.len() - i,
    {
        proof {
            assert(es@.skip(i as int)[0] == es@[i as int]);
            assert(es@.skip(i as int).drop_first() =~= es@.skip(i as int + 1));
        }
        let c = count_bool_ops(&es[i], nesting_level);
        acc = acc + c;
        i = i + 1;
    }
    acc
}

/// Flat cost of a comprehension construct at depth `nesting_level`.
fn comp_base_cost(gens: &Vec<Comprehension>, nesting_level: u64) -> (r: u64)
    requires
        comp_base(gens@, nesting_level as nat) <= u64::MAX,
    ensures
        r == comp_base(gens@, nesting_level as nat),
{
    let extra: u64 = if gens.len() == 0 {
        0
    } else {
        (gens.len() - 1) as u64
    };
    1 + nesting_level + extra
}

/// Cost of the `if` filters of the comprehension clauses `gens`.
fn count_comp_gens(gens: &Vec<Comprehension>, nesting_level: u64) -> (r: u64)
    requires
        nesting_level < u64::MAX,
        comp_gens_score(gens@, nesting_level as nat) <= u64::MAX,
    ensures
        r == comp_gens_score(gens@, nesting_level as nat),
    decreases gens@,
{
    let mut acc: u64 = 0;
    let mut i: usize = 0;
    proof {
        assert(gens@.skip(0) =~= gens@);
    }
    while i < gens.len()
        invariant
            0 <= i <= gens@.len(),
            nesting_level < u64::MAX,
            comp_gens_score(gens@, nesting_level as nat) <= u64::MAX,
            acc + comp_gens_score(gens@.skip(i as int), nesting_level as nat) == comp_gens_score(
                gens@,
                nesting_level as nat,
            ),
        decreases gens@.len() - i,
    {
        proof {
            assert(gens@.skip(i as int)[0] == gens@[i as int]);
            assert(gens@.skip(i as int).drop_first() =~= gens@.skip(i as int + 1));
        }
        let c = count_comp_ifs(&gens[i].ifs, nesting_level);
        acc = acc + c;
        i = i + 1;
    }
    acc
}

/// Cost of one clause's `if` filters: one unit each plus the filter's own
/// score one nesting level deeper.
fn count_comp_ifs(ifs: &Vec<Expr>, nesting_level: u64) -> (r: u64)
    requires
        nesting_level < u64::MAX,
        comp_ifs_score(ifs@, nesting_level as nat) <= u64::MAX,
    ensures
        r == comp_ifs_score(ifs@, nesting_level as nat),
    decreases ifs@,
{
    let mut acc: u64 = 0;
    let mut i: usize = 0;
    proof {
        assert(ifs@.skip(0) =~= ifs@);
    }
    while i < ifs.len()
        invariant
            0 <= i <= ifs@.len(),
            nesting_level < u64::MAX,
            comp_ifs_score(ifs@, nesting_level as nat) <= u64::MAX,
            acc + comp_ifs_score(ifs@.skip(i as int), nesting_level as nat) == comp_ifs_score(
                ifs@,
                nesting_level as nat,
            ),
        decreases ifs@.len() - i,
    {
        proof {
            assert(ifs@.skip(i as int)[0] == ifs@[i as int]);
            assert(ifs@.skip(i as int).drop_first() =~= ifs@.skip(i as int + 1));
        }
        let c = count_bool_ops(&ifs[i], nesting_level + 1);
        acc = acc + 1 + c;
        i = i + 1;
    }
    acc
}

} // verus!
