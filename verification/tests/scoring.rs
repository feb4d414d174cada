use complexipy::ast::{
    BoolOpKind, Comprehension, ElifElseClause, ExceptHandler, Expr, SourceRange, Stmt, WithItem,
};
use complexipy::bool_ops::count_bool_ops;
use complexipy::cognitive_complexity::{is_decorator, statement_cognitive_complexity_shared};
use complexipy::lines::get_line_number;
use complexipy::recursion::{is_directly_recursive, strict_function_complexity};

fn r(start: usize, end: usize) -> SourceRange {
    SourceRange { start, end }
}

fn pass_stmt(start: usize, end: usize) -> Stmt {
    Stmt::Other { range: r(start, end) }
}

#[test]
fn line_numbers_count_newlines() {
    let code = b"a\nb\nc";
    assert_eq!(get_line_number(0, code), 1);
    assert_eq!(get_line_number(1, code), 1);
    assert_eq!(get_line_number(2, code), 2);
    assert_eq!(get_line_number(4, code), 3);
    assert_eq!(get_line_number(5, code), 3);
}

#[test]
fn plain_if_scores_one() {
    // if True:
    //     pass
    let code = b"if True:\n    pass\n";
    let stmt = Stmt::If {
        range: r(0, 17),
        test: Expr::Atom,
        body: vec![pass_stmt(13, 17)],
        elif_else_clauses: vec![],
    };
    let (complexity, lines) = statement_cognitive_complexity_shared(&stmt, 0, code);
    assert_eq!(complexity, 1);
    assert_eq!(lines.len(), 1);
    assert_eq!(lines[0].line, 1);
    assert_eq!(lines[0].complexity, 1);
}

#[test]
fn if_with_boolean_run_scores_two() {
    // if a and b: pass
    let code = b"if a and b:\n    pass\n";
    let stmt = Stmt::If {
        range: r(0, 20),
        test: Expr::BoolOp { op: BoolOpKind::And, values: vec![Expr::Atom, Expr::Atom] },
        body: vec![pass_stmt(16, 20)],
        elif_else_clauses: vec![],
    };
    let (complexity, _) = statement_cognitive_complexity_shared(&stmt, 0, code);
    assert_eq!(complexity, 2);
}

#[test]
fn if_with_operator_switch_scores_three() {
    // if a and b or c: pass
    let code = b"if a and b or c:\n    pass\n";
    let inner_and = Expr::BoolOp { op: BoolOpKind::And, values: vec![Expr::Atom, Expr::Atom] };
    let test = Expr::BoolOp { op: BoolOpKind::Or, values: vec![inner_and, Expr::Atom] };
    let stmt = Stmt::If {
        range: r(0, 25),
        test,
        body: vec![pass_stmt(21, 25)],
        elif_else_clauses: vec![],
    };
    let (complexity, _) = statement_cognitive_complexity_shared(&stmt, 0, code);
    assert_eq!(complexity, 3);
}

#[test]
fn nested_if_inside_for_scores_three() {
    // def f():
    //     for x in xs:
    //         if a:
    //             pass
    let code = b"def f():\n    for x in xs:\n        if a:\n            pass\n";
    let inner_if = Stmt::If {
        range: r(34, 57),
        test: Expr::Atom,
        body: vec![pass_stmt(53, 57)],
        elif_else_clauses: vec![],
    };
    let for_stmt = Stmt::For { range: r(13, 57), body: vec![inner_if], orelse: vec![] };
    let func = Stmt::FunctionDef { range: r(0, 57), name: String::from("f"), body: vec![for_stmt] };
    let (complexity, lines) = statement_cognitive_complexity_shared(&func, 0, code);
    assert_eq!(complexity, 3);
    // `for` contributes 1 on line 2, the nested `if` contributes 2 on line 3.
    assert_eq!(lines.len(), 2);
    assert_eq!((lines[0].line, lines[0].complexity), (2, 1));
    assert_eq!((lines[1].line, lines[1].complexity), (3, 2));
}

#[test]
fn decorator_factory_scores_inner_function_only() {
    // def deco(f):
    //     def wrapper():
    //         if a:
    //             pass
    //     return wrapper
    let code =
        b"def deco(f):\n    def wrapper():\n        if a:\n            pass\n    return wrapper\n";
    let inner_if = Stmt::If {
        range: r(40, 63),
        test: Expr::Atom,
        body: vec![pass_stmt(59, 63)],
        elif_else_clauses: vec![],
    };
    let wrapper = Stmt::FunctionDef {
        range: r(17, 63),
        name: String::from("wrapper"),
        body: vec![inner_if],
    };
    let ret = Stmt::Return { range: r(68, 82), value: None };
    let deco = Stmt::FunctionDef {
        range: r(0, 82),
        name: String::from("deco"),
        body: vec![wrapper, ret],
    };
    assert!(is_decorator(&deco));
    let (complexity, _) = statement_cognitive_complexity_shared(&deco, 0, code);
    // Scored as the inner function alone: its `if` at nesting level zero.
    assert_eq!(complexity, 1);
}

#[test]
fn try_scores_one_unit_per_handler_at_any_nesting() {
    // try: A
    // except X: B
    // except Y: C
    let code = b"try:\n    a()\nexcept X:\n    b()\nexcept Y:\n    c()\n";
    let make = || Stmt::Try {
        range: r(0, 48),
        body: vec![pass_stmt(9, 12)],
        handlers: vec![
            ExceptHandler { range: r(13, 30), body: vec![pass_stmt(27, 30)] },
            ExceptHandler { range: r(31, 48), body: vec![pass_stmt(45, 48)] },
        ],
        orelse: vec![],
        finalbody: vec![],
    };
    let (c0, lines) = statement_cognitive_complexity_shared(&make(), 0, code);
    assert_eq!(c0, 2);
    assert_eq!((lines[0].line, lines[0].complexity), (3, 1));
    assert_eq!((lines[1].line, lines[1].complexity), (5, 1));
    let (c5, _) = statement_cognitive_complexity_shared(&make(), 5, code);
    assert_eq!(c5, 2);
}

#[test]
fn while_adds_test_boolean_score() {
    let code = b"while a and b:\n    pass\n";
    let stmt = Stmt::While {
        range: r(0, 23),
        test: Expr::BoolOp { op: BoolOpKind::And, values: vec![Expr::Atom, Expr::Atom] },
        body: vec![pass_stmt(19, 23)],
        orelse: vec![],
    };
    let (complexity, _) = statement_cognitive_complexity_shared(&stmt, 0, code);
    assert_eq!(complexity, 2);
}

#[test]
fn elif_test_attributed_only_when_nonzero() {
    // if a:
    //     pass
    // elif b and c:
    //     pass
    // else:
    //     pass
    let code = b"if a:\n    pass\nelif b and c:\n    pass\nelse:\n    pass\n";
    let stmt = Stmt::If {
        range: r(0, 53),
        test: Expr::Atom,
        body: vec![pass_stmt(10, 14)],
        elif_else_clauses: vec![
            ElifElseClause {
                range: r(15, 38),
                test: Some(
                    Expr::BoolOp { op: BoolOpKind::And, values: vec![Expr::Atom, Expr::Atom] },
                ),
                body: vec![pass_stmt(33, 38)],
            },
            ElifElseClause { range: r(39, 53), test: None, body: vec![pass_stmt(48, 53)] },
        ],
    };
    let (complexity, lines) = statement_cognitive_complexity_shared(&stmt, 0, code);
    // 1 for the if, 1 for the elif's boolean run; the bare else adds nothing.
    assert_eq!(complexity, 2);
    // The elif's unit is attributed to the elif's own line; the else, scoring
    // zero, gets no entry at all.
    assert_eq!(lines.len(), 2);
    assert_eq!((lines[0].line, lines[0].complexity), (1, 1));
    assert_eq!((lines[1].line, lines[1].complexity), (3, 1));
}

#[test]
fn with_scores_context_expressions_without_structural_cost() {
    let code = b"with open(x) as f:\n    if a:\n        pass\n";
    let stmt = Stmt::With {
        range: r(0, 42),
        items: vec![
            WithItem {
                context_expr: Expr::BoolOp {
                    op: BoolOpKind::Or,
                    values: vec![Expr::Atom, Expr::Atom],
                },
            },
        ],
        body: vec![
            Stmt::If {
                range: r(23, 42),
                test: Expr::Atom,
                body: vec![pass_stmt(38, 42)],
                elif_else_clauses: vec![],
            },
        ],
    };
    let (complexity, lines) = statement_cognitive_complexity_shared(&stmt, 0, code);
    // 1 for the context expression's run; the nested if costs 1 + 1.
    assert_eq!(complexity, 3);
    assert_eq!((lines[0].line, lines[0].complexity), (1, 1));
    assert_eq!((lines[1].line, lines[1].complexity), (2, 2));
}

#[test]
fn unary_operator_adds_no_unit_of_its_own() {
    // `not a` scores nothing; `not (a and b)` scores the run once.
    let plain = Expr::UnaryOp { operand: Box::new(Expr::Atom) };
    assert_eq!(count_bool_ops(&plain, 0), 0);
    let wrapped = Expr::UnaryOp {
        operand: Box::new(
            Expr::BoolOp { op: BoolOpKind::And, values: vec![Expr::Atom, Expr::Atom] },
        ),
    };
    assert_eq!(count_bool_ops(&wrapped, 0), 1);
}

#[test]
fn boolean_run_under_negation_counts_as_switch() {
    // a and not (b or c): one unit for the run, one for the or under not.
    let not_or = Expr::UnaryOp {
        operand: Box::new(
            Expr::BoolOp { op: BoolOpKind::Or, values: vec![Expr::Atom, Expr::Atom] },
        ),
    };
    let e = Expr::BoolOp { op: BoolOpKind::And, values: vec![Expr::Atom, not_or] };
    assert_eq!(count_bool_ops(&e, 0), 2);
}

#[test]
fn conditional_expression_costs_one_plus_nesting() {
    let e = Expr::IfExp {
        test: Box::new(Expr::Atom),
        body: Box::new(Expr::Atom),
        orelse: Box::new(Expr::Atom),
    };
    assert_eq!(count_bool_ops(&e, 0), 1);
    let e2 = Expr::IfExp {
        test: Box::new(Expr::Atom),
        body: Box::new(Expr::Atom),
        orelse: Box::new(Expr::Atom),
    };
    assert_eq!(count_bool_ops(&e2, 2), 3);
}

#[test]
fn comprehension_costs_construct_extra_fors_and_filters() {
    // [x for a in b for c in d if p and q]
    let filter = Expr::BoolOp { op: BoolOpKind::And, values: vec![Expr::Atom, Expr::Atom] };
    let e = Expr::ListComp {
        elt: Box::new(Expr::Atom),
        generators: vec![Comprehension { ifs: vec![] }, Comprehension { ifs: vec![filter] }],
    };
    // 1 (construct) + 1 (second for) + 1 (filter) + 1 (filter's run).
    assert_eq!(count_bool_ops(&e, 0), 4);
}

#[test]
fn call_and_containers_are_transparent() {
    let run = || Expr::BoolOp { op: BoolOpKind::And, values: vec![Expr::Atom, Expr::Atom] };
    let call = Expr::Call { callee_name: Some(String::from("f")), args: vec![run()] };
    assert_eq!(count_bool_ops(&call, 0), 1);
    let tuple = Expr::TupleLit { elts: vec![run(), run()] };
    assert_eq!(count_bool_ops(&tuple, 0), 2);
    let dict = Expr::DictLit { values: vec![run()] };
    assert_eq!(count_bool_ops(&dict, 0), 1);
    let fstring = Expr::FString { parts: vec![run()] };
    assert_eq!(count_bool_ops(&fstring, 0), 1);
}

#[test]
fn assignment_scores_value_at_statement_line() {
    let code = b"x = 1\ny = a and b\n";
    let plain = Stmt::Assign { range: r(0, 5), value: Expr::Atom };
    let (c1, l1) = statement_cognitive_complexity_shared(&plain, 0, code);
    assert_eq!(c1, 0);
    assert_eq!((l1[0].line, l1[0].complexity), (1, 0));
    let boolean = Stmt::Assign {
        range: r(6, 17),
        value: Expr::BoolOp { op: BoolOpKind::And, values: vec![Expr::Atom, Expr::Atom] },
    };
    let (c2, l2) = statement_cognitive_complexity_shared(&boolean, 0, code);
    assert_eq!(c2, 1);
    assert_eq!((l2[0].line, l2[0].complexity), (2, 1));
}

#[test]
fn match_cases_cost_only_their_bodies() {
    let code = b"match x:\n    case 1:\n        if a:\n            pass\n";
    let stmt = Stmt::Match {
        range: r(0, 52),
        cases: vec![
            complexipy::ast::MatchCase {
                body: vec![
                    Stmt::If {
                        range: r(29, 52),
                        test: Expr::Atom,
                        body: vec![pass_stmt(48, 52)],
                        elif_else_clauses: vec![],
                    },
                ],
            },
        ],
    };
    let (complexity, _) = statement_cognitive_complexity_shared(&stmt, 0, code);
    // No cost for match or case; the nested if costs 1 + 1.
    assert_eq!(complexity, 2);
}

#[test]
fn empty_body_is_degenerate_zero() {
    let code = b"def f():\n    pass\n";
    let func = Stmt::FunctionDef { range: r(0, 17), name: String::from("f"), body: vec![] };
    let (complexity, lines) = statement_cognitive_complexity_shared(&func, 0, code);
    assert_eq!(complexity, 0);
    assert!(lines.is_empty());
}

#[test]
fn nested_function_definitions_nest_one_level_deeper() {
    // def outer():
    //     def inner():
    //         if a:
    //             pass
    // (not decorator-shaped: no trailing return)
    let code = b"def outer():\n    def inner():\n        if a:\n            pass\n    x = 1\n";
    let inner_if = Stmt::If {
        range: r(39, 61),
        test: Expr::Atom,
        body: vec![pass_stmt(57, 61)],
        elif_else_clauses: vec![],
    };
    let inner = Stmt::FunctionDef {
        range: r(17, 61),
        name: String::from("inner"),
        body: vec![inner_if],
    };
    let trailing = Stmt::Assign { range: r(66, 71), value: Expr::Atom };
    let outer = Stmt::FunctionDef {
        range: r(0, 71),
        name: String::from("outer"),
        body: vec![inner, trailing],
    };
    assert!(!is_decorator(&outer));
    let (complexity, _) = statement_cognitive_complexity_shared(&outer, 0, code);
    // The inner function's body runs at nesting level 1: its if costs 2.
    assert_eq!(complexity, 2);
}

#[test]
fn strict_mode_charges_direct_self_recursion_once() {
    // def fact(n):
    //     if n:
    //         return fact(n)
    //     return n
    let code = b"def fact(n):\n    if n:\n        return fact(n)\n    return n\n";
    let self_call = Expr::Call { callee_name: Some(String::from("fact")), args: vec![Expr::Atom] };
    let recursive = Stmt::FunctionDef {
        range: r(0, 57),
        name: String::from("fact"),
        body: vec![
            Stmt::If {
                range: r(17, 46),
                test: Expr::Atom,
                body: vec![Stmt::Return { range: r(31, 46), value: Some(self_call) }],
                elif_else_clauses: vec![],
            },
            Stmt::Return { range: r(51, 59), value: None },
        ],
    };
    assert!(is_directly_recursive(&recursive));
    // The if costs 1; the legacy mode adds a single flat unit on top.
    assert_eq!(strict_function_complexity(&recursive, code), 2);
    let other_call = Expr::Call { callee_name: Some(String::from("other")), args: vec![] };
    let plain = Stmt::FunctionDef {
        range: r(0, 57),
        name: String::from("fact"),
        body: vec![
            Stmt::If {
                range: r(17, 46),
                test: Expr::Atom,
                body: vec![Stmt::Return { range: r(31, 46), value: Some(other_call) }],
                elif_else_clauses: vec![],
            },
            Stmt::Return { range: r(51, 59), value: None },
        ],
    };
    assert!(!is_directly_recursive(&plain));
    assert_eq!(strict_function_complexity(&plain, code), 1);
}
