use complexipy::aggregate::{code_complexity, function_level_cognitive_complexity_shared};
use complexipy::ast::{BoolOpKind, Expr, SourceRange, Stmt};
use complexipy::classes::{FileComplexity, FunctionComplexity, LineComplexity};
use complexipy::output::{csv_rows, json_entries, SortOrder};
use complexipy::sorting::{sort_files, sort_functions};
use complexipy::text::{get_repo_name, str_lex_le, u64_to_string};

fn r(start: usize, end: usize) -> SourceRange {
    SourceRange { start, end }
}

// module text:
// def f():
//     for x in xs:
//         if a:
//             pass
// class C:
//     def m(self):
//         if a and b:
//             pass
// y = p or q
const MODULE: &[u8] =
    b"def f():\n    for x in xs:\n        if a:\n            pass\nclass C:\n    def m(self):\n        if a and b:\n            pass\ny = p or q\n";

fn module_body() -> Vec<Stmt> {
    let inner_if = Stmt::If {
        range: r(34, 56),
        test: Expr::Atom,
        body: vec![Stmt::Other { range: r(52, 56) }],
        elif_else_clauses: vec![],
    };
    let for_stmt = Stmt::For { range: r(13, 56), body: vec![inner_if], orelse: vec![] };
    let f = Stmt::FunctionDef { range: r(0, 56), name: String::from("f"), body: vec![for_stmt] };
    let method_if = Stmt::If {
        range: r(91, 119),
        test: Expr::BoolOp { op: BoolOpKind::And, values: vec![Expr::Atom, Expr::Atom] },
        body: vec![Stmt::Other { range: r(115, 119) }],
        elif_else_clauses: vec![],
    };
    let method = Stmt::FunctionDef {
        range: r(70, 119),
        name: String::from("m"),
        body: vec![method_if],
    };
    let class = Stmt::ClassDef { range: r(57, 119), name: String::from("C"), body: vec![method] };
    let toplevel = Stmt::Assign {
        range: r(120, 130),
        value: Expr::BoolOp { op: BoolOpKind::Or, values: vec![Expr::Atom, Expr::Atom] },
    };
    vec![f, class, toplevel]
}

#[test]
fn aggregate_is_sum_of_functions_plus_top_level() {
    let body = module_body();
    let (functions, complexity) = function_level_cognitive_complexity_shared(&body, MODULE);
    assert_eq!(functions.len(), 2);
    assert_eq!(functions[0].name, "f");
    assert_eq!(functions[0].complexity, 3);
    assert_eq!(functions[1].name, "C::m");
    assert_eq!(functions[1].complexity, 2);
    // top-level assignment contributes its boolean run: 1
    let function_sum: u64 = functions.iter().map(|f| f.complexity).sum();
    assert_eq!(complexity, function_sum + 1);
    assert_eq!(complexity, 6);
}

#[test]
fn scoring_twice_yields_identical_results() {
    let body = module_body();
    let first = code_complexity(&body, MODULE);
    let second = code_complexity(&body, MODULE);
    assert_eq!(first, second);
}

#[test]
fn function_records_carry_their_line_spans() {
    let body = module_body();
    let (functions, _) = function_level_cognitive_complexity_shared(&body, MODULE);
    for f in &functions {
        assert!(f.line_start <= f.line_end);
        for lc in &f.line_complexities {
            assert!(f.line_start <= lc.line && lc.line <= f.line_end);
        }
    }
    // Exact spans: `f` covers lines 1..=4, `C::m` covers lines 6..=8.
    assert_eq!((functions[0].line_start, functions[0].line_end), (1, 4));
    assert_eq!((functions[1].line_start, functions[1].line_end), (6, 8));
}

#[test]
fn code_complexity_sorts_by_complexity_then_name() {
    let body = module_body();
    let result = code_complexity(&body, MODULE);
    assert_eq!(result.complexity, 6);
    let keys: Vec<(u64, &str)> =
        result.functions.iter().map(|f| (f.complexity, f.name.as_str())).collect();
    assert_eq!(keys, vec![(2, "C::m"), (3, "f")]);
}

fn func(name: &str, complexity: u64) -> FunctionComplexity {
    FunctionComplexity {
        name: String::from(name),
        complexity,
        line_start: 1,
        line_end: 1,
        line_complexities: vec![],
    }
}

#[test]
fn sort_functions_orders_by_complexity_then_name() {
    let v = vec![func("b", 2), func("a", 2), func("z", 1), func("a", 3)];
    let sorted = sort_functions(v);
    let keys: Vec<(u64, String)> =
        sorted.iter().map(|f| (f.complexity, f.name.clone())).collect();
    assert_eq!(
        keys,
        vec![
            (1, String::from("z")),
            (2, String::from("a")),
            (2, String::from("b")),
            (3, String::from("a")),
        ],
    );
}

fn file(path: &str, name: &str, complexity: u64) -> FileComplexity {
    FileComplexity {
        path: String::from(path),
        file_name: String::from(name),
        functions: vec![],
        complexity,
    }
}

#[test]
fn sort_files_orders_by_path_then_name_then_complexity() {
    let v = vec![
        file("b/x.py", "x.py", 1),
        file("a/y.py", "y.py", 9),
        file("a/y.py", "x.py", 2),
        file("a/y.py", "y.py", 3),
    ];
    let sorted = sort_files(v);
    let keys: Vec<(String, String, u64)> = sorted
        .iter()
        .map(|f| (f.path.clone(), f.file_name.clone(), f.complexity))
        .collect();
    assert_eq!(
        keys,
        vec![
            (String::from("a/y.py"), String::from("x.py"), 2),
            (String::from("a/y.py"), String::from("y.py"), 3),
            (String::from("a/y.py"), String::from("y.py"), 9),
            (String::from("b/x.py"), String::from("x.py"), 1),
        ],
    );
}

#[test]
fn string_comparison_is_lexicographic() {
    assert!(str_lex_le("abc", "abd"));
    assert!(!str_lex_le("abd", "abc"));
    assert!(str_lex_le("ab", "abc"));
    assert!(!str_lex_le("abc", "ab"));
    assert!(str_lex_le("", ""));
    assert!(str_lex_le("same", "same"));
    assert!(!str_lex_le("b", "a"));
}

#[test]
fn decimal_rendering_is_exact() {
    assert_eq!(u64_to_string(0), "0");
    assert_eq!(u64_to_string(7), "7");
    assert_eq!(u64_to_string(10), "10");
    assert_eq!(u64_to_string(409), "409");
    assert_eq!(u64_to_string(18446744073709551615), "18446744073709551615");
}

#[test]
fn repo_names_come_from_the_last_segment() {
    assert_eq!(get_repo_name("https://github.com/u/repo.git"), "repo");
    assert_eq!(get_repo_name("https://gitlab.com/u/repo"), "repo");
    assert_eq!(get_repo_name("https://github.com/u/repo///"), "repo");
    assert_eq!(get_repo_name("plain"), "plain");
    assert_eq!(get_repo_name(".git"), "");
    assert_eq!(get_repo_name(""), "");
}

fn report_input() -> Vec<FileComplexity> {
    vec![
        FileComplexity {
            path: String::from("pkg/a.py"),
            file_name: String::from("a.py"),
            functions: vec![func("low", 1), func("high", 5)],
            complexity: 6,
        },
        FileComplexity {
            path: String::from("pkg/b.py"),
            file_name: String::from("b.py"),
            functions: vec![func("mid", 3)],
            complexity: 3,
        },
    ]
}

#[test]
fn json_entries_filter_by_threshold() {
    let files = report_input();
    let all = json_entries(&files, true, 2);
    assert_eq!(all.len(), 3);
    let over_two = json_entries(&files, false, 2);
    let names: Vec<&str> = over_two.iter().map(|e| e.function_name.as_str()).collect();
    assert_eq!(names, vec!["high", "mid"]);
    // The threshold is strict: a function exactly at it is not reported.
    let over_three = json_entries(&files, false, 3);
    let names: Vec<&str> = over_three.iter().map(|e| e.function_name.as_str()).collect();
    assert_eq!(names, vec!["high"]);
}

#[test]
fn csv_rows_sort_ascending_descending_or_keep_file_order() {
    let files = report_input();
    let asc = csv_rows(&files, SortOrder::Asc, true, 0);
    let names: Vec<&str> = asc.iter().map(|e| e.function_name.as_str()).collect();
    assert_eq!(names, vec!["low", "mid", "high"]);
    let desc = csv_rows(&files, SortOrder::Desc, true, 0);
    let names: Vec<&str> = desc.iter().map(|e| e.function_name.as_str()).collect();
    assert_eq!(names, vec!["high", "mid", "low"]);
    // Name order ignores the threshold and keeps file order.
    let by_name = csv_rows(&files, SortOrder::Name, false, 100);
    let names: Vec<&str> = by_name.iter().map(|e| e.function_name.as_str()).collect();
    assert_eq!(names, vec!["low", "high", "mid"]);
    assert_eq!(by_name[0].path, "pkg/a.py");
    assert_eq!(by_name[0].file_name, "a.py");
    assert_eq!(by_name[0].complexity, 1);
}

#[test]
fn empty_module_scores_zero() {
    let body: Vec<Stmt> = vec![];
    let (functions, complexity) = function_level_cognitive_complexity_shared(&body, b"");
    assert!(functions.is_empty());
    assert_eq!(complexity, 0);
}

#[test]
fn line_complexity_records_are_plain_values() {
    let lc = LineComplexity { line: 3, complexity: 2 };
    let same = LineComplexity { line: 3, complexity: 2 };
    assert_eq!(lc, same);
}
