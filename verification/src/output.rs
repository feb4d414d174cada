//! Selection and ordering of report rows for tabular and structured
//! export.
//!
//! A report row names one function with the path and file it came from.
//! For detailed reports every function is included; otherwise only those
//! whose complexity exceeds the caller's threshold. Tabular output is
//! ordered by complexity ascending or descending, or left in file order.

use vstd::prelude::*;

use crate::classes::{FileComplexity, FileComplexityV, FunctionComplexityV};

verus! {

/// One row of a report: a function, its complexity, and where it lives.
#[derive(Clone, Debug, PartialEq)]
pub struct ReportEntry {
    pub path: String,
    pub file_name: String,
    pub function_name: String,
    pub complexity: u64,
}

/// Mathematical image of a `ReportEntry`.
pub struct ReportEntryV {
    pub path: Seq<char>,
    pub file_name: Seq<char>,
    pub function_name: Seq<char>,
    pub complexity: nat,
}

impl View for ReportEntry {
    type V = ReportEntryV;

    open spec fn view(&self) -> ReportEntryV {
        ReportEntryV {
            path: self.path@,
            file_name: self.file_name@,
            function_name: self.function_name@,
            complexity: self.complexity as nat,
        }
    }
}

impl DeepView for ReportEntry {
    type V = ReportEntryV;

    open spec fn deep_view(&self) -> ReportEntryV {
        self.view()
    }
}

/// How tabular output is ordered.
#[derive(Clone, Copy, Debug, PartialEq, Eq, Structural)]
pub enum SortOrder {
    Asc,
    Desc,
    Name,
}

/// A function is reported when details are wanted or its complexity
/// exceeds the threshold.
pub open spec fn entry_selected(f: FunctionComplexityV, show_details: bool, max_complexity: u64) -> bool {
    show_details || f.complexity > max_complexity
}

/// The selected rows of one file, in function order.
pub open spec fn entries_of_file(
    path: Seq<char>,
    file_name: Seq<char>,
    fns: Seq<FunctionComplexityV>,
    show_details: bool,
    max_complexity: u64,
) -> Seq<ReportEntryV>
    decreases fns.len(),
{
    if fns.len() == 0 {
        Seq::empty()
    } else {
        let rest = entries_of_file(path, file_name, fns.drop_first(), show_details, max_complexity);
        if entry_selected(fns[0], show_details, max_complexity) {
            seq![
                ReportEntryV {
                    path: path,
                    file_name: file_name,
                    function_name: fns[0].name,
                    complexity: fns[0].complexity,
                },
            ] + rest
        } else {
            rest
        }
    }
}

/// The selected rows of a list of files, in file order.
pub open spec fn selected_entries(
    files: Seq<FileComplexityV>,
    show_details: bool,
    max_complexity: u64,
) -> Seq<ReportEntryV>
    decreases files.len(),
{
    if files.len() == 0 {
        Seq::empty()
    } else {
        entries_of_file(
            files[0].path,
            files[0].file_name,
            files[0].functions,
            show_details,
            max_complexity,
        ) + selected_entries(files.drop_first(), show_details, max_complexity)
    }
}

/// Insertion of a row into a sorted row list, after every row of equal or
/// smaller complexity.
pub open spec fn insert_entry(sorted: Seq<ReportEntryV>, x: ReportEntryV) -> Seq<ReportEntryV>
    decreases sorted.len(),
{
    if sorted.len() == 0 {
        seq![x]
    } else if sorted.last().complexity <= x.complexity {
        sorted.push(x)
    } else {
        insert_entry(sorted.drop_last(), x).push(sorted.last())
    }
}

/// Stable insertion sort of rows by complexity ascending.
pub open spec fn sort_entries(s: Seq<ReportEntryV>) -> Seq<ReportEntryV>
    decreases s.len(),
{
    if s.len() == 0 {
        s
    } else {
        insert_entry(sort_entries(s.drop_last()), s.last())
    }
}

/// The rows of a tabular report: in `Name` order every function in file
/// order; otherwise the selected rows sorted by complexity, ascending or
/// descending.
pub open spec fn csv_rows_spec(
    files: Seq<FileComplexityV>,
    order: SortOrder,
    show_details: bool,
    max_complexity: u64,
) -> Seq<ReportEntryV> {
    match order {
        SortOrder::Name => selected_entries(files, true, 0),
        SortOrder::Asc => sort_entries(selected_entries(files, show_details, max_complexity)),
        SortOrder::Desc => sort_entries(
            selected_entries(files, show_details, max_complexity),
        ).reverse(),
    }
}

/// Splitting an insertion at the found position.
proof fn lemma_insert_entry_position(sorted: Seq<ReportEntryV>, x: ReportEntryV, j: int)
    requires
        0 <= j <= sorted.len(),
        j > 0 ==> sorted[j - 1].complexity <= x.complexity,
        forall|k: int| j <= k < sorted.len() ==> !((#[trigger] sorted[k]).complexity <= x.complexity),
    ensures
        insert_entry(sorted, x) == sorted.take(j) + seq![x] + sorted.skip(j),
    decreases sorted.len(),
{
    if sorted.len() == 0 {
        assert(insert_entry(sorted, x) =~= sorted.take(j) + seq![x] + sorted.skip(j));
    } else if j == sorted.len() {
        assert(insert_entry(sorted, x) =~= sorted.take(j) + seq![x] + sorted.skip(j));
    } else {
        if j > 0 {
            assert(sorted.drop_last()[j - 1] == sorted[j - 1]);
        }
        lemma_insert_entry_position(sorted.drop_last(), x, j);
        assert(insert_entry(sorted, x) =~= sorted.take(j) + seq![x] + sorted.skip(j));
    }
}

/// The selected rows, one per reported function, in file order: the shape
/// of the structured (JSON) report.
pub fn json_entries(files: &Vec<FileComplexity>, show_details: bool, max_complexity: u64) -> (r:
    Vec<ReportEntry>)
    ensures
        r.deep_view() == selected_entries(files.deep_view(), show_details, max_complexity),
{
    let ghost fdv = files.deep_view();
    let mut out: Vec<ReportEntry> = Vec::new();
    let mut i: usize = 0;
    proof {
        assert(fdv.skip(0) =~= fdv);
        assert(out.deep_view() + selected_entries(fdv, show_details, max_complexity)
            =~= selected_entries(fdv, show_details, max_complexity));
    }
    while i < files.len()
        invariant
            0 <= i <= fdv.len(),
            fdv == files.deep_view(),
            out.deep_view() + selected_entries(fdv.skip(i as int), show_details, max_complexity)
                == selected_entries(fdv, show_details, max_complexity),
        decreases fdv.len() - i,
    {
        proof {
            assert(fdv.skip(i as int)[0] == fdv[i as int]);
            assert(fdv.skip(i as int).drop_first() =~= fdv.skip(i as int + 1));
        }
        let file = &files[i];
        let ghost gdv = file.functions.deep_view();
        let mut j: usize = 0;
        proof {
            assert(gdv.skip(0) =~= gdv);
            assert(out.deep_view() + (entries_of_file(
                file.path@,
                file.file_name@,
                gdv,
                show_details,
                max_complexity,
            ) + selected_entries(fdv.skip(i as int + 1), show_details, max_complexity))
                =~= selected_entries(fdv, show_details, max_complexity));
        }
        while j < file.functions.len()
            invariant
                0 <= j <= gdv.len(),
                gdv == file.functions.deep_view(),
                file == files@[i as int],
                0 <= i < fdv.len(),
                fdv == files.deep_view(),
                out.deep_view() + (entries_of_file(
                    file.path@,
                    file.file_name@,
                    gdv.skip(j as int),
                    show_details,
                    max_complexity,
                ) + selected_entries(fdv.skip(i as int + 1), show_details, max_complexity))
                    == selected_entries(fdv, show_details, max_complexity),
            decreases gdv.len() - j,
        {
            proof {
                assert(gdv.skip(j as int)[0] == gdv[j as int]);
                assert(gdv.skip(j as int).drop_first() =~= gdv.skip(j as int + 1));
            }
            let ghost old_out = out.deep_view();
            let f = &file.functions[j];
            if show_details || f.complexity > max_complexity {
                let entry = ReportEntry {
                    path: file.path.clone(),
                    file_name: file.file_name.clone(),
                    function_name: f.name.clone(),
                    complexity: f.complexity,
                };
                out.push(entry);
                proof {
                    assert(out.deep_view() =~= old_out + seq![
                        ReportEntryV {
                            path: file.path@,
                            file_name: file.file_name@,
                            function_name: gdv[j as int].name,
                            complexity: gdv[j as int].complexity,
                        },
                    ]);
                }
            }
            proof {
                assert(out.deep_view() + (entries_of_file(
                    file.path@,
                    file.file_name@,
                    gdv.skip(j as int + 1),
                    show_details,
                    max_complexity,
                ) + selected_entries(fdv.skip(i as int + 1), show_details, max_complexity))
                    =~= selected_entries(fdv, show_details, max_complexity));
            }
            j = j + 1;
        }
        proof {
            assert(gdv.skip(gdv.len() as int) =~= Seq::<FunctionComplexityV>::empty());
            assert(entries_of_file(
                file.path@,
                file.file_name@,
                Seq::<FunctionComplexityV>::empty(),
                show_details,
                max_complexity,
            ) =~= Seq::<ReportEntryV>::empty());
            assert(out.deep_view() + selected_entries(
                fdv.skip(i as int + 1),
                show_details,
                max_complexity,
            ) =~= selected_entries(fdv, show_details, max_complexity));
        }
        i = i + 1;
    }
    proof {
        assert(fdv.skip(fdv.len() as int) =~= Seq::<FileComplexityV>::empty());
        assert(out.deep_view() =~= selected_entries(fdv, show_details, max_complexity));
    }
    out
}

/// Sorts rows by complexity ascending, stably.
fn sort_report_entries(v: Vec<ReportEntry>) -> (r: Vec<ReportEntry>)
    ensures
        r.deep_view() == sort_entries(v.deep_view()),
{
    let ghost orig = v.deep_view();
    let mut v = v;
    if v.len() <= 1 {
        proof {
            if orig.len() == 1 {
                assert(orig.drop_last() =~= Seq::<ReportEntryV>::empty());
                assert(sort_entries(Seq::<ReportEntryV>::empty()) =~= Seq::<ReportEntryV>::empty());
                assert(insert_entry(Seq::<ReportEntryV>::empty(), orig.last()) =~= seq![
                    orig.last(),
                ]);
                assert(seq![orig.last()] =~= orig);
                assert(sort_entries(orig) =~= orig);
            }
        }
        return v;
    }
    let mut i: usize = 1;
    proof {
        assert(orig.take(1).drop_last() =~= Seq::<ReportEntryV>::empty());
        assert(orig.take(1).last() == orig[0]);
        assert(sort_entries(Seq::<ReportEntryV>::empty()) =~= Seq::<ReportEntryV>::empty());
        assert(insert_entry(Seq::<ReportEntryV>::empty(), orig[0]) =~= seq![orig[0]]);
        assert(sort_entries(orig.take(1)) =~= seq![orig[0]]);
        assert(v.deep_view().take(1) =~= seq![orig[0]]);
        assert(v.deep_view().skip(1) =~= orig.skip(1));
    }
    while i < v.len()
        invariant
            1 <= i <= v@.len(),
            v@.len() == orig.len(),
            v.deep_view().skip(i as int) == orig.skip(i as int),
            v.deep_view().take(i as int) == sort_entries(orig.take(i as int)),
        decreases v@.len() - i,
    {
        let ghost pre = v.deep_view();
        let ghost pre_at = v@;
        let ghost sorted_prefix = v.deep_view().take(i as int);
        proof {
            assert(pre.skip(i as int)[0] == pre[i as int]);
            assert(orig.skip(i as int)[0] == orig[i as int]);
        }
        let x = v.remove(i);
        let ghost xv = x.deep_view();
        proof {
            assert(xv == pre[i as int]);
            assert(pre[i as int] == orig[i as int]);
            assert forall|k: int| 0 <= k < v@.len() implies v.deep_view()[k] == (if k < i as int {
                pre[k]
            } else {
                pre[k + 1]
            }) by {
                assert(v@[k] == pre_at.remove(i as int)[k]);
            }
            assert(v.deep_view().take(i as int) =~= sorted_prefix);
        }
        let ghost mid = v.deep_view();
        let mut j: usize = i;
        while j > 0 && !(v[j - 1].complexity <= x.complexity)
            invariant
                0 <= j <= i,
                i < orig.len(),
                v@.len() == orig.len() - 1,
                mid == v.deep_view(),
                v.deep_view().take(i as int) == sorted_prefix,
                xv == x.deep_view(),
                forall|k: int|
                    j <= k < i ==> !((#[trigger] sorted_prefix[k]).complexity <= xv.complexity),
            decreases j,
        {
            proof {
                assert(v.deep_view()[j as int - 1] == sorted_prefix[j as int - 1]);
            }
            j = j - 1;
        }
        proof {
            if j > 0 {
                assert(v.deep_view()[j as int - 1] == sorted_prefix[j as int - 1]);
            }
            lemma_insert_entry_position(sorted_prefix, xv, j as int);
        }
        let ghost mid_at = v@;
        v.insert(j, x);
        proof {
            assert forall|k: int| 0 <= k < v@.len() implies v.deep_view()[k] == (if k < j as int {
                mid[k]
            } else if k == j as int {
                xv
            } else {
                mid[k - 1]
            }) by {
                assert(v@[k] == mid_at.insert(j as int, x)[k]);
            }
            assert(orig.take(i as int + 1).drop_last() =~= orig.take(i as int));
            assert(orig.take(i as int + 1).last() == orig[i as int]);
            assert(v.deep_view().take(i as int + 1) =~= sorted_prefix.take(j as int) + seq![xv]
                + sorted_prefix.skip(j as int));
            assert(v.deep_view().take(i as int + 1) == sort_entries(orig.take(i as int + 1)));
            assert forall|k: int|
                i as int + 1 <= k < v.deep_view().len() implies v.deep_view()[k] == orig[k] by {
                assert(mid[k - 1] == pre[k]);
                assert(pre.skip(i as int)[k - i as int] == pre[k]);
                assert(orig.skip(i as int)[k - i as int] == orig[k]);
            }
            assert(v.deep_view().skip(i as int + 1) =~= orig.skip(i as int + 1));
        }
        i = i + 1;
    }
    proof {
        assert(orig.take(orig.len() as int) =~= orig);
        assert(v.deep_view().take(orig.len() as int) =~= v.deep_view());
    }
    v
}

/// Reverses a row list.
fn reverse_entries(v: Vec<ReportEntry>) -> (r: Vec<ReportEntry>)
    ensures
        r.deep_view() == v.deep_view().reverse(),
{
    let ghost orig = v.deep_view();
    let mut v = v;
    let mut out: Vec<ReportEntry> = Vec::new();
    proof {
        assert(v.deep_view() =~= orig.take(v@.len() as int));
    }
    while v.len() > 0
        invariant
            v@.len() <= orig.len(),
            v.deep_view() == orig.take(v@.len() as int),
            out.deep_view().len() == orig.len() - v@.len(),
            forall|k: int|
                0 <= k < out.deep_view().len() ==> out.deep_view()[k] == orig[orig.len() - 1 - k],
        decreases v@.len(),
    {
        let ghost old_out = out.deep_view();
        let ghost n = v@.len() as int;
        let x = match v.pop() {
            Some(x) => x,
            None => {
                proof {
                    assert(false);
                }
                return out;
            },
        };
        proof {
            assert(x.deep_view() == orig.take(n)[n - 1]);
            assert(orig.take(n)[n - 1] == orig[n - 1]);
            assert(v.deep_view() =~= orig.take(n - 1));
        }
        out.push(x);
        proof {
            assert(out.deep_view() =~= old_out.push(orig[n - 1]));
        }
    }
    proof {
        assert(out.deep_view() =~= orig.reverse());
    }
    out
}

/// The rows of a tabular report: every function in file order under
/// `Name` ordering, otherwise the selected rows sorted by complexity
/// ascending or descending.
pub fn csv_rows(
    files: &Vec<FileComplexity>,
    order: SortOrder,
    show_details: bool,
    max_complexity: u64,
) -> (r: Vec<ReportEntry>)
    ensures
        r.deep_view() == csv_rows_spec(files.deep_view(), order, show_details, max_complexity),
{
    match order {
        SortOrder::Name => json_entries(files, true, 0),
        SortOrder::Asc => {
            let selected = json_entries(files, show_details, max_complexity);
            sort_report_entries(selected)
        },
        SortOrder::Desc => {
            let selected = json_entries(files, show_details, max_complexity);
            let sorted = sort_report_entries(selected);
            reverse_entries(sorted)
        },
    }
}

} // verus!
