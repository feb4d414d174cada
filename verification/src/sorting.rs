//! Deterministic ordering of results.
//!
//! Function records are ordered by `(complexity, name)` ascending and file
//! records by `(path, file_name, complexity)` ascending, so output never
//! depends on the order in which work was scheduled. Both sorts are
//! stable insertion sorts whose result is pinned exactly by a
//! mathematical insertion sort on the records' views.

use vstd::prelude::*;

use crate::classes::{FileComplexity, FileComplexityV, FunctionComplexity, FunctionComplexityV};
use crate::text::{lemma_lex_le_antisym, lemma_lex_le_total, lemma_lex_le_trans, lex_le, str_lex_le};

verus! {

/// Order on function records: by complexity, then name.
pub open spec fn fn_le(x: FunctionComplexityV, y: FunctionComplexityV) -> bool {
    ||| x.complexity < y.complexity
    ||| (x.complexity == y.complexity && lex_le(x.name, y.name))
}

/// Strict lexicographic order.
pub open spec fn lex_lt(a: Seq<char>, b: Seq<char>) -> bool {
    lex_le(a, b) && a != b
}

/// Order on file records: by path, then file name, then complexity.
pub open spec fn file_le(x: FileComplexityV, y: FileComplexityV) -> bool {
    ||| lex_lt(x.path, y.path)
    ||| (x.path == y.path && lex_lt(x.file_name, y.file_name))
    ||| (x.path == y.path && x.file_name == y.file_name && x.complexity <= y.complexity)
}

/// Insertion of `x` into a sorted sequence, after every element it is
/// greater than or equal to (so equal keys keep their arrival order).
pub open spec fn insert_fn_rec(sorted: Seq<FunctionComplexityV>, x: FunctionComplexityV) -> Seq<
    FunctionComplexityV,
>
    decreases sorted.len(),
{
    if sorted.len() == 0 {
        seq![x]
    } else if fn_le(sorted.last(), x) {
        sorted.push(x)
    } else {
        insert_fn_rec(sorted.drop_last(), x).push(sorted.last())
    }
}

/// Stable insertion sort of function records by `(complexity, name)`.
pub open spec fn sort_fn_recs(s: Seq<FunctionComplexityV>) -> Seq<FunctionComplexityV>
    decreases s.len(),
{
    if s.len() == 0 {
        s
    } else {
        insert_fn_rec(sort_fn_recs(s.drop_last()), s.last())
    }
}

/// Insertion of `x` into a sorted file-record sequence.
pub open spec fn insert_file_rec(sorted: Seq<FileComplexityV>, x: FileComplexityV) -> Seq<
    FileComplexityV,
>
    decreases sorted.len(),
{
    if sorted.len() == 0 {
        seq![x]
    } else if file_le(sorted.last(), x) {
        sorted.push(x)
    } else {
        insert_file_rec(sorted.drop_last(), x).push(sorted.last())
    }
}

/// Stable insertion sort of file records by `(path, file_name, complexity)`.
pub open spec fn sort_file_recs(s: Seq<FileComplexityV>) -> Seq<FileComplexityV>
    decreases s.len(),
{
    if s.len() == 0 {
        s
    } else {
        insert_file_rec(sort_file_recs(s.drop_last()), s.last())
    }
}

/// Pairwise sortedness of function records.
pub open spec fn fn_recs_sorted(s: Seq<FunctionComplexityV>) -> bool {
    forall|i: int, j: int| 0 <= i < j < s.len() ==> fn_le(#[trigger] s[i], #[trigger] s[j])
}

/// Pairwise sortedness of file records.
pub open spec fn file_recs_sorted(s: Seq<FileComplexityV>) -> bool {
    forall|i: int, j: int| 0 <= i < j < s.len() ==> file_le(#[trigger] s[i], #[trigger] s[j])
}

/// The function-record order is total.
pub proof fn lemma_fn_le_total(x: FunctionComplexityV, y: FunctionComplexityV)
    ensures
        fn_le(x, y) || fn_le(y, x),
{
    lemma_lex_le_total(x.name, y.name);
}

/// The function-record order is transitive.
pub proof fn lemma_fn_le_trans(x: FunctionComplexityV, y: FunctionComplexityV, z: FunctionComplexityV)
    requires
        fn_le(x, y),
        fn_le(y, z),
    ensures
        fn_le(x, z),
{
    if x.complexity == y.complexity && y.complexity == z.complexity {
        lemma_lex_le_trans(x.name, y.name, z.name);
    }
}

/// The file-record order is total.
pub proof fn lemma_file_le_total(x: FileComplexityV, y: FileComplexityV)
    ensures
        file_le(x, y) || file_le(y, x),
{
    lemma_lex_le_total(x.path, y.path);
    lemma_lex_le_total(x.file_name, y.file_name);
}

/// The file-record order is transitive.
pub proof fn lemma_file_le_trans(x: FileComplexityV, y: FileComplexityV, z: FileComplexityV)
    requires
        file_le(x, y),
        file_le(y, z),
    ensures
        file_le(x, z),
{
    if x.path == y.path && y.path == z.path {
        if x.file_name != y.file_name && y.file_name != z.file_name {
            lemma_lex_le_trans(x.file_name, y.file_name, z.file_name);
            if x.file_name == z.file_name {
                lemma_lex_le_antisym(x.file_name, y.file_name);
            }
        }
    } else if x.path == y.path || y.path == z.path {
    } else {
        lemma_lex_le_trans(x.path, y.path, z.path);
        if x.path == z.path {
            lemma_lex_le_antisym(x.path, y.path);
        }
    }
}

/// Inserting into a sorted sequence keeps it sorted.
proof fn lemma_insert_fn_rec_sorted(sorted: Seq<FunctionComplexityV>, x: FunctionComplexityV)
    requires
        fn_recs_sorted(sorted),
    ensures
        fn_recs_sorted(insert_fn_rec(sorted, x)),
    decreases sorted.len(),
{
    if sorted.len() == 0 {
    } else if fn_le(sorted.last(), x) {
        let r = sorted.push(x);
        assert forall|i: int, j: int| 0 <= i < j < r.len() implies fn_le(
            #[trigger] r[i],
            #[trigger] r[j],
        ) by {
            if j == r.len() - 1 {
                if i < sorted.len() - 1 {
                    lemma_fn_le_trans(sorted[i], sorted.last(), x);
                }
            }
        }
    } else {
        assert(fn_recs_sorted(sorted.drop_last()));
        lemma_insert_fn_rec_sorted(sorted.drop_last(), x);
        let inner = insert_fn_rec(sorted.drop_last(), x);
        let r = inner.push(sorted.last());
        lemma_fn_le_total(sorted.last(), x);
        lemma_insert_fn_rec_elems(sorted.drop_last(), x);
        assert forall|i: int, j: int| 0 <= i < j < r.len() implies fn_le(
            #[trigger] r[i],
            #[trigger] r[j],
        ) by {
            if j == r.len() - 1 {
                assert(inner[i] == x || exists|k: int|
                    0 <= k < sorted.len() - 1 && inner[i] == sorted[k]);
                if inner[i] == x {
                    assert(fn_le(x, sorted.last()));
                } else {
                    let k = choose|k: int| 0 <= k < sorted.len() - 1 && inner[i] == sorted[k];
                    assert(fn_le(sorted[k], sorted.last()));
                }
            }
        }
    }
}

/// Every element of an insertion result is the inserted element or one of
/// the sorted sequence's own.
proof fn lemma_insert_fn_rec_elems(sorted: Seq<FunctionComplexityV>, x: FunctionComplexityV)
    ensures
        insert_fn_rec(sorted, x).len() == sorted.len() + 1,
        forall|i: int|
            0 <= i < insert_fn_rec(sorted, x).len() ==> (#[trigger] insert_fn_rec(sorted, x)[i]
                == x || exists|k: int| 0 <= k < sorted.len() && insert_fn_rec(sorted, x)[i]
                == sorted[k]),
    decreases sorted.len(),
{
    if sorted.len() == 0 {
    } else if fn_le(sorted.last(), x) {
        assert forall|i: int| 0 <= i < insert_fn_rec(sorted, x).len() implies (
        #[trigger] insert_fn_rec(sorted, x)[i] == x || exists|k: int|
            0 <= k < sorted.len() && insert_fn_rec(sorted, x)[i] == sorted[k]) by {
            if i < sorted.len() {
                assert(insert_fn_rec(sorted, x)[i] == sorted[i]);
            }
        }
    } else {
        lemma_insert_fn_rec_elems(sorted.drop_last(), x);
        let inner = insert_fn_rec(sorted.drop_last(), x);
        assert forall|i: int| 0 <= i < insert_fn_rec(sorted, x).len() implies (
        #[trigger] insert_fn_rec(sorted, x)[i] == x || exists|k: int|
            0 <= k < sorted.len() && insert_fn_rec(sorted, x)[i] == sorted[k]) by {
            if i < inner.len() {
                assert(insert_fn_rec(sorted, x)[i] == inner[i]);
                if inner[i] != x {
                    let k = choose|k: int|
                        0 <= k < sorted.drop_last().len() && inner[i] == sorted.drop_last()[k];
                    assert(insert_fn_rec(sorted, x)[i] == sorted[k]);
                }
            } else {
                assert(insert_fn_rec(sorted, x)[i] == sorted[sorted.len() - 1]);
            }
        }
    }
}

/// The sorted sequence of function records is pairwise sorted.
pub proof fn lemma_sort_fn_recs_sorted(s: Seq<FunctionComplexityV>)
    ensures
        fn_recs_sorted(sort_fn_recs(s)),
    decreases s.len(),
{
    if s.len() > 0 {
        lemma_sort_fn_recs_sorted(s.drop_last());
        lemma_insert_fn_rec_sorted(sort_fn_recs(s.drop_last()), s.last());
    }
}

/// Sorting rearranges the records: every record of the sorted sequence is
/// one of the input's own, and the length is unchanged.
pub proof fn lemma_sort_fn_recs_elems(s: Seq<FunctionComplexityV>)
    ensures
        sort_fn_recs(s).len() == s.len(),
        forall|i: int|
            0 <= i < sort_fn_recs(s).len() ==> exists|k: int|
                0 <= k < s.len() && #[trigger] sort_fn_recs(s)[i] == s[k],
    decreases s.len(),
{
    if s.len() > 0 {
        lemma_sort_fn_recs_elems(s.drop_last());
        let inner = sort_fn_recs(s.drop_last());
        lemma_insert_fn_rec_elems(inner, s.last());
        assert forall|i: int| 0 <= i < sort_fn_recs(s).len() implies exists|k: int|
            0 <= k < s.len() && #[trigger] sort_fn_recs(s)[i] == s[k] by {
            if sort_fn_recs(s)[i] == s.last() {
                assert(sort_fn_recs(s)[i] == s[s.len() - 1]);
            } else {
                let j = choose|j: int| 0 <= j < inner.len() && sort_fn_recs(s)[i] == inner[j];
                let k = choose|k: int|
                    0 <= k < s.drop_last().len() && inner[j] == s.drop_last()[k];
                assert(sort_fn_recs(s)[i] == s[k]);
            }
        }
    }
}

/// Insertion adds exactly the inserted record to the multiset of records.
proof fn lemma_insert_fn_rec_multiset(sorted: Seq<FunctionComplexityV>, x: FunctionComplexityV)
    ensures
        insert_fn_rec(sorted, x).to_multiset() == sorted.to_multiset().insert(x),
    decreases sorted.len(),
{
    broadcast use vstd::seq_lib::group_to_multiset_ensures;

    if sorted.len() == 0 {
        assert(seq![x] =~= Seq::<FunctionComplexityV>::empty().push(x));
        assert(insert_fn_rec(sorted, x).to_multiset() =~= sorted.to_multiset().insert(x));
    } else if fn_le(sorted.last(), x) {
    } else {
        lemma_insert_fn_rec_multiset(sorted.drop_last(), x);
        assert(sorted.drop_last().push(sorted.last()) =~= sorted);
        assert(insert_fn_rec(sorted, x).to_multiset() =~= sorted.to_multiset().insert(x));
    }
}

/// Sorting permutes the records: the multiset of records is unchanged.
pub proof fn lemma_sort_fn_recs_permutes(s: Seq<FunctionComplexityV>)
    ensures
        sort_fn_recs(s).to_multiset() == s.to_multiset(),
    decreases s.len(),
{
    broadcast use vstd::seq_lib::group_to_multiset_ensures;

    if s.len() > 0 {
        lemma_sort_fn_recs_permutes(s.drop_last());
        lemma_insert_fn_rec_multiset(sort_fn_recs(s.drop_last()), s.last());
        assert(s.drop_last().push(s.last()) =~= s);
        assert(sort_fn_recs(s).to_multiset() =~= s.to_multiset());
    }
}

/// Splitting an insertion at the found position: inserting `x` into a
/// sorted sequence whose elements up to `j` are at most `x` and beyond `j`
/// are not places `x` exactly at `j`.
proof fn lemma_insert_fn_rec_position(sorted: Seq<FunctionComplexityV>, x: FunctionComplexityV, j: int)
    requires
        0 <= j <= sorted.len(),
        j > 0 ==> fn_le(sorted[j - 1], x),
        forall|k: int| j <= k < sorted.len() ==> !fn_le(#[trigger] sorted[k], x),
    ensures
        insert_fn_rec(sorted, x) == sorted.take(j) + seq![x] + sorted.skip(j),
    decreases sorted.len(),
{
    if sorted.len() == 0 {
        assert(insert_fn_rec(sorted, x) =~= sorted.take(j) + seq![x] + sorted.skip(j));
    } else if j == sorted.len() {
        assert(fn_le(sorted.last(), x));
        assert(insert_fn_rec(sorted, x) =~= sorted.take(j) + seq![x] + sorted.skip(j));
    } else {
        assert(!fn_le(sorted.last(), x));
        if j > 0 {
            assert(sorted.drop_last()[j - 1] == sorted[j - 1]);
        }
        lemma_insert_fn_rec_position(sorted.drop_last(), x, j);
        assert(insert_fn_rec(sorted, x) =~= sorted.take(j) + seq![x] + sorted.skip(j));
    }
}

/// Exec order on function records.
fn fn_le_exec(a: &FunctionComplexity, b: &FunctionComplexity) -> (r: bool)
    ensures
        r == fn_le(a.deep_view(), b.deep_view()),
{
    if a.complexity < b.complexity {
        true
    } else if a.complexity == b.complexity {
        str_lex_le(a.name.as_str(), b.name.as_str())
    } else {
        false
    }
}

/// Sorts function records by `(complexity, name)` ascending, stably.
pub fn sort_functions(v: Vec<FunctionComplexity>) -> (r: Vec<FunctionComplexity>)
    ensures
        r.deep_view() == sort_fn_recs(v.deep_view()),
{
    let ghost orig = v.deep_view();
    let mut v = v;
    if v.len() <= 1 {
        proof {
            if orig.len() == 1 {
                assert(orig.drop_last() =~= Seq::<FunctionComplexityV>::empty());
                assert(sort_fn_recs(Seq::<FunctionComplexityV>::empty())
                    =~= Seq::<FunctionComplexityV>::empty());
                assert(insert_fn_rec(Seq::<FunctionComplexityV>::empty(), orig.last()) =~= seq![
                    orig.last(),
                ]);
                assert(seq![orig.last()] =~= orig);
                assert(sort_fn_recs(orig) =~= orig);
            }
        }
        return v;
    }
    let mut i: usize = 1;
    proof {
        assert(orig.take(1).drop_last() =~= Seq::<FunctionComplexityV>::empty());
        assert(orig.take(1).last() == orig[0]);
        assert(sort_fn_recs(Seq::<FunctionComplexityV>::empty())
            =~= Seq::<FunctionComplexityV>::empty());
        assert(insert_fn_rec(Seq::<FunctionComplexityV>::empty(), orig[0]) =~= seq![orig[0]]);
        assert(sort_fn_recs(orig.take(1)) =~= seq![orig[0]]);
        assert(v.deep_view().take(1) =~= seq![orig[0]]);
        assert(v.deep_view().skip(1) =~= orig.skip(1));
    }
    while i < v.len()
        invariant
            1 <= i <= v@.len(),
            v@.len() == orig.len(),
            v.deep_view().skip(i as int) == orig.skip(i as int),
            v.deep_view().take(i as int) == sort_fn_recs(orig.take(i as int)),
        decreases v@.len() - i,
    {
        let ghost pre = v.deep_view();
        let ghost pre_at = v@;
        let ghost sorted_prefix = v.deep_view().take(i as int);
        proof {
            lemma_sort_fn_recs_sorted(orig.take(i as int));
            assert(pre.skip(i as int)[0] == pre[i as int]);
            assert(orig.skip(i as int)[0] == orig[i as int]);
        }
        let x = v.remove(i);
        let ghost xv = x.deep_view();
        proof {
            assert(xv == pre[i as int]);
            assert(pre[i as int] == orig[i as int]);
            assert forall|k: int| 0 <= k < v@.len() implies v.deep_view()[k] == (if k < i as int {
                pre[k]
            } else {
                pre[k + 1]
            }) by {
                assert(v@[k] == pre_at.remove(i as int)[k]);
            }
            assert(v.deep_view().take(i as int) =~= sorted_prefix);
        }
        let ghost mid = v.deep_view();
        let mut j: usize = i;
        while j > 0 && !fn_le_exec(&v[j - 1], &x)
            invariant
                0 <= j <= i,
                i < orig.len(),
                v@.len() == orig.len() - 1,
                mid == v.deep_view(),
                v.deep_view().take(i as int) == sorted_prefix,
                xv == x.deep_view(),
                forall|k: int| j <= k < i ==> !fn_le(#[trigger] sorted_prefix[k], xv),
            decreases j,
        {
            proof {
                assert(v.deep_view()[j as int - 1] == sorted_prefix[j as int - 1]);
            }
            j = j - 1;
        }
        proof {
            if j > 0 {
                assert(v.deep_view()[j as int - 1] == sorted_prefix[j as int - 1]);
            }
            lemma_insert_fn_rec_position(sorted_prefix, xv, j as int);
        }
        let ghost mid_at = v@;
        v.insert(j, x);
        proof {
            assert forall|k: int| 0 <= k < v@.len() implies v.deep_view()[k] == (if k < j as int {
                mid[k]
            } else if k == j as int {
                xv
            } else {
                mid[k - 1]
            }) by {
                assert(v@[k] == mid_at.insert(j as int, x)[k]);
            }
            assert(orig.take(i as int + 1).drop_last() =~= orig.take(i as int));
            assert(orig.take(i as int + 1).last() == orig[i as int]);
            assert(v.deep_view().take(i as int + 1) =~= sorted_prefix.take(j as int) + seq![xv]
                + sorted_prefix.skip(j as int));
            assert(v.deep_view().take(i as int + 1) == sort_fn_recs(orig.take(i as int + 1)));
            assert forall|k: int|
                i as int + 1 <= k < v.deep_view().len() implies v.deep_view()[k] == orig[k] by {
                assert(mid[k - 1] == pre[k]);
                assert(pre.skip(i as int)[k - i as int] == pre[k]);
                assert(orig.skip(i as int)[k - i as int] == orig[k]);
            }
            assert(v.deep_view().skip(i as int + 1) =~= orig.skip(i as int + 1));
        }
        i = i + 1;
    }
    proof {
        assert(orig.take(orig.len() as int) =~= orig);
        assert(v.deep_view().take(orig.len() as int) =~= v.deep_view());
    }
    v
}

/// Inserting into a sorted sequence keeps it sorted.
proof fn lemma_insert_file_rec_sorted(sorted: Seq<FileComplexityV>, x: FileComplexityV)
    requires
        file_recs_sorted(sorted),
    ensures
        file_recs_sorted(insert_file_rec(sorted, x)),
    decreases sorted.len(),
{
    if sorted.len() == 0 {
    } else if file_le(sorted.last(), x) {
        let r = sorted.push(x);
        assert forall|i: int, j: int| 0 <= i < j < r.len() implies file_le(
            #[trigger] r[i],
            #[trigger] r[j],
        ) by {
            if j == r.len() - 1 {
                if i < sorted.len() - 1 {
                    lemma_file_le_trans(sorted[i], sorted.last(), x);
                }
            }
        }
    } else {
        assert(file_recs_sorted(sorted.drop_last()));
        lemma_insert_file_rec_sorted(sorted.drop_last(), x);
        let inner = insert_file_rec(sorted.drop_last(), x);
        let r = inner.push(sorted.last());
        lemma_file_le_total(sorted.last(), x);
        lemma_insert_file_rec_elems(sorted.drop_last(), x);
        assert forall|i: int, j: int| 0 <= i < j < r.len() implies file_le(
            #[trigger] r[i],
            #[trigger] r[j],
        ) by {
            if j == r.len() - 1 {
                assert(inner[i] == x || exists|k: int|
                    0 <= k < sorted.len() - 1 && inner[i] == sorted[k]);
                if inner[i] == x {
                    assert(file_le(x, sorted.last()));
                } else {
                    let k = choose|k: int| 0 <= k < sorted.len() - 1 && inner[i] == sorted[k];
                    assert(file_le(sorted[k], sorted.last()));
                }
            }
        }
    }
}

/// Every element of an insertion result is the inserted element or one of
/// the sorted sequence's own.
proof fn lemma_insert_file_rec_elems(sorted: Seq<FileComplexityV>, x: FileComplexityV)
    ensures
        insert_file_rec(sorted, x).len() == sorted.len() + 1,
        forall|i: int|
            0 <= i < insert_file_rec(sorted, x).len() ==> (#[trigger] insert_file_rec(sorted, x)[i]
                == x || exists|k: int| 0 <= k < sorted.len() && insert_file_rec(sorted, x)[i]
                == sorted[k]),
    decreases sorted.len(),
{
    if sorted.len() == 0 {
    } else if file_le(sorted.last(), x) {
        assert forall|i: int| 0 <= i < insert_file_rec(sorted, x).len() implies (
        #[trigger] insert_file_rec(sorted, x)[i] == x || exists|k: int|
            0 <= k < sorted.len() && insert_file_rec(sorted, x)[i] == sorted[k]) by {
            if i < sorted.len() {
                assert(insert_file_rec(sorted, x)[i] == sorted[i]);
            }
        }
    } else {
        lemma_insert_file_rec_elems(sorted.drop_last(), x);
        let inner = insert_file_rec(sorted.drop_last(), x);
        assert forall|i: int| 0 <= i < insert_file_rec(sorted, x).len() implies (
        #[trigger] insert_file_rec(sorted, x)[i] == x || exists|k: int|
            0 <= k < sorted.len() && insert_file_rec(sorted, x)[i] == sorted[k]) by {
            if i < inner.len() {
                assert(insert_file_rec(sorted, x)[i] == inner[i]);
                if inner[i] != x {
                    let k = choose|k: int|
                        0 <= k < sorted.drop_last().len() && inner[i] == sorted.drop_last()[k];
                    assert(insert_file_rec(sorted, x)[i] == sorted[k]);
                }
            } else {
                assert(insert_file_rec(sorted, x)[i] == sorted[sorted.len() - 1]);
            }
        }
    }
}

/// The sorted sequence of file records is pairwise sorted.
pub proof fn lemma_sort_file_recs_sorted(s: Seq<FileComplexityV>)
    ensures
        file_recs_sorted(sort_file_recs(s)),
    decreases s.len(),
{
    if s.len() > 0 {
        lemma_sort_file_recs_sorted(s.drop_last());
        lemma_insert_file_rec_sorted(sort_file_recs(s.drop_last()), s.last());
    }
}

/// Splitting an insertion at the found position: inserting `x` into a
/// sorted sequence whose elements up to `j` are at most `x` and beyond `j`
/// are not places `x` exactly at `j`.
proof fn lemma_insert_file_rec_position(sorted: Seq<FileComplexityV>, x: FileComplexityV, j: int)
    requires
        0 <= j <= sorted.len(),
        j > 0 ==> file_le(sorted[j - 1], x),
        forall|k: int| j <= k < sorted.len() ==> !file_le(#[trigger] sorted[k], x),
    ensures
        insert_file_rec(sorted, x) == sorted.take(j) + seq![x] + sorted.skip(j),
    decreases sorted.len(),
{
    if sorted.len() == 0 {
        assert(insert_file_rec(sorted, x) =~= sorted.take(j) + seq![x] + sorted.skip(j));
    } else if j == sorted.len() {
        assert(file_le(sorted.last(), x));
        assert(insert_file_rec(sorted, x) =~= sorted.take(j) + seq![x] + sorted.skip(j));
    } else {
        assert(!file_le(sorted.last(), x));
        if j > 0 {
            assert(sorted.drop_last()[j - 1] == sorted[j - 1]);
        }
        lemma_insert_file_rec_position(sorted.drop_last(), x, j);
        assert(insert_file_rec(sorted, x) =~= sorted.take(j) + seq![x] + sorted.skip(j));
    }
}

/// Exec order on file records.
fn file_le_exec(a: &FileComplexity, b: &FileComplexity) -> (r: bool)
    ensures
        r == file_le(a.deep_view(), b.deep_view()),
{
    let path_eq = a.path == b.path;
    if !path_eq {
        let le = str_lex_le(a.path.as_str(), b.path.as_str());
        proof {
            if a.path@ == b.path@ {
                assert(false);
            }
        }
        le
    } else {
        let name_eq = a.file_name == b.file_name;
        if !name_eq {
            str_lex_le(a.file_name.as_str(), b.file_name.as_str())
        } else {
            a.complexity <= b.complexity
        }
    }
}

/// Sorts file records by `(path, file_name, complexity)` ascending, stably.
pub fn sort_files(v: Vec<FileComplexity>) -> (r: Vec<FileComplexity>)
    ensures
        r.deep_view() == sort_file_recs(v.deep_view()),
{
    let ghost orig = v.deep_view();
    let mut v = v;
    if v.len() <= 1 {
        proof {
            if orig.len() == 1 {
                assert(orig.drop_last() =~= Seq::<FileComplexityV>::empty());
                assert(sort_file_recs(Seq::<FileComplexityV>::empty())
                    =~= Seq::<FileComplexityV>::empty());
                assert(insert_file_rec(Seq::<FileComplexityV>::empty(), orig.last()) =~= seq![
                    orig.last(),
                ]);
                assert(seq![orig.last()] =~= orig);
                assert(sort_file_recs(orig) =~= orig);
            }
        }
        return v;
    }
    let mut i: usize = 1;
    proof {
        assert(orig.take(1).drop_last() =~= Seq::<FileComplexityV>::empty());
        assert(orig.take(1).last() == orig[0]);
        assert(sort_file_recs(Seq::<FileComplexityV>::empty())
            =~= Seq::<FileComplexityV>::empty());
        assert(insert_file_rec(Seq::<FileComplexityV>::empty(), orig[0]) =~= seq![orig[0]]);
        assert(sort_file_recs(orig.take(1)) =~= seq![orig[0]]);
        assert(v.deep_view().take(1) =~= seq![orig[0]]);
        assert(v.deep_view().skip(1) =~= orig.skip(1));
    }
    while i < v.len()
        invariant
            1 <= i <= v@.len(),
            v@.len() == orig.len(),
            v.deep_view().skip(i as int) == orig.skip(i as int),
            v.deep_view().take(i as int) == sort_file_recs(orig.take(i as int)),
        decreases v@.len() - i,
    {
        let ghost pre = v.deep_view();
        let ghost pre_at = v@;
        let ghost sorted_prefix = v.deep_view().take(i as int);
        proof {
            lemma_sort_file_recs_sorted(orig.take(i as int));
            assert(pre.skip(i as int)[0] == pre[i as int]);
            assert(orig.skip(i as int)[0] == orig[i as int]);
        }
        let x = v.remove(i);
        let ghost xv = x.deep_view();
        proof {
            assert(xv == pre[i as int]);
            assert(pre[i as int] == orig[i as int]);
            assert forall|k: int| 0 <= k < v@.len() implies v.deep_view()[k] == (if k < i as int {
                pre[k]
            } else {
                pre[k + 1]
            }) by {
                assert(v@[k] == pre_at.remove(i as int)[k]);
            }
            assert(v.deep_view().take(i as int) =~= sorted_prefix);
        }
        let ghost mid = v.deep_view();
        let mut j: usize = i;
        while j > 0 && !file_le_exec(&v[j - 1], &x)
            invariant
                0 <= j <= i,
                i < orig.len(),
                v@.len() == orig.len() - 1,
                mid == v.deep_view(),
                v.deep_view().take(i as int) == sorted_prefix,
                xv == x.deep_view(),
                forall|k: int| j <= k < i ==> !file_le(#[trigger] sorted_prefix[k], xv),
            decreases j,
        {
            proof {
                assert(v.deep_view()[j as int - 1] == sorted_prefix[j as int - 1]);
            }
            j = j - 1;
        }
        proof {
            if j > 0 {
                assert(v.deep_view()[j as int - 1] == sorted_prefix[j as int - 1]);
            }
            lemma_insert_file_rec_position(sorted_prefix, xv, j as int);
        }
        let ghost mid_at = v@;
        v.insert(j, x);
        proof {
            assert forall|k: int| 0 <= k < v@.len() implies v.deep_view()[k] == (if k < j as int {
                mid[k]
            } else if k == j as int {
                xv
            } else {
                mid[k - 1]
            }) by {
                assert(v@[k] == mid_at.insert(j as int, x)[k]);
            }
            assert(orig.take(i as int + 1).drop_last() =~= orig.take(i as int));
            assert(orig.take(i as int + 1).last() == orig[i as int]);
            assert(v.deep_view().take(i as int + 1) =~= sorted_prefix.take(j as int) + seq![xv]
                + sorted_prefix.skip(j as int));
            assert(v.deep_view().take(i as int + 1) == sort_file_recs(orig.take(i as int + 1)));
            assert forall|k: int|
                i as int + 1 <= k < v.deep_view().len() implies v.deep_view()[k] == orig[k] by {
                assert(mid[k - 1] == pre[k]);
                assert(pre.skip(i as int)[k - i as int] == pre[k]);
                assert(orig.skip(i as int)[k - i as int] == orig[k]);
            }
            assert(v.deep_view().skip(i as int + 1) =~= orig.skip(i as int + 1));
        }
        i = i + 1;
    }
    proof {
        assert(orig.take(orig.len() as int) =~= orig);
        assert(v.deep_view().take(orig.len() as int) =~= v.deep_view());
    }
    v
}

} // verus!
