use vstd::prelude::*;

use crate::colors::{extension_of, extension_text};
use crate::order::str_eq;
use crate::tree::{fitting, DirNode};

verus! {

/// The files of one extension under a directory: their extension, summed
/// size and number.
pub struct ExtensionTotal {
    pub ext: String,
    pub size: u64,
    pub files: u64,
}

/// A row as plain values: extension, size, number of files.
pub open spec fn row_view(r: ExtensionTotal) -> (Seq<char>, int, int) {
    (r.ext@, r.size as int, r.files as int)
}

/// The rows of `v` as plain values.
pub open spec fn rows_view(v: Seq<ExtensionTotal>) -> Seq<(Seq<char>, int, int)> {
    v.map_values(|r: ExtensionTotal| row_view(r))
}

// ---------------------------------------------------------------------------
// The files under a directory
// ---------------------------------------------------------------------------

/// The files anywhere under `n`, in depth-first order of its listing.
pub open spec fn files_below(n: DirNode) -> Seq<DirNode>
    decreases n, 0int,
{
    files_in_list(n.children, n.children@.len() as int)
}

/// The files in and under the first `k` entries of `v`.
pub open spec fn files_in_list(v: Vec<DirNode>, k: int) -> Seq<DirNode>
    decreases v, k,
{
    if k <= 0 || k > v@.len() {
        Seq::empty()
    } else {
        files_in_list(v, k - 1) + if v@[k - 1].is_dir {
            files_below(v@[k - 1])
        } else {
            seq![v@[k - 1]]
        }
    }
}

// ---------------------------------------------------------------------------
// Grouping by extension
// ---------------------------------------------------------------------------

/// The position of the row for `ext` in `rows`, or -1 when there is none.
pub open spec fn row_index(rows: Seq<(Seq<char>, int, int)>, ext: Seq<char>) -> int
    decreases rows.len(),
{
    if rows.len() == 0 {
        -1
    } else if row_index(rows.drop_last(), ext) >= 0 {
        row_index(rows.drop_last(), ext)
    } else if rows.last().0 == ext {
        rows.len() - 1
    } else {
        -1
    }
}

/// Counts one file of `size` bytes with extension `ext` into `rows`: its
/// row grows, or a new row is added at the end.
pub open spec fn count_file(rows: Seq<(Seq<char>, int, int)>, ext: Seq<char>, size: int) -> Seq<(Seq<char>, int, int)> {
    let i = row_index(rows, ext);
    if i < 0 {
        rows.push((ext, size, 1))
    } else {
        rows.update(i, (ext, rows[i].1 + size, rows[i].2 + 1))
    }
}

/// `rows` with the files of `files` counted in, one after the other.
pub open spec fn count_files(rows: Seq<(Seq<char>, int, int)>, files: Seq<DirNode>) -> Seq<(Seq<char>, int, int)>
    decreases files.len(),
{
    if files.len() == 0 {
        rows
    } else {
        count_file(count_files(rows, files.drop_last()), extension_text(files.last().name@), files.last().size as int)
    }
}

/// The summed sizes of `files`.
pub open spec fn files_size(files: Seq<DirNode>) -> int
    decreases files.len(),
{
    if files.len() == 0 {
        0
    } else {
        files_size(files.drop_last()) + files.last().size
    }
}

/// The summed sizes in `rows`.
pub open spec fn rows_size(rows: Seq<(Seq<char>, int, int)>) -> int
    decreases rows.len(),
{
    if rows.len() == 0 {
        0
    } else {
        rows_size(rows.drop_last()) + rows.last().1
    }
}

/// The summed file counts in `rows`.
pub open spec fn rows_files(rows: Seq<(Seq<char>, int, int)>) -> int
    decreases rows.len(),
{
    if rows.len() == 0 {
        0
    } else {
        rows_files(rows.drop_last()) + rows.last().2
    }
}

proof fn lemma_count_files_append(rows: Seq<(Seq<char>, int, int)>, a: Seq<DirNode>, b: Seq<DirNode>)
    ensures
        count_files(rows, a + b) == count_files(count_files(rows, a), b),
    decreases b.len(),
{
    if b.len() == 0 {
        assert(a + b =~= a);
    } else {
        assert((a + b).drop_last() =~= a + b.drop_last());
        lemma_count_files_append(rows, a, b.drop_last());
    }
}

proof fn lemma_files_size_append(a: Seq<DirNode>, b: Seq<DirNode>)
    ensures
        files_size(a + b) == files_size(a) + files_size(b),
    decreases b.len(),
{
    if b.len() == 0 {
        assert(a + b =~= a);
    } else {
        assert((a + b).drop_last() =~= a + b.drop_last());
        lemma_files_size_append(a, b.drop_last());
    }
}

proof fn lemma_rows_update(rows: Seq<(Seq<char>, int, int)>, i: int, r: (Seq<char>, int, int))
    requires
        0 <= i < rows.len(),
    ensures
        rows_size(rows.update(i, r)) == rows_size(rows) - rows[i].1 + r.1,
        rows_files(rows.update(i, r)) == rows_files(rows) - rows[i].2 + r.2,
    decreases rows.len(),
{
    if i < rows.len() - 1 {
        assert(rows.update(i, r).drop_last() =~= rows.drop_last().update(i, r));
        lemma_rows_update(rows.drop_last(), i, r);
    } else {
        assert(rows.update(i, r).drop_last() =~= rows.drop_last());
    }
}

proof fn lemma_row_index(rows: Seq<(Seq<char>, int, int)>, ext: Seq<char>)
    ensures
        -1 <= row_index(rows, ext) < rows.len(),
        row_index(rows, ext) >= 0 ==> rows[row_index(rows, ext)].0 == ext,
        row_index(rows, ext) < 0 ==> forall|j: int| 0 <= j < rows.len() ==> (#[trigger] rows[j]).0 != ext,
        row_index(rows, ext) >= 0 ==> forall|j: int| 0 <= j < row_index(rows, ext) ==> (#[trigger] rows[j]).0 != ext,
    decreases rows.len(),
{
    if rows.len() > 0 {
        let d = rows.drop_last();
        lemma_row_index(d, ext);
        if row_index(rows, ext) < 0 {
            assert forall|j: int| 0 <= j < rows.len() implies (#[trigger] rows[j]).0 != ext by {
                if j < rows.len() - 1 {
                    assert(rows[j] == d[j]);
                }
            }
        } else {
            assert forall|j: int| 0 <= j < row_index(rows, ext) implies (#[trigger] rows[j]).0 != ext by {
                assert(rows[j] == d[j]);
            }
        }
    }
}

/// Counting a file keeps the row totals equal to the totals of the files.
proof fn lemma_count_file_totals(rows: Seq<(Seq<char>, int, int)>, ext: Seq<char>, size: int)
    ensures
        rows_size(count_file(rows, ext, size)) == rows_size(rows) + size,
        rows_files(count_file(rows, ext, size)) == rows_files(rows) + 1,
{
    lemma_row_index(rows, ext);
    let i = row_index(rows, ext);
    if i < 0 {
        assert(rows.push((ext, size, 1)).drop_last() =~= rows);
    } else {
        lemma_rows_update(rows, i, (ext, rows[i].1 + size, rows[i].2 + 1));
    }
}

/// The rows of a grouping add up to the files grouped.
pub proof fn lemma_count_files_totals(files: Seq<DirNode>)
    ensures
        rows_size(count_files(Seq::empty(), files)) == files_size(files),
        rows_files(count_files(Seq::empty(), files)) == files.len(),
    decreases files.len(),
{
    if files.len() > 0 {
        lemma_count_files_totals(files.drop_last());
        lemma_count_file_totals(
            count_files(Seq::empty(), files.drop_last()),
            extension_text(files.last().name@),
            files.last().size as int,
        );
    }
}

proof fn lemma_rows_nonneg(rows: Seq<(Seq<char>, int, int)>)
    requires
        forall|j: int| 0 <= j < rows.len() ==> (#[trigger] rows[j]).1 >= 0 && rows[j].2 >= 0,
    ensures
        forall|j: int| 0 <= j < rows.len() ==> (#[trigger] rows[j]).1 <= rows_size(rows) && rows[j].2 <= rows_files(rows),
        rows_size(rows) >= 0,
        rows_files(rows) >= 0,
    decreases rows.len(),
{
    if rows.len() > 0 {
        assert forall|j: int| 0 <= j < rows.len() - 1 implies rows[j] == #[trigger] rows.drop_last()[j] by {}
        lemma_rows_nonneg(rows.drop_last());
        assert forall|j: int| 0 <= j < rows.len() implies (#[trigger] rows[j]).1 <= rows_size(rows) && rows[j].2 <= rows_files(rows) by {
            if j < rows.len() - 1 {
                assert(rows[j] == rows.drop_last()[j]);
            }
        }
    }
}

proof fn lemma_count_file_nonneg(rows: Seq<(Seq<char>, int, int)>, ext: Seq<char>, size: int)
    requires
        size >= 0,
        forall|j: int| 0 <= j < rows.len() ==> (#[trigger] rows[j]).1 >= 0 && rows[j].2 >= 0,
    ensures
        forall|j: int| 0 <= j < count_file(rows, ext, size).len() ==> (#[trigger] count_file(rows, ext, size)[j]).1 >= 0
            && count_file(rows, ext, size)[j].2 >= 0,
{
    lemma_row_index(rows, ext);
}

// ---------------------------------------------------------------------------
// Counting in executable code
// ---------------------------------------------------------------------------

fn find_row(rows: &Vec<ExtensionTotal>, ext: &str) -> (r: Option<usize>)
    ensures
        match r {
            Some(i) => i as int == row_index(rows_view(rows@), ext@),
            None => row_index(rows_view(rows@), ext@) < 0,
        },
{
    let ghost v = rows_view(rows@);
    proof {
        lemma_row_index(v, ext@);
    }
    let mut i: usize = 0;
    while i < rows.len()
        invariant
            i <= rows@.len(),
            v == rows_view(rows@),
            forall|j: int| 0 <= j < i ==> (#[trigger] v[j]).0 != ext@,
        decreases rows@.len() - i,
    {
        assert(v[i as int] == row_view(rows@[i as int]));
        if str_eq(rows[i].ext.as_str(), ext) {
            proof {
                lemma_row_index(v, ext@);
                let k = row_index(v, ext@);
                assert(k >= 0);
                if k < i {
                    assert(v[k].0 != ext@);
                }
            }
            return Some(i);
        }
        i = i + 1;
    }
    proof {
        lemma_row_index(v, ext@);
        if row_index(v, ext@) >= 0 {
            assert(v[row_index(v, ext@)].0 == ext@);
        }
    }
    None
}

fn add_file(rows: &mut Vec<ExtensionTotal>, ext: String, size: u64)
    requires
        forall|j: int| 0 <= j < old(rows)@.len() ==> (#[trigger] rows_view(old(rows)@)[j]).1 >= 0 && rows_view(old(rows)@)[j].2 >= 0,
        rows_size(rows_view(old(rows)@)) + size <= u64::MAX,
        rows_files(rows_view(old(rows)@)) + 1 <= u64::MAX,
    ensures
        rows_view(final(rows)@) == count_file(rows_view(old(rows)@), ext@, size as int),
{
    let ghost v = rows_view(rows@);
    proof {
        lemma_rows_nonneg(v);
    }
    match find_row(rows, ext.as_str()) {
        Some(i) => {
            proof {
                lemma_row_index(v, ext@);
                assert(v[i as int] == row_view(rows@[i as int]));
            }
            let row = ExtensionTotal { ext, size: rows[i].size + size, files: rows[i].files + 1 };
            rows.set(i, row);
            proof {
                assert(rows_view(rows@) =~= count_file(v, row.ext@, size as int));
            }
        },
        None => {
            let ghost e = ext@;
            rows.push(ExtensionTotal { ext, size, files: 1 });
            proof {
                assert(rows_view(rows@) =~= count_file(v, e, size as int));
            }
        },
    }
}

proof fn lemma_count_files_totals_from(rows: Seq<(Seq<char>, int, int)>, files: Seq<DirNode>)
    requires
        forall|j: int| 0 <= j < rows.len() ==> (#[trigger] rows[j]).1 >= 0 && rows[j].2 >= 0,
    ensures
        rows_size(count_files(rows, files)) == rows_size(rows) + files_size(files),
        rows_files(count_files(rows, files)) == rows_files(rows) + files.len(),
        forall|j: int| 0 <= j < count_files(rows, files).len() ==> (#[trigger] count_files(rows, files)[j]).1 >= 0
            && count_files(rows, files)[j].2 >= 0,
        files_size(files) >= 0,
    decreases files.len(),
{
    if files.len() > 0 {
        lemma_count_files_totals_from(rows, files.drop_last());
        let prev = count_files(rows, files.drop_last());
        lemma_count_file_totals(prev, extension_text(files.last().name@), files.last().size as int);
        lemma_count_file_nonneg(prev, extension_text(files.last().name@), files.last().size as int);
    }
}

proof fn lemma_files_in_list_step(v: Vec<DirNode>, k: int)
    requires
        0 <= k < v@.len(),
    ensures
        files_in_list(v, k + 1) == files_in_list(v, k) + if v@[k].is_dir { files_below(v@[k]) } else { seq![v@[k]] },
{
}

proof fn lemma_files_in_list_mono(v: Vec<DirNode>, k: int, m: int)
    requires
        0 <= k <= m <= v@.len(),
    ensures
        files_size(files_in_list(v, k)) <= files_size(files_in_list(v, m)),
        files_in_list(v, k).len() <= files_in_list(v, m).len(),
    decreases m,
{
    if k < m {
        lemma_files_in_list_mono(v, k, m - 1);
        lemma_files_in_list_step(v, m - 1);
        let part = if v@[m - 1].is_dir { files_below(v@[m - 1]) } else { seq![v@[m - 1]] };
        lemma_files_size_append(files_in_list(v, m - 1), part);
        lemma_count_files_totals_from(Seq::empty(), part);
    }
}

fn tally(node: &DirNode, rows: &mut Vec<ExtensionTotal>)
    requires
        forall|j: int| 0 <= j < old(rows)@.len() ==> (#[trigger] rows_view(old(rows)@)[j]).1 >= 0 && rows_view(old(rows)@)[j].2 >= 0,
        rows_size(rows_view(old(rows)@)) + files_size(files_below(*node)) <= u64::MAX,
        rows_files(rows_view(old(rows)@)) + files_below(*node).len() <= u64::MAX,
    ensures
        rows_view(final(rows)@) == count_files(rows_view(old(rows)@), files_below(*node)),
    decreases node, 0int,
{
    let ghost v0 = rows_view(rows@);
    let ghost n = node.children@.len() as int;
    let mut k: usize = 0;
    proof {
        lemma_count_files_totals_from(v0, files_below(*node));
    }
    while k < node.children.len()
        invariant
            k <= node.children@.len(),
            n == node.children@.len(),
            files_below(*node) == files_in_list(node.children, n),
            forall|j: int| 0 <= j < v0.len() ==> (#[trigger] v0[j]).1 >= 0 && v0[j].2 >= 0,
            rows_size(v0) + files_size(files_below(*node)) <= u64::MAX,
            rows_files(v0) + files_below(*node).len() <= u64::MAX,
            rows_view(rows@) == count_files(v0, files_in_list(node.children, k as int)),
        decreases node.children@.len() - k,
    {
        let c = &node.children[k];
        let ghost before = rows_view(rows@);
        let ghost prefix = files_in_list(node.children, k as int);
        let ghost part = if c.is_dir { files_below(*c) } else { seq![*c] };
        proof {
            lemma_files_in_list_step(node.children, k as int);
            lemma_files_in_list_mono(node.children, k as int + 1, n);
            lemma_files_size_append(prefix, part);
            lemma_count_files_totals_from(v0, prefix);
            lemma_count_files_totals_from(Seq::empty(), part);
            lemma_count_files_append(v0, prefix, part);
        }
        if c.is_dir {
            tally(c, rows);
        } else {
            let ext = extension_of(c.name.as_str());
            proof {
                assert(part.drop_last() =~= Seq::<DirNode>::empty());
                assert(part.last() == *c);
                assert(count_files(before, Seq::<DirNode>::empty()) == before);
                assert(files_size(Seq::<DirNode>::empty()) == 0);
                assert(count_files(before, part) == count_file(before, extension_text(c.name@), c.size as int));
                assert(files_size(part) == c.size);
            }
            add_file(rows, ext, c.size);
        }
        k = k + 1;
    }
}

// ---------------------------------------------------------------------------
// Ordering rows, largest first
// ---------------------------------------------------------------------------

/// No row is larger than one listed before it.
pub open spec fn largest_first(rows: Seq<(Seq<char>, int, int)>) -> bool {
    forall|i: int, j: int| 0 <= i < j < rows.len() ==> (#[trigger] rows[i]).1 >= (#[trigger] rows[j]).1
}

/// The rows of `rows` whose size is `size`, in order.
pub open spec fn size_class(rows: Seq<(Seq<char>, int, int)>, size: int) -> Seq<(Seq<char>, int, int)> {
    rows.filter(|r: (Seq<char>, int, int)| r.1 == size)
}

/// `r` lists the rows of `s` largest first; rows of equal size keep their
/// order.
pub open spec fn sorted_largest_first_from(r: Seq<(Seq<char>, int, int)>, s: Seq<(Seq<char>, int, int)>) -> bool {
    &&& r.len() == s.len()
    &&& r.to_multiset() == s.to_multiset()
    &&& largest_first(r)
    &&& forall|size: int| #[trigger] size_class(r, size) == size_class(s, size)
}

proof fn lemma_insert_sorted(
    before: Seq<(Seq<char>, int, int)>,
    pre: Seq<(Seq<char>, int, int)>,
    p: int,
    xv: (Seq<char>, int, int),
)
    requires
        sorted_largest_first_from(before, pre),
        0 <= p <= before.len(),
        p > 0 ==> before[p - 1].1 >= xv.1,
        forall|k: int| p <= k < before.len() ==> (#[trigger] before[k]).1 < xv.1,
    ensures
        sorted_largest_first_from(before.insert(p, xv), pre.push(xv)),
{
    let after = before.insert(p, xv);
    let lo = before.subrange(0, p);
    let hi = before.subrange(p, before.len() as int);
    assert(after =~= lo + seq![xv] + hi);
    assert(before =~= lo + hi);
    assert forall|i: int, j: int| 0 <= i < j < after.len() implies (#[trigger] after[i]).1 >= (#[trigger] after[j]).1 by {
        if j < p {
            assert(after[i] == before[i] && after[j] == before[j]);
        } else if j == p {
            assert(after[i] == before[i]);
            if i < p - 1 {
                assert(before[i].1 >= before[p - 1].1);
            }
        } else if i < p {
            assert(after[i] == before[i] && after[j] == before[j - 1]);
        } else if i == p {
            assert(after[j] == before[j - 1]);
        } else {
            assert(after[i] == before[i - 1] && after[j] == before[j - 1]);
        }
    }
    vstd::seq_lib::lemma_multiset_commutative(lo + seq![xv], hi);
    vstd::seq_lib::lemma_multiset_commutative(lo, seq![xv]);
    vstd::seq_lib::lemma_multiset_commutative(lo, hi);
    vstd::seq_lib::to_multiset_build(pre, xv);
    vstd::seq_lib::lemma_multiset_commutative(pre, seq![xv]);
    assert(pre.push(xv) =~= pre + seq![xv]);
    assert(after.to_multiset() =~= pre.push(xv).to_multiset());
    assert forall|size: int| #[trigger] size_class(after, size) == size_class(pre.push(xv), size) by {
        let pr = |r: (Seq<char>, int, int)| r.1 == size;
        vstd::seq::Seq::filter_distributes_over_add(lo + seq![xv], hi, pr);
        vstd::seq::Seq::filter_distributes_over_add(lo, seq![xv], pr);
        vstd::seq::Seq::filter_distributes_over_add(lo, hi, pr);
        pre.lemma_filter_push(xv, pr);
        Seq::<(Seq<char>, int, int)>::empty().lemma_filter_push(xv, pr);
        assert(seq![xv] =~= Seq::<(Seq<char>, int, int)>::empty().push(xv));
        assert(Seq::<(Seq<char>, int, int)>::empty().filter(pr) =~= Seq::<(Seq<char>, int, int)>::empty()) by {
            reveal(Seq::filter);
        }
        if xv.1 == size {
            assert forall|k: int| 0 <= k < hi.len() implies !pr(#[trigger] hi[k]) by {
                assert(hi[k] == before[p + k]);
            }
            hi.lemma_all_neg_filter_empty(pr);
        }
        assert(size_class(before, size) == size_class(pre, size));
    }
}

fn sort_rows(rows: Vec<ExtensionTotal>) -> (out: Vec<ExtensionTotal>)
    ensures
        sorted_largest_first_from(rows_view(out@), rows_view(rows@)),
{
    let ghost orig = rows_view(rows@);
    let ghost n = rows@.len() as int;
    let mut rest = rows;
    let mut out: Vec<ExtensionTotal> = Vec::new();
    proof {
        assert(rows_view(rest@) =~= orig.subrange(0, n));
        assert(rows_view(out@) =~= orig.subrange(0, 0));
    }
    while rest.len() > 0
        invariant
            n == orig.len(),
            rest@.len() <= n,
            rows_view(rest@) == orig.subrange(n - rest@.len(), n),
            sorted_largest_first_from(rows_view(out@), orig.subrange(0, n - rest@.len())),
        decreases rest@.len(),
    {
        let ghost taken = n - rest@.len();
        let ghost before = rows_view(out@);
        let ghost old_rest = rest@;
        assert(sorted_largest_first_from(before, orig.subrange(0, taken)));
        let x = rest.remove(0);
        proof {
            assert(rows_view(old_rest)[0] == row_view(old_rest[0]));
            assert(orig.subrange(taken, n)[0] == orig[taken]);
            assert(row_view(x) == orig[taken]);
            assert forall|i: int| 0 <= i < rest@.len() implies #[trigger] rows_view(rest@)[i] == orig.subrange(taken + 1, n)[i] by {
                assert(rest@[i] == old_rest[i + 1]);
                assert(rows_view(old_rest)[i + 1] == row_view(old_rest[i + 1]));
                assert(orig.subrange(taken, n)[i + 1] == orig[taken + 1 + i]);
            }
            assert(rows_view(rest@) =~= orig.subrange(taken + 1, n));
        }
        let mut p = out.len();
        while p > 0 && out[p - 1].size < x.size
            invariant
                p <= out@.len(),
                before == rows_view(out@),
                forall|k: int| p <= k < out@.len() ==> (#[trigger] before[k]).1 < x.size,
            decreases p,
        {
            assert(before[p - 1] == row_view(out@[p - 1]));
            p = p - 1;
        }
        let ghost xv = row_view(x);
        let ghost old_out = out@;
        out.insert(p, x);
        proof {
            assert forall|i: int| 0 <= i < out@.len() implies #[trigger] rows_view(out@)[i] == before.insert(p as int, xv)[i] by {
                if i < p {
                    assert(out@[i] == old_out[i]);
                } else if i > p {
                    assert(out@[i] == old_out[i - 1]);
                }
            }
            assert(rows_view(out@) =~= before.insert(p as int, xv));
            if p > 0 {
                assert(before[p - 1] == row_view(old_out[p - 1]));
            }
            lemma_insert_sorted(before, orig.subrange(0, taken), p as int, xv);
            assert(orig.subrange(0, taken + 1) =~= orig.subrange(0, taken).push(xv));
        }
    }
    proof {
        assert(orig.subrange(0, n) =~= orig);
    }
    out
}

proof fn lemma_files_size_nonneg(files: Seq<DirNode>)
    ensures
        files_size(files) >= 0,
    decreases files.len(),
{
    if files.len() > 0 {
        lemma_files_size_nonneg(files.drop_last());
    }
}

/// The summed size and number of the files under `n`, each `None` where it
/// does not fit in 64 bits.
fn checked_file_totals(n: &DirNode) -> (r: (Option<u64>, Option<u64>))
    ensures
        r.0 == fitting(files_size(files_below(*n))),
        r.1 == fitting(files_below(*n).len() as int),
    decreases n,
{
    let ghost len = n.children@.len() as int;
    let mut bytes: Option<u64> = Some(0);
    let mut files: Option<u64> = Some(0);
    let mut k: usize = 0;
    while k < n.children.len()
        invariant
            k <= n.children@.len(),
            len == n.children@.len(),
            files_below(*n) == files_in_list(n.children, len),
            bytes == fitting(files_size(files_in_list(n.children, k as int))),
            files == fitting(files_in_list(n.children, k as int).len() as int),
        decreases n.children@.len() - k,
    {
        let c = &n.children[k];
        let ghost prefix = files_in_list(n.children, k as int);
        let ghost part = if c.is_dir { files_below(*c) } else { seq![*c] };
        proof {
            lemma_files_in_list_step(n.children, k as int);
            lemma_files_size_append(prefix, part);
            lemma_files_size_nonneg(prefix);
            lemma_files_size_nonneg(part);
        }
        let (b, f) = if c.is_dir {
            checked_file_totals(c)
        } else {
            proof {
                assert(part.drop_last() =~= Seq::<DirNode>::empty());
                assert(files_size(Seq::<DirNode>::empty()) == 0);
                assert(files_size(part) == c.size);
            }
            (Some(c.size), Some(1u64))
        };
        bytes = match (bytes, b) {
            (Some(x), Some(y)) => x.checked_add(y),
            _ => None,
        };
        files = match (files, f) {
            (Some(x), Some(y)) => x.checked_add(y),
            _ => None,
        };
        k = k + 1;
    }
    (bytes, files)
}

/// Whether the sizes and the number of the files under `n` can be totalled
/// in 64 bits, so that `extension_breakdown` can group them.
pub fn breakdown_fits(n: &DirNode) -> (b: bool)
    ensures
        b == (files_size(files_below(*n)) <= u64::MAX && files_below(*n).len() <= u64::MAX),
{
    proof {
        lemma_files_size_nonneg(files_below(*n));
    }
    let (bytes, files) = checked_file_totals(n);
    bytes.is_some() && files.is_some()
}

/// Rows that follow on from row `i` add up to no more than all the rows.
proof fn lemma_rows_suffix_le(rows: Seq<(Seq<char>, int, int)>, i: int)
    requires
        0 <= i <= rows.len(),
        forall|m: int| 0 <= m < rows.len() ==> (#[trigger] rows[m]).1 >= 0 && rows[m].2 >= 0,
    ensures
        0 <= rows_size(rows.subrange(i, rows.len() as int)) <= rows_size(rows),
        0 <= rows_files(rows.subrange(i, rows.len() as int)) <= rows_files(rows),
    decreases rows.len(),
{
    lemma_rows_prefix_le(rows, 0, 0, rows.len() as int);
    assert(rows.subrange(0, rows.len() as int) =~= rows);
    if i == rows.len() {
        assert(rows.subrange(i, i) =~= Seq::<(Seq<char>, int, int)>::empty());
    } else {
        let d = rows.drop_last();
        lemma_rows_suffix_le(d, i);
        lemma_rows_prefix(rows, i, rows.len() as int);
        assert(rows.subrange(i, rows.len() - 1) =~= d.subrange(i, d.len() as int));
    }
}

impl DirNode {
    /// The files anywhere under this directory grouped by extension: one row
    /// per extension with its summed size and number of files, largest
    /// first, rows of equal size in the order their extension was first met.
    /// The rows add up to the files' total size and number, so every run of
    /// rows to the end also totals within 64 bits.
    pub fn extension_breakdown(&self) -> (rows: Vec<ExtensionTotal>)
        requires
            files_size(files_below(*self)) <= u64::MAX,
            files_below(*self).len() <= u64::MAX,
        ensures
            sorted_largest_first_from(rows_view(rows@), count_files(Seq::empty(), files_below(*self))),
            rows_size(rows_view(rows@)) == files_size(files_below(*self)),
            rows_files(rows_view(rows@)) == files_below(*self).len(),
            forall|top: int|
                0 <= top <= rows@.len() ==> rows_size(#[trigger] rows_view(rows@).subrange(top, rows@.len() as int)) <= u64::MAX
                    && rows_files(rows_view(rows@).subrange(top, rows@.len() as int)) <= u64::MAX,
    {
        let mut rows: Vec<ExtensionTotal> = Vec::new();
        proof {
            assert(rows_view(rows@) =~= Seq::<(Seq<char>, int, int)>::empty());
        }
        tally(self, &mut rows);
        let out = sort_rows(rows);
        proof {
            let v = rows_view(out@);
            lemma_breakdown_totals(v, *self);
            assert forall|m: int| 0 <= m < v.len() implies (#[trigger] v[m]).1 >= 0 && v[m].2 >= 0 by {
                assert(v[m] == row_view(out@[m]));
            }
            assert forall|top: int| 0 <= top <= out@.len() implies rows_size(#[trigger] v.subrange(top, out@.len() as int)) <= u64::MAX
                && rows_files(v.subrange(top, out@.len() as int)) <= u64::MAX by {
                lemma_rows_suffix_le(v, top);
            }
        }
        out
    }
}

proof fn lemma_rows_remove(rows: Seq<(Seq<char>, int, int)>, i: int)
    requires
        0 <= i < rows.len(),
    ensures
        rows_size(rows) == rows_size(rows.remove(i)) + rows[i].1,
        rows_files(rows) == rows_files(rows.remove(i)) + rows[i].2,
    decreases rows.len(),
{
    if i == rows.len() - 1 {
        assert(rows.remove(i) =~= rows.drop_last());
    } else {
        lemma_rows_remove(rows.drop_last(), i);
        assert(rows.remove(i).drop_last() =~= rows.drop_last().remove(i));
        assert(rows.remove(i).last() == rows.last());
    }
}

proof fn lemma_rows_permutation(r: Seq<(Seq<char>, int, int)>, s: Seq<(Seq<char>, int, int)>)
    requires
        r.to_multiset() == s.to_multiset(),
    ensures
        rows_size(r) == rows_size(s),
        rows_files(r) == rows_files(s),
    decreases r.len(),
{
    broadcast use vstd::seq_lib::group_to_multiset_ensures;
    broadcast use vstd::multiset::group_multiset_axioms;
    vstd::seq_lib::to_multiset_len(r);
    vstd::seq_lib::to_multiset_len(s);
    if r.len() > 0 {
        let x = r.last();
        assert(r =~= r.drop_last().push(x));
        assert(s.to_multiset().count(x) > 0);
        assert(s.contains(x));
        let i = choose|i: int| 0 <= i < s.len() && s[i] == x;
        lemma_rows_remove(s, i);
        assert(s.remove(i).to_multiset() =~= r.drop_last().to_multiset());
        lemma_rows_permutation(r.drop_last(), s.remove(i));
    }
}

/// The breakdown accounts for every file below the directory: its rows add
/// up to the files' total size and to their number.
pub proof fn lemma_breakdown_totals(rows: Seq<(Seq<char>, int, int)>, n: DirNode)
    requires
        sorted_largest_first_from(rows, count_files(Seq::empty(), files_below(n))),
    ensures
        rows_size(rows) == files_size(files_below(n)),
        rows_files(rows) == files_below(n).len(),
{
    lemma_count_files_totals(files_below(n));
    lemma_rows_permutation(rows, count_files(Seq::empty(), files_below(n)));
}

/// The number of extensions the legend lists by name.
pub const LEGEND_ROWS: usize = 7;

/// The legend for a breakdown: its first `top` rows, then, when more
/// remain, one row "other" with their summed size and file count.
pub open spec fn legend(rows: Seq<(Seq<char>, int, int)>, top: int) -> Seq<(Seq<char>, int, int)> {
    if rows.len() <= top {
        rows
    } else {
        let rest = rows.subrange(top, rows.len() as int);
        rows.subrange(0, top).push(("other"@, rows_size(rest), rows_files(rest)))
    }
}

proof fn lemma_rows_prefix(rows: Seq<(Seq<char>, int, int)>, i: int, j: int)
    requires
        0 <= i < j <= rows.len(),
    ensures
        rows_size(rows.subrange(i, j)) == rows_size(rows.subrange(i, j - 1)) + rows[j - 1].1,
        rows_files(rows.subrange(i, j)) == rows_files(rows.subrange(i, j - 1)) + rows[j - 1].2,
{
    assert(rows.subrange(i, j).drop_last() =~= rows.subrange(i, j - 1));
}

proof fn lemma_rows_prefix_le(rows: Seq<(Seq<char>, int, int)>, i: int, j: int, k: int)
    requires
        0 <= i <= j <= k <= rows.len(),
        forall|m: int| 0 <= m < rows.len() ==> (#[trigger] rows[m]).1 >= 0 && rows[m].2 >= 0,
    ensures
        0 <= rows_size(rows.subrange(i, j)) <= rows_size(rows.subrange(i, k)),
        0 <= rows_files(rows.subrange(i, j)) <= rows_files(rows.subrange(i, k)),
    decreases k - i,
{
    if j < k {
        lemma_rows_prefix_le(rows, i, j, k - 1);
        lemma_rows_prefix(rows, i, k);
    } else if i < j {
        lemma_rows_prefix_le(rows, i, j - 1, j - 1);
        lemma_rows_prefix(rows, i, j);
    } else {
        assert(rows.subrange(i, j) =~= Seq::<(Seq<char>, int, int)>::empty());
    }
}

/// The legend rows for a breakdown, as the type panel lists them.
pub fn legend_rows(rows: &Vec<ExtensionTotal>, top: usize) -> (legend_out: Vec<ExtensionTotal>)
    requires
        rows@.len() > top ==> rows_size(rows_view(rows@).subrange(top as int, rows@.len() as int)) <= u64::MAX,
        rows@.len() > top ==> rows_files(rows_view(rows@).subrange(top as int, rows@.len() as int)) <= u64::MAX,
    ensures
        rows_view(legend_out@) == legend(rows_view(rows@), top as int),
{
    let ghost v = rows_view(rows@);
    let mut out: Vec<ExtensionTotal> = Vec::new();
    let n = rows.len();
    let head = if n < top { n } else { top };
    let mut i: usize = 0;
    while i < head
        invariant
            i <= head <= n,
            n == rows@.len(),
            v == rows_view(rows@),
            out@.len() == i,
            rows_view(out@) == v.subrange(0, i as int),
        decreases head - i,
    {
        let r = ExtensionTotal { ext: rows[i].ext.clone(), size: rows[i].size, files: rows[i].files };
        let ghost old_out = out@;
        out.push(r);
        proof {
            assert(v[i as int] == row_view(rows@[i as int]));
            assert forall|k: int| 0 <= k < i + 1 implies #[trigger] rows_view(out@)[k] == v.subrange(0, i + 1)[k] by {
                if k < i {
                    assert(out@[k] == old_out[k]);
                    assert(rows_view(old_out)[k] == row_view(old_out[k]));
                    assert(rows_view(old_out)[k] == v.subrange(0, i as int)[k]);
                }
            }
            assert(rows_view(out@) =~= v.subrange(0, i + 1));
        }
        i = i + 1;
    }
    if n <= top {
        proof {
            assert(v.subrange(0, n as int) =~= v);
        }
        return out;
    }
    let ghost rest = v.subrange(top as int, n as int);
    let mut size: u64 = 0;
    let mut files: u64 = 0;
    let mut j = top;
    proof {
        assert forall|m: int| 0 <= m < v.len() implies (#[trigger] v[m]).1 >= 0 && v[m].2 >= 0 by {
            assert(v[m] == row_view(rows@[m]));
        }
        assert(v.subrange(top as int, top as int) =~= Seq::<(Seq<char>, int, int)>::empty());
    }
    while j < n
        invariant
            top <= j <= n,
            n == rows@.len(),
            v == rows_view(rows@),
            forall|m: int| 0 <= m < v.len() ==> (#[trigger] v[m]).1 >= 0 && v[m].2 >= 0,
            rows_size(v.subrange(top as int, n as int)) <= u64::MAX,
            rows_files(v.subrange(top as int, n as int)) <= u64::MAX,
            size == rows_size(v.subrange(top as int, j as int)),
            files == rows_files(v.subrange(top as int, j as int)),
        decreases n - j,
    {
        proof {
            lemma_rows_prefix(v, top as int, j + 1);
            lemma_rows_prefix_le(v, top as int, j + 1, n as int);
            assert(v[j as int] == row_view(rows@[j as int]));
        }
        size = size + rows[j].size;
        files = files + rows[j].files;
        j = j + 1;
    }
    out.push(ExtensionTotal { ext: String::from_str("other"), size, files });
    proof {
        assert(rows_view(out@) =~= legend(v, top as int));
    }
    out
}

} // verus!
