use vstd::prelude::*;

use crate::app::SortMode;
use crate::order::{lex_lt, lemma_lex_irreflexive, lemma_lex_total, lemma_lex_transitive, str_less};
use crate::text::{lowercase, to_lowercase};

verus! {

/// One entry of a scanned directory tree: a file, or a directory together
/// with everything below it.
pub struct DirNode {
    pub name: String,
    pub path: String,
    pub size: u64,
    pub is_dir: bool,
    pub file_count: u64,
    pub readable: bool,
    /// Last modification, in nanoseconds since the Unix epoch.
    pub modified: u128,
    pub children: Vec<DirNode>,
}

// ---------------------------------------------------------------------------
// Ordering of entries
// ---------------------------------------------------------------------------

/// `a` is listed strictly before `b` under `mode`: larger sizes first, names
/// in case-insensitive lexicographic order, most recently modified first.
pub open spec fn precedes(mode: SortMode, a: DirNode, b: DirNode) -> bool {
    match mode {
        SortMode::Size => a.size > b.size,
        SortMode::Name => lex_lt(lowercase(a.name@), lowercase(b.name@)),
        SortMode::Modified => a.modified > b.modified,
    }
}

/// Neither entry goes before the other under `mode`.
pub open spec fn tied(mode: SortMode, a: DirNode, b: DirNode) -> bool {
    !precedes(mode, a, b) && !precedes(mode, b, a)
}

/// No entry is listed after one that should come after it.
pub open spec fn sorted_by(mode: SortMode, s: Seq<DirNode>) -> bool {
    forall|i: int, j: int| 0 <= i < j < s.len() ==> !precedes(mode, #[trigger] s[j], #[trigger] s[i])
}

/// The entries of `s` tied with `x`, in the order they appear in `s`.
pub open spec fn tie_class(mode: SortMode, s: Seq<DirNode>, x: DirNode) -> Seq<DirNode> {
    s.filter(|y: DirNode| tied(mode, x, y))
}

/// `r` is what a stable sort of `s` under `mode` gives: it is sorted, and the
/// entries of each group of tied entries keep the order they had in `s`.
/// This determines `r` from `s` (see `lemma_stable_sort_unique`).
pub open spec fn is_stable_sort(mode: SortMode, r: Seq<DirNode>, s: Seq<DirNode>) -> bool {
    &&& r.len() == s.len()
    &&& r.to_multiset() == s.to_multiset()
    &&& sorted_by(mode, r)
    &&& forall|x: DirNode| #[trigger] tie_class(mode, r, x) == tie_class(mode, s, x)
}

/// The listing order is irreflexive.
pub proof fn lemma_precedes_irreflexive(mode: SortMode, a: DirNode)
    ensures
        !precedes(mode, a, a),
{
    if mode == SortMode::Name {
        lemma_lex_irreflexive(lowercase(a.name@));
    }
}

/// The listing order is transitive.
pub proof fn lemma_precedes_transitive(mode: SortMode, a: DirNode, b: DirNode, c: DirNode)
    requires
        precedes(mode, a, b),
        precedes(mode, b, c),
    ensures
        precedes(mode, a, c),
{
    if mode == SortMode::Name {
        lemma_lex_transitive(lowercase(a.name@), lowercase(b.name@), lowercase(c.name@));
    }
}

/// Whatever lies strictly between two ordered entries is ordered against one
/// of them: the listing order is a strict weak order.
pub proof fn lemma_precedes_split(mode: SortMode, a: DirNode, b: DirNode, c: DirNode)
    requires
        precedes(mode, a, c),
    ensures
        precedes(mode, a, b) || precedes(mode, b, c),
{
    if mode == SortMode::Name {
        let (la, lb, lc) = (lowercase(a.name@), lowercase(b.name@), lowercase(c.name@));
        lemma_lex_total(la, lb);
        if lex_lt(lb, la) {
            lemma_lex_transitive(lb, la, lc);
        }
    }
}

proof fn lemma_sorted_tail(mode: SortMode, r: Seq<DirNode>)
    requires
        r.len() > 0,
        sorted_by(mode, r),
    ensures
        sorted_by(mode, r.drop_first()),
        r == seq![r[0]] + r.drop_first(),
{
    assert(r =~= seq![r[0]] + r.drop_first());
    assert forall|i: int, j: int| 0 <= i < j < r.drop_first().len() implies !precedes(
        mode,
        #[trigger] r.drop_first()[j],
        #[trigger] r.drop_first()[i],
    ) by {
        assert(r.drop_first()[j] == r[j + 1]);
        assert(r.drop_first()[i] == r[i + 1]);
    }
}

/// Some entry of `r` is tied with `x` when the tie class of `x` is not empty.
proof fn lemma_tie_class_member(mode: SortMode, r: Seq<DirNode>, x: DirNode) -> (j: int)
    requires
        tie_class(mode, r, x).len() > 0,
    ensures
        0 <= j < r.len(),
        tied(mode, x, r[j]),
{
    broadcast use vstd::seq_lib::group_filter_ensures;
    let p = |y: DirNode| tied(mode, x, y);
    let z = r.filter(p)[0];
    assert(r.filter(p).contains(z));
    r.lemma_filter_contains_rev(p, z);
    choose|j: int| 0 <= j < r.len() && r[j] == z
}

proof fn lemma_class_of_head(mode: SortMode, r: Seq<DirNode>, x: DirNode)
    requires
        r.len() > 0,
    ensures
        tie_class(mode, r, x) == (if tied(mode, x, r[0]) { seq![r[0]] } else { Seq::<DirNode>::empty() })
            + tie_class(mode, r.drop_first(), x),
{
    assert(r =~= seq![r[0]] + r.drop_first());
    r.drop_first().lemma_filter_prepend(r[0], |z: DirNode| tied(mode, x, z));
}

proof fn lemma_heads_tied(mode: SortMode, r1: Seq<DirNode>, r2: Seq<DirNode>)
    requires
        r1.len() > 0,
        r2.len() > 0,
        sorted_by(mode, r1),
        sorted_by(mode, r2),
        tie_class(mode, r1, r1[0]) == tie_class(mode, r2, r1[0]),
        tie_class(mode, r1, r2[0]) == tie_class(mode, r2, r2[0]),
    ensures
        tied(mode, r1[0], r2[0]),
{
    let x = r1[0];
    let y = r2[0];
    lemma_precedes_irreflexive(mode, x);
    lemma_precedes_irreflexive(mode, y);
    lemma_class_of_head(mode, r1, x);
    lemma_class_of_head(mode, r2, y);
    let j = lemma_tie_class_member(mode, r2, x);
    let k = lemma_tie_class_member(mode, r1, y);
    if precedes(mode, x, y) {
        lemma_precedes_split(mode, x, r2[j], y);
        if j > 0 {
            assert(!precedes(mode, r2[j], r2[0]));
        }
    }
    if precedes(mode, y, x) {
        lemma_precedes_split(mode, y, r1[k], x);
        if k > 0 {
            assert(!precedes(mode, r1[k], r1[0]));
        }
    }
}

proof fn lemma_tail_classes(mode: SortMode, r1: Seq<DirNode>, r2: Seq<DirNode>, z: DirNode)
    requires
        r1.len() > 0,
        r2.len() > 0,
        r1[0] == r2[0],
        tie_class(mode, r1, z) == tie_class(mode, r2, z),
    ensures
        tie_class(mode, r1.drop_first(), z) == tie_class(mode, r2.drop_first(), z),
{
    lemma_class_of_head(mode, r1, z);
    lemma_class_of_head(mode, r2, z);
    let head: Seq<DirNode> = if tied(mode, z, r1[0]) { seq![r1[0]] } else { Seq::empty() };
    let a = tie_class(mode, r1.drop_first(), z);
    let b = tie_class(mode, r2.drop_first(), z);
    assert(a =~= (head + a).subrange(head.len() as int, (head + a).len() as int));
    assert(b =~= (head + b).subrange(head.len() as int, (head + b).len() as int));
}

proof fn lemma_sorted_classes_unique(mode: SortMode, r1: Seq<DirNode>, r2: Seq<DirNode>)
    requires
        r1.len() == r2.len(),
        sorted_by(mode, r1),
        sorted_by(mode, r2),
        forall|x: DirNode| #[trigger] tie_class(mode, r1, x) == tie_class(mode, r2, x),
    ensures
        r1 == r2,
    decreases r1.len(),
{
    if r1.len() == 0 {
        assert(r1 =~= r2);
    } else {
        let x = r1[0];
        let y = r2[0];
        assert(tie_class(mode, r1, x) == tie_class(mode, r2, x));
        assert(tie_class(mode, r1, y) == tie_class(mode, r2, y));
        lemma_heads_tied(mode, r1, r2);
        lemma_precedes_irreflexive(mode, x);
        lemma_class_of_head(mode, r1, x);
        lemma_class_of_head(mode, r2, x);
        assert(tie_class(mode, r1, x)[0] == x);
        assert(tie_class(mode, r2, x)[0] == y);
        lemma_sorted_tail(mode, r1);
        lemma_sorted_tail(mode, r2);
        assert forall|z: DirNode| #[trigger] tie_class(mode, r1.drop_first(), z) == tie_class(mode, r2.drop_first(), z) by {
            assert(tie_class(mode, r1, z) == tie_class(mode, r2, z));
            lemma_tail_classes(mode, r1, r2, z);
        }
        lemma_sorted_classes_unique(mode, r1.drop_first(), r2.drop_first());
    }
}

/// A stable sort has exactly one possible result: two stable sorts of the
/// same entries under the same order are equal.
pub proof fn lemma_stable_sort_unique(mode: SortMode, r1: Seq<DirNode>, r2: Seq<DirNode>, s: Seq<DirNode>)
    requires
        is_stable_sort(mode, r1, s),
        is_stable_sort(mode, r2, s),
    ensures
        r1 == r2,
{
    assert forall|x: DirNode| #[trigger] tie_class(mode, r1, x) == tie_class(mode, r2, x) by {
        assert(tie_class(mode, r1, x) == tie_class(mode, s, x));
        assert(tie_class(mode, r2, x) == tie_class(mode, s, x));
    }
    lemma_sorted_classes_unique(mode, r1, r2);
}

/// Whether `a` is listed strictly before `b` under `mode`.
pub fn precedes_exec(mode: SortMode, a: &DirNode, b: &DirNode) -> (r: bool)
    ensures
        r == precedes(mode, *a, *b),
{
    match mode {
        SortMode::Size => a.size > b.size,
        SortMode::Name => {
            let la = to_lowercase(a.name.as_str());
            let lb = to_lowercase(b.name.as_str());
            str_less(la.as_str(), lb.as_str())
        },
        SortMode::Modified => a.modified > b.modified,
    }
}

/// The entries of `v` in reverse order.
fn reversed(v: Vec<DirNode>) -> (r: Vec<DirNode>)
    ensures
        r@ == v@.reverse(),
{
    let ghost orig = v@;
    let mut v = v;
    let mut r: Vec<DirNode> = Vec::new();
    while v.len() > 0
        invariant
            v.len() <= orig.len(),
            v@ == orig.subrange(0, v.len() as int),
            r@ == orig.subrange(v.len() as int, orig.len() as int).reverse(),
        decreases v.len(),
    {
        let ghost k = v.len() as int;
        let x = v.pop().unwrap();
        r.push(x);
        assert(r@ =~= orig.subrange(k - 1, orig.len() as int).reverse());
    }
    assert(orig.subrange(0, orig.len() as int) =~= orig);
    r
}

proof fn lemma_prepend_suffix(s: Seq<DirNode>, k: int)
    requires
        0 < k <= s.len(),
    ensures
        s.subrange(k - 1, s.len() as int) == seq![s[k - 1]] + s.subrange(k, s.len() as int),
{
    assert(s.subrange(k - 1, s.len() as int) =~= seq![s[k - 1]] + s.subrange(k, s.len() as int));
}

/// When no entry of `s` is tied with `y`, its tie class is empty.
proof fn lemma_tie_class_empty(mode: SortMode, s: Seq<DirNode>, y: DirNode)
    requires
        forall|i: int| 0 <= i < s.len() ==> !tied(mode, y, #[trigger] s[i]),
    ensures
        tie_class(mode, s, y) == Seq::<DirNode>::empty(),
{
    s.lemma_all_neg_filter_empty(|z: DirNode| tied(mode, y, z));
}

/// Merges two sorted sequences; among tied entries those of `l` come first.
fn merge(mode: SortMode, l: Vec<DirNode>, r: Vec<DirNode>) -> (out: Vec<DirNode>)
    requires
        sorted_by(mode, l@),
        sorted_by(mode, r@),
    ensures
        out@.len() == l@.len() + r@.len(),
        out@.to_multiset() == l@.to_multiset().add(r@.to_multiset()),
        sorted_by(mode, out@),
        forall|x: DirNode|
            #[trigger] tie_class(mode, out@, x) == tie_class(mode, l@, x) + tie_class(mode, r@, x),
{
    broadcast use vstd::seq_lib::group_seq_properties;
    let ghost l0 = l@;
    let ghost r0 = r@;
    let mut a = l;
    let mut b = r;
    let mut acc: Vec<DirNode> = Vec::new();
    let ghost mut m: Seq<DirNode> = Seq::empty();
    proof {
        assert(l0.subrange(a.len() as int, l0.len() as int) =~= Seq::<DirNode>::empty());
        assert(r0.subrange(b.len() as int, r0.len() as int) =~= Seq::<DirNode>::empty());
        assert(m.to_multiset() =~= Seq::<DirNode>::empty().to_multiset().add(Seq::<DirNode>::empty().to_multiset()));
        assert forall|x: DirNode|
            #[trigger] tie_class(mode, m, x) == tie_class(mode, l0.subrange(a.len() as int, l0.len() as int), x)
                + tie_class(mode, r0.subrange(b.len() as int, r0.len() as int), x) by {
            assert(l0.subrange(a.len() as int, l0.len() as int) =~= Seq::<DirNode>::empty());
            assert(r0.subrange(b.len() as int, r0.len() as int) =~= Seq::<DirNode>::empty());
            lemma_tie_class_empty(mode, m, x);
            lemma_tie_class_empty(mode, Seq::<DirNode>::empty(), x);
        }
    }
    while a.len() > 0 || b.len() > 0
        invariant
            a.len() <= l0.len(),
            b.len() <= r0.len(),
            a@ == l0.subrange(0, a.len() as int),
            b@ == r0.subrange(0, b.len() as int),
            sorted_by(mode, l0),
            sorted_by(mode, r0),
            m == acc@.reverse(),
            m.len() == (l0.len() - a.len()) + (r0.len() - b.len()),
            m.to_multiset() == l0.subrange(a.len() as int, l0.len() as int).to_multiset().add(
                r0.subrange(b.len() as int, r0.len() as int).to_multiset()),
            sorted_by(mode, m),
            forall|x: DirNode|
                #[trigger] tie_class(mode, m, x) == tie_class(mode, l0.subrange(a.len() as int, l0.len() as int), x)
                    + tie_class(mode, r0.subrange(b.len() as int, r0.len() as int), x),
            // every entry still to be placed comes no later than every placed one
            forall|i: int, k: int| 0 <= i < a.len() && 0 <= k < m.len() ==> !precedes(mode, #[trigger] m[k], #[trigger] l0[i]),
            forall|j: int, k: int| 0 <= j < b.len() && 0 <= k < m.len() ==> !precedes(mode, #[trigger] m[k], #[trigger] r0[j]),
            // every placed entry of `l` comes strictly after every unplaced entry of `r`
            forall|i: int, j: int| a.len() <= i < l0.len() && 0 <= j < b.len() ==> precedes(mode, #[trigger] r0[j], #[trigger] l0[i]),
        decreases a.len() + b.len(),
    {
        let take_left = if a.len() == 0 {
            false
        } else if b.len() == 0 {
            true
        } else {
            precedes_exec(mode, &b[b.len() - 1], &a[a.len() - 1])
        };
        let ghost na = a.len() as int;
        let ghost nb = b.len() as int;
        let ghost old_m = m;
        if take_left {
            let x = a.pop().unwrap();
            proof {
                assert(x == l0[na - 1]);
                m = seq![x] + old_m;
                lemma_prepend_suffix(l0, na);
                vstd::seq_lib::lemma_multiset_commutative(seq![x], old_m);
                vstd::seq_lib::lemma_multiset_commutative(seq![x], l0.subrange(na, l0.len() as int));
                assert(m.to_multiset() =~= l0.subrange(a.len() as int, l0.len() as int).to_multiset().add(
                    r0.subrange(b.len() as int, r0.len() as int).to_multiset()));
                assert forall|i: int, k: int| 0 <= i < a.len() && 0 <= k < m.len() implies !precedes(mode, #[trigger] m[k], #[trigger] l0[i]) by {
                    if k == 0 {
                        assert(m[k] == l0[na - 1]);
                    } else {
                        assert(m[k] == old_m[k - 1]);
                    }
                }
                assert forall|j: int, k: int| 0 <= j < b.len() && 0 <= k < m.len() implies !precedes(mode, #[trigger] m[k], #[trigger] r0[j]) by {
                    if k == 0 {
                        assert(m[k] == x);
                        // x follows the last unplaced entry of r, which follows r0[j]
                        assert(precedes(mode, r0[nb - 1], x));
                        if precedes(mode, x, r0[j]) {
                            lemma_precedes_transitive(mode, r0[nb - 1], x, r0[j]);
                            if j < nb - 1 {
                                assert(!precedes(mode, r0[nb - 1], r0[j]));
                            } else {
                                lemma_precedes_irreflexive(mode, r0[j]);
                            }
                        }
                    } else {
                        assert(m[k] == old_m[k - 1]);
                    }
                }
                assert forall|i: int, j: int| a.len() <= i < l0.len() && 0 <= j < b.len() implies precedes(mode, #[trigger] r0[j], #[trigger] l0[i]) by {
                    if i == na - 1 {
                        assert(precedes(mode, r0[nb - 1], x));
                        lemma_precedes_split(mode, r0[nb - 1], r0[j], x);
                        if j < nb - 1 {
                            assert(!precedes(mode, r0[nb - 1], r0[j]));
                        } else {
                            lemma_precedes_irreflexive(mode, r0[j]);
                        }
                    }
                }
                assert forall|i: int, j: int| 0 <= i < j < m.len() implies !precedes(mode, #[trigger] m[j], #[trigger] m[i]) by {
                    if i == 0 {
                        assert(m[j] == old_m[j - 1]);
                        assert(m[i] == l0[na - 1]);
                    } else {
                        assert(m[i] == old_m[i - 1]);
                        assert(m[j] == old_m[j - 1]);
                    }
                }
                assert forall|y: DirNode|
                    #[trigger] tie_class(mode, m, y) == tie_class(mode, l0.subrange(a.len() as int, l0.len() as int), y)
                        + tie_class(mode, r0.subrange(b.len() as int, r0.len() as int), y) by {
                    let p = |z: DirNode| tied(mode, y, z);
                    old_m.lemma_filter_prepend(x, p);
                    l0.subrange(na, l0.len() as int).lemma_filter_prepend(x, p);
                    assert(tie_class(mode, old_m, y) == tie_class(mode, l0.subrange(na, l0.len() as int), y)
                        + tie_class(mode, r0.subrange(nb, r0.len() as int), y));
                }
            }
            acc.push(x);
            assert(acc@.reverse() =~= m);
        } else {
            let x = b.pop().unwrap();
            proof {
                assert(x == r0[nb - 1]);
                m = seq![x] + old_m;
                lemma_prepend_suffix(r0, nb);
                vstd::seq_lib::lemma_multiset_commutative(seq![x], old_m);
                vstd::seq_lib::lemma_multiset_commutative(seq![x], r0.subrange(nb, r0.len() as int));
                assert(m.to_multiset() =~= l0.subrange(a.len() as int, l0.len() as int).to_multiset().add(
                    r0.subrange(b.len() as int, r0.len() as int).to_multiset()));
                assert forall|j: int, k: int| 0 <= j < b.len() && 0 <= k < m.len() implies !precedes(mode, #[trigger] m[k], #[trigger] r0[j]) by {
                    if k == 0 {
                        assert(m[k] == r0[nb - 1]);
                    } else {
                        assert(m[k] == old_m[k - 1]);
                    }
                }
                assert forall|i: int, k: int| 0 <= i < a.len() && 0 <= k < m.len() implies !precedes(mode, #[trigger] m[k], #[trigger] l0[i]) by {
                    if k == 0 {
                        assert(m[k] == x);
                        assert(!precedes(mode, x, l0[na - 1]));
                        if precedes(mode, x, l0[i]) {
                            lemma_precedes_split(mode, x, l0[na - 1], l0[i]);
                            if i < na - 1 {
                                assert(!precedes(mode, l0[na - 1], l0[i]));
                            } else {
                                lemma_precedes_irreflexive(mode, l0[i]);
                            }
                        }
                    } else {
                        assert(m[k] == old_m[k - 1]);
                    }
                }
                assert forall|i: int, j: int| 0 <= i < j < m.len() implies !precedes(mode, #[trigger] m[j], #[trigger] m[i]) by {
                    if i == 0 {
                        assert(m[j] == old_m[j - 1]);
                        assert(m[i] == r0[nb - 1]);
                    } else {
                        assert(m[i] == old_m[i - 1]);
                        assert(m[j] == old_m[j - 1]);
                    }
                }
                assert forall|y: DirNode|
                    #[trigger] tie_class(mode, m, y) == tie_class(mode, l0.subrange(a.len() as int, l0.len() as int), y)
                        + tie_class(mode, r0.subrange(b.len() as int, r0.len() as int), y) by {
                    let p = |z: DirNode| tied(mode, y, z);
                    let sl = l0.subrange(na, l0.len() as int);
                    let sr = r0.subrange(nb, r0.len() as int);
                    old_m.lemma_filter_prepend(x, p);
                    sr.lemma_filter_prepend(x, p);
                    assert(tie_class(mode, old_m, y) == tie_class(mode, sl, y) + tie_class(mode, sr, y));
                    if tied(mode, y, x) {
                        assert forall|i: int| 0 <= i < sl.len() implies !tied(mode, y, #[trigger] sl[i]) by {
                            assert(sl[i] == l0[na + i]);
                            assert(precedes(mode, r0[nb - 1], l0[na + i]));
                            lemma_precedes_split(mode, x, y, sl[i]);
                        }
                        lemma_tie_class_empty(mode, sl, y);
                    }
                }
            }
            acc.push(x);
            assert(acc@.reverse() =~= m);
        }
    }
    proof {
        assert(l0.subrange(0, l0.len() as int) =~= l0);
        assert(r0.subrange(0, r0.len() as int) =~= r0);
    }
    let out = reversed(acc);
    out
}

/// A stable merge sort of `v` under `mode`.
pub fn merge_sort(mode: SortMode, v: Vec<DirNode>) -> (r: Vec<DirNode>)
    ensures
        is_stable_sort(mode, r@, v@),
    decreases v.len(),
{
    let n = v.len();
    if n <= 1 {
        proof {
            if n == 1 {
                lemma_precedes_irreflexive(mode, v@[0]);
            }
        }
        return v;
    }
    let mut left = v;
    let ghost whole = left@;
    let right = left.split_off(n / 2);
    let sl = merge_sort(mode, left);
    let sr = merge_sort(mode, right);
    let ghost (lv, rv) = (sl@, sr@);
    let out = merge(mode, sl, sr);
    proof {
        let a = whole.subrange(0, (n / 2) as int);
        let b = whole.subrange((n / 2) as int, n as int);
        assert(whole =~= a + b);
        vstd::seq_lib::lemma_multiset_commutative(a, b);
        assert forall|x: DirNode| #[trigger] tie_class(mode, out@, x) == tie_class(mode, whole, x) by {
            vstd::seq::Seq::filter_distributes_over_add(a, b, |y: DirNode| tied(mode, x, y));
            assert(tie_class(mode, lv, x) == tie_class(mode, a, x));
            assert(tie_class(mode, rv, x) == tie_class(mode, b, x));
        }
    }
    out
}

// ---------------------------------------------------------------------------
// Totals over a list of entries
// ---------------------------------------------------------------------------

/// The sum of `f` over the entries of `s`.
pub open spec fn sum_of(s: Seq<DirNode>, f: spec_fn(DirNode) -> int) -> int
    decreases s.len(),
{
    if s.len() == 0 {
        0
    } else {
        sum_of(s.drop_last(), f) + f(s.last())
    }
}

/// What an entry adds to its directory's file count: its own count for a
/// directory, one for a file.
pub open spec fn files_in(n: DirNode) -> int {
    if n.is_dir {
        n.file_count as int
    } else {
        1
    }
}

/// An entry's size, as a measure to sum.
pub open spec fn size_measure() -> spec_fn(DirNode) -> int {
    |n: DirNode| n.size as int
}

/// An entry's file count, as a measure to sum.
pub open spec fn files_measure() -> spec_fn(DirNode) -> int {
    |n: DirNode| files_in(n)
}

/// The summed sizes of the entries of `s`.
pub open spec fn total_size(s: Seq<DirNode>) -> int {
    sum_of(s, size_measure())
}

/// The summed file counts of the entries of `s`.
pub open spec fn total_files(s: Seq<DirNode>) -> int {
    sum_of(s, files_measure())
}

/// The latest modification time among the entries of `s` (zero when empty).
pub open spec fn latest_of(s: Seq<DirNode>) -> u128
    decreases s.len(),
{
    if s.len() == 0 {
        0
    } else {
        let rest = latest_of(s.drop_last());
        if s.last().modified > rest {
            s.last().modified
        } else {
            rest
        }
    }
}

proof fn lemma_sum_of_remove(s: Seq<DirNode>, i: int, f: spec_fn(DirNode) -> int)
    requires
        0 <= i < s.len(),
    ensures
        sum_of(s, f) == sum_of(s.remove(i), f) + f(s[i]),
    decreases s.len(),
{
    if i == s.len() - 1 {
        assert(s.remove(i) =~= s.drop_last());
    } else {
        lemma_sum_of_remove(s.drop_last(), i, f);
        assert(s.remove(i).drop_last() =~= s.drop_last().remove(i));
        assert(s.remove(i).last() == s.last());
    }
}

proof fn lemma_latest_of_remove(s: Seq<DirNode>, i: int)
    requires
        0 <= i < s.len(),
    ensures
        latest_of(s) == (if s[i].modified > latest_of(s.remove(i)) { s[i].modified } else { latest_of(s.remove(i)) }),
    decreases s.len(),
{
    if i == s.len() - 1 {
        assert(s.remove(i) =~= s.drop_last());
    } else {
        lemma_latest_of_remove(s.drop_last(), i);
        assert(s.remove(i).drop_last() =~= s.drop_last().remove(i));
        assert(s.remove(i).last() == s.last());
    }
}

/// Sums do not depend on the order of the entries.
pub proof fn lemma_sum_of_permutation(s: Seq<DirNode>, t: Seq<DirNode>, f: spec_fn(DirNode) -> int)
    requires
        s.to_multiset() == t.to_multiset(),
    ensures
        sum_of(s, f) == sum_of(t, f),
    decreases s.len(),
{
    broadcast use vstd::seq_lib::group_to_multiset_ensures;
    broadcast use vstd::multiset::group_multiset_axioms;
    vstd::seq_lib::to_multiset_len(s);
    vstd::seq_lib::to_multiset_len(t);
    if s.len() > 0 {
        let x = s.last();
        assert(s =~= s.drop_last().push(x));
        assert(t.to_multiset().count(x) > 0);
        assert(t.contains(x));
        let i = choose|i: int| 0 <= i < t.len() && t[i] == x;
        lemma_sum_of_remove(t, i, f);
        assert(t.remove(i).to_multiset() =~= s.drop_last().to_multiset());
        lemma_sum_of_permutation(s.drop_last(), t.remove(i), f);
    }
}

/// The latest modification time does not depend on the order of the entries.
pub proof fn lemma_latest_of_permutation(s: Seq<DirNode>, t: Seq<DirNode>)
    requires
        s.to_multiset() == t.to_multiset(),
    ensures
        latest_of(s) == latest_of(t),
    decreases s.len(),
{
    broadcast use vstd::seq_lib::group_to_multiset_ensures;
    broadcast use vstd::multiset::group_multiset_axioms;
    vstd::seq_lib::to_multiset_len(s);
    vstd::seq_lib::to_multiset_len(t);
    if s.len() > 0 {
        let x = s.last();
        assert(s =~= s.drop_last().push(x));
        assert(t.to_multiset().count(x) > 0);
        assert(t.contains(x));
        let i = choose|i: int| 0 <= i < t.len() && t[i] == x;
        lemma_latest_of_remove(t, i);
        assert(t.remove(i).to_multiset() =~= s.drop_last().to_multiset());
        lemma_latest_of_permutation(s.drop_last(), t.remove(i));
    }
}

proof fn lemma_sum_of_prefix(s: Seq<DirNode>, i: int, f: spec_fn(DirNode) -> int)
    requires
        0 <= i < s.len(),
    ensures
        sum_of(s.subrange(0, i + 1), f) == sum_of(s.subrange(0, i), f) + f(s[i]),
{
    assert(s.subrange(0, i + 1).drop_last() =~= s.subrange(0, i));
}

proof fn lemma_sum_of_prefix_le(s: Seq<DirNode>, i: int, f: spec_fn(DirNode) -> int)
    requires
        0 <= i <= s.len(),
        forall|x: DirNode| #[trigger] f(x) >= 0,
    ensures
        0 <= sum_of(s.subrange(0, i), f) <= sum_of(s, f),
    decreases s.len(),
{
    if i == s.len() {
        assert(s.subrange(0, i) =~= s);
        if s.len() > 0 {
            lemma_sum_of_prefix_le(s.drop_last(), i - 1, f);
            assert(s.drop_last().subrange(0, i - 1) =~= s.drop_last());
        }
    } else {
        lemma_sum_of_prefix_le(s.drop_last(), i, f);
        assert(s.drop_last().subrange(0, i) =~= s.subrange(0, i));
    }
}

proof fn lemma_latest_of_prefix(s: Seq<DirNode>, i: int)
    requires
        0 <= i < s.len(),
    ensures
        latest_of(s.subrange(0, i + 1)) == (if s[i].modified > latest_of(s.subrange(0, i)) { s[i].modified } else { latest_of(s.subrange(0, i)) }),
{
    assert(s.subrange(0, i + 1).drop_last() =~= s.subrange(0, i));
}

/// The larger of two times.
pub open spec fn later(a: u128, b: u128) -> u128 {
    if a > b { a } else { b }
}

/// `later` is the later of its two times.
pub proof fn lemma_later_is_max(a: u128, b: u128)
    ensures
        later(a, b) >= a,
        later(a, b) >= b,
        later(a, b) == a || later(a, b) == b,
{
}

/// The latest time of some entries is no earlier than any of theirs, is one
/// of theirs when there are any, and is zero when there are none.
pub proof fn lemma_latest_of_is_max(s: Seq<DirNode>)
    ensures
        forall|i: int| 0 <= i < s.len() ==> latest_of(s) >= (#[trigger] s[i]).modified,
        s.len() == 0 ==> latest_of(s) == 0,
        s.len() > 0 ==> exists|i: int| 0 <= i < s.len() && latest_of(s) == (#[trigger] s[i]).modified,
    decreases s.len(),
{
    if s.len() > 0 {
        let d = s.drop_last();
        lemma_latest_of_is_max(d);
        assert forall|i: int| 0 <= i < s.len() implies latest_of(s) >= (#[trigger] s[i]).modified by {
            if i < d.len() {
                assert(s[i] == d[i]);
            }
        }
        if s.last().modified > latest_of(d) {
            assert(latest_of(s) == s[s.len() - 1].modified);
        } else if d.len() > 0 {
            let j = choose|j: int| 0 <= j < d.len() && latest_of(d) == (#[trigger] d[j]).modified;
            assert(s[j] == d[j]);
        } else {
            assert(latest_of(s) == s[s.len() - 1].modified);
        }
    }
}

/// A directory's modification time (`later(own, latest_of(entries))`) is no
/// earlier than its own reported time or any entry's, and is one of them.
pub proof fn lemma_directory_time(own: u128, entries: Seq<DirNode>)
    ensures
        later(own, latest_of(entries)) >= own,
        forall|i: int| 0 <= i < entries.len() ==> later(own, latest_of(entries)) >= (#[trigger] entries[i]).modified,
        later(own, latest_of(entries)) == own || exists|i: int|
            0 <= i < entries.len() && later(own, latest_of(entries)) == (#[trigger] entries[i]).modified,
{
    lemma_later_is_max(own, latest_of(entries));
    lemma_latest_of_is_max(entries);
}

/// The entries of `a` and `b` agree on everything but their children.
pub open spec fn same_entry(a: DirNode, b: DirNode) -> bool {
    &&& a.name == b.name
    &&& a.path == b.path
    &&& a.size == b.size
    &&& a.is_dir == b.is_dir
    &&& a.file_count == b.file_count
    &&& a.readable == b.readable
    &&& a.modified == b.modified
}

impl DirNode {
    /// A file of `size` bytes.
    pub fn file(name: String, path: String, size: u64, modified: u128) -> (d: DirNode)
        ensures
            d.name == name,
            d.path == path,
            d.size == size,
            !d.is_dir,
            d.file_count == 1,
            d.readable,
            d.modified == modified,
            d.children@.len() == 0,
    {
        DirNode { name, path, size, is_dir: false, file_count: 1, readable: true, modified, children: Vec::new() }
    }

    /// A directory whose entries could not be listed: it counts for nothing.
    pub fn unreadable_directory(name: String, path: String, modified: u128) -> (d: DirNode)
        ensures
            d.name == name,
            d.path == path,
            d.size == 0,
            d.is_dir,
            d.file_count == 0,
            !d.readable,
            d.modified == modified,
            d.children@.len() == 0,
    {
        DirNode { name, path, size: 0, is_dir: true, file_count: 0, readable: false, modified, children: Vec::new() }
    }

    /// A listed directory holding `children`: its size and file count are
    /// the totals over its entries, its modification time the latest of its
    /// own and its entries', and its entries are listed largest first (ties
    /// keep their order).
    pub fn directory(name: String, path: String, own_modified: u128, children: Vec<DirNode>) -> (d: DirNode)
        requires
            total_size(children@) <= u64::MAX,
            total_files(children@) <= u64::MAX,
        ensures
            d.name == name,
            d.path == path,
            d.is_dir,
            d.readable,
            d.size == total_size(children@),
            d.file_count == total_files(children@),
            d.modified == later(own_modified, latest_of(children@)),
            is_stable_sort(SortMode::Size, d.children@, children@),
            d.size == total_size(d.children@),
            d.file_count == total_files(d.children@),
            d.modified == later(own_modified, latest_of(d.children@)),
    {
        let ghost fs = size_measure();
        let ghost ff = files_measure();
        proof {
            assert forall|x: DirNode| #[trigger] fs(x) >= 0 by {}
            assert forall|x: DirNode| #[trigger] ff(x) >= 0 by {}
        }
        let mut size: u64 = 0;
        let mut file_count: u64 = 0;
        let mut latest: u128 = 0;
        let mut i: usize = 0;
        while i < children.len()
            invariant
                i <= children.len(),
                total_size(children@) <= u64::MAX,
                total_files(children@) <= u64::MAX,
                fs == size_measure(),
                ff == files_measure(),
                forall|x: DirNode| #[trigger] fs(x) >= 0,
                forall|x: DirNode| #[trigger] ff(x) >= 0,
                size == sum_of(children@.subrange(0, i as int), fs),
                file_count == sum_of(children@.subrange(0, i as int), ff),
                latest == latest_of(children@.subrange(0, i as int)),
            decreases children.len() - i,
        {
            proof {
                lemma_sum_of_prefix(children@, i as int, fs);
                lemma_sum_of_prefix(children@, i as int, ff);
                lemma_sum_of_prefix_le(children@, i as int + 1, fs);
                lemma_sum_of_prefix_le(children@, i as int + 1, ff);
                lemma_latest_of_prefix(children@, i as int);
                assert(fs(children@[i as int]) == children@[i as int].size as int);
                assert(ff(children@[i as int]) == files_in(children@[i as int]));
                assert(sum_of(children@.subrange(0, i as int + 1), fs) <= u64::MAX);
                assert(sum_of(children@.subrange(0, i as int + 1), ff) <= u64::MAX);
            }
            let c = &children[i];
            size = size + c.size;
            file_count = file_count + if c.is_dir { c.file_count } else { 1 };
            if c.modified > latest {
                latest = c.modified;
            }
            i = i + 1;
        }
        proof {
            assert(children@.subrange(0, i as int) =~= children@);
        }
        let modified = if latest > own_modified { latest } else { own_modified };
        let ghost before = children@;
        let sorted = merge_sort(SortMode::Size, children);
        proof {
            lemma_sum_of_permutation(before, sorted@, fs);
            lemma_sum_of_permutation(before, sorted@, ff);
            lemma_latest_of_permutation(before, sorted@);
        }
        DirNode { name, path, size, is_dir: true, file_count, readable: true, modified, children: sorted }
    }

    /// Re-lists the entries under `mode`, stably; nothing else changes.
    pub fn sort_children(&mut self, mode: SortMode)
        ensures
            same_entry(*final(self), *old(self)),
            is_stable_sort(mode, final(self).children@, old(self).children@),
    {
        let mut taken: Vec<DirNode> = Vec::new();
        std::mem::swap(&mut taken, &mut self.children);
        let sorted = merge_sort(mode, taken);
        self.children = sorted;
    }

    /// Lists the entries largest first; entries of equal size keep their order.
    pub fn sort_by_size(&mut self)
        ensures
            same_entry(*final(self), *old(self)),
            is_stable_sort(SortMode::Size, final(self).children@, old(self).children@),
    {
        self.sort_children(SortMode::Size);
    }

    /// Lists the entries by name, ignoring case; entries whose lowercased
    /// names are equal keep their order.
    pub fn sort_by_name(&mut self)
        ensures
            same_entry(*final(self), *old(self)),
            is_stable_sort(SortMode::Name, final(self).children@, old(self).children@),
    {
        self.sort_children(SortMode::Name);
    }

    /// Lists the most recently modified entries first; entries modified at
    /// the same time keep their order.
    pub fn sort_by_modified(&mut self)
        ensures
            same_entry(*final(self), *old(self)),
            is_stable_sort(SortMode::Modified, final(self).children@, old(self).children@),
    {
        self.sort_children(SortMode::Modified);
    }
}

// ---------------------------------------------------------------------------
// Building a tree from what the file system reported
// ---------------------------------------------------------------------------

/// What the file system reported for one path, before any of it is
/// interpreted. When `symlink_metadata` fails the caller reports no link, a
/// length of zero and the epoch as modification time.
pub struct FsEntry {
    pub name: String,
    pub path: String,
    /// `symlink_metadata` reported a symbolic link.
    pub is_symlink: bool,
    /// The path resolves to a directory (links followed).
    pub is_dir: bool,
    /// The length `symlink_metadata` reported.
    pub len: u64,
    /// The modification time `symlink_metadata` reported, in nanoseconds
    /// since the Unix epoch.
    pub modified: u128,
    /// For a directory that is not a link: its entries when it could be
    /// listed, `None` when it could not.
    pub listing: Option<Vec<FsEntry>>,
}

/// Entries scanned as directories: those that resolve to one and are not
/// links. Links to directories are never followed.
pub open spec fn is_directory(e: FsEntry) -> bool {
    !e.is_symlink && e.is_dir
}

/// The total size a scan of `e` reports.
pub open spec fn scanned_size(e: FsEntry) -> int
    decreases e, 0int,
{
    if !is_directory(e) {
        e.len as int
    } else {
        match e.listing {
            None => 0,
            Some(l) => listed_size(l, l@.len() as int),
        }
    }
}

/// The summed scanned sizes of the first `n` entries of a listing.
pub open spec fn listed_size(l: Vec<FsEntry>, n: int) -> int
    decreases l, n,
{
    if n <= 0 || n > l@.len() {
        0
    } else {
        listed_size(l, n - 1) + scanned_size(l@[n - 1])
    }
}

/// The number of files a scan of `e` counts (one for a file).
pub open spec fn scanned_files(e: FsEntry) -> int
    decreases e, 0int,
{
    if !is_directory(e) {
        1
    } else {
        match e.listing {
            None => 0,
            Some(l) => listed_files(l, l@.len() as int),
        }
    }
}

/// The summed file counts of the first `n` entries of a listing.
pub open spec fn listed_files(l: Vec<FsEntry>, n: int) -> int
    decreases l, n,
{
    if n <= 0 || n > l@.len() {
        0
    } else {
        listed_files(l, n - 1) + scanned_files(l@[n - 1])
    }
}

/// `d` is the scan of `e`: a link or a non-directory is a file of the
/// reported length; a directory that could not be listed is an unreadable,
/// empty directory; a listed directory holds the scans of its entries,
/// largest first (ties in listing order), and its size, file count and
/// modification time are the totals over them.
pub open spec fn scans_to(e: FsEntry, d: DirNode) -> bool
    decreases e,
{
    &&& d.name@ == e.name@
    &&& d.path@ == e.path@
    &&& if !is_directory(e) {
        &&& !d.is_dir
        &&& d.readable
        &&& d.size == e.len
        &&& d.file_count == 1
        &&& d.modified == e.modified
        &&& d.children@.len() == 0
    } else {
        match e.listing {
            None => {
                &&& d.is_dir
                &&& !d.readable
                &&& d.size == 0
                &&& d.file_count == 0
                &&& d.modified == e.modified
                &&& d.children@.len() == 0
            },
            Some(l) => {
                &&& d.is_dir
                &&& d.readable
                &&& d.size == total_size(d.children@)
                &&& d.file_count == total_files(d.children@)
                &&& d.modified == later(e.modified, latest_of(d.children@))
                &&& exists|c: Seq<DirNode>|
                    {
                        &&& c.len() == l@.len()
                        &&& (forall|i: int| 0 <= i < c.len() ==> scans_to(#[trigger] l@[i], c[i]))
                        &&& is_stable_sort(SortMode::Size, d.children@, c)
                    }
            },
        }
    }
}

proof fn lemma_listed_nonneg(l: Vec<FsEntry>, n: int)
    requires
        0 <= n <= l@.len(),
    ensures
        listed_size(l, n) >= 0,
        listed_files(l, n) >= 0,
        forall|i: int| 0 <= i < n ==> 0 <= #[trigger] scanned_size(l@[i]) <= listed_size(l, n),
        forall|i: int| 0 <= i < n ==> 0 <= #[trigger] scanned_files(l@[i]) <= listed_files(l, n),
    decreases l, n,
{
    if n > 0 {
        lemma_listed_nonneg(l, n - 1);
        lemma_scanned_nonneg(l@[n - 1]);
    }
}

proof fn lemma_scanned_nonneg(e: FsEntry)
    ensures
        scanned_size(e) >= 0,
        scanned_files(e) >= 0,
    decreases e, 0int,
{
    if is_directory(e) {
        if let Some(l) = e.listing {
            lemma_listed_nonneg(l, l@.len() as int);
        }
    }
}

proof fn lemma_listed_mono(l: Vec<FsEntry>, n: int, m: int)
    requires
        0 <= n <= m <= l@.len(),
    ensures
        listed_size(l, n) <= listed_size(l, m),
        listed_files(l, n) <= listed_files(l, m),
    decreases m,
{
    if n < m {
        lemma_listed_mono(l, n, m - 1);
        lemma_scanned_nonneg(l@[m - 1]);
    }
}

/// `t` as a 64-bit count, or `None` where it does not fit.
pub open spec fn fitting(t: int) -> Option<u64> {
    if 0 <= t <= u64::MAX {
        Some(t as u64)
    } else {
        None
    }
}

/// The size and file count a scan of `e` reports, each `None` where it does
/// not fit in 64 bits.
fn checked_totals(e: &FsEntry) -> (r: (Option<u64>, Option<u64>))
    ensures
        r.0 == fitting(scanned_size(*e)),
        r.1 == fitting(scanned_files(*e)),
    decreases e,
{
    proof {
        lemma_scanned_nonneg(*e);
    }
    if e.is_symlink || !e.is_dir {
        return (Some(e.len), Some(1));
    }
    match &e.listing {
        None => (Some(0), Some(0)),
        Some(list) => {
            let mut bytes: Option<u64> = Some(0);
            let mut files: Option<u64> = Some(0);
            let mut i: usize = 0;
            while i < list.len()
                invariant
                    i <= list.len(),
                    e.listing == Some(*list),
                    bytes == fitting(listed_size(*list, i as int)),
                    files == fitting(listed_files(*list, i as int)),
                decreases list.len() - i,
            {
                proof {
                    lemma_listed_nonneg(*list, i as int);
                    lemma_scanned_nonneg(list@[i as int]);
                    assert(decreases_to!(*e => e.listing));
                    assert(decreases_to!(e.listing => e.listing->0));
                    assert(decreases_to!(*list => list@));
                    assert(decreases_to!(list@ => list@[i as int]));
                    assert(decreases_to!(*e => list@[i as int]));
                }
                let (b, f) = checked_totals(&list[i]);
                bytes = match (bytes, b) {
                    (Some(x), Some(y)) => x.checked_add(y),
                    _ => None,
                };
                files = match (files, f) {
                    (Some(x), Some(y)) => x.checked_add(y),
                    _ => None,
                };
                i = i + 1;
            }
            (bytes, files)
        },
    }
}

/// Whether the totals of a scan of `e` fit in 64 bits, so that
/// `DirNode::scan` can build its tree.
pub fn scan_fits(e: &FsEntry) -> (b: bool)
    ensures
        b == (scanned_size(*e) <= u64::MAX && scanned_files(*e) <= u64::MAX),
{
    proof {
        lemma_scanned_nonneg(*e);
    }
    let (bytes, files) = checked_totals(e);
    bytes.is_some() && files.is_some()
}

impl DirNode {
    /// Builds the tree for what the file system reported about a path (see
    /// `scans_to`). Its size and file count are those of the whole subtree.
    pub fn scan(entry: &FsEntry) -> (d: DirNode)
        requires
            scanned_size(*entry) <= u64::MAX,
            scanned_files(*entry) <= u64::MAX,
        ensures
            scans_to(*entry, d),
            d.size == scanned_size(*entry),
            files_in(d) == scanned_files(*entry),
        decreases entry,
    {
        let name = entry.name.clone();
        let path = entry.path.clone();
        let is_dir = !entry.is_symlink && entry.is_dir;
        if !is_dir {
            return DirNode::file(name, path, entry.len, entry.modified);
        }
        match &entry.listing {
            None => DirNode::unreadable_directory(name, path, entry.modified),
            Some(list) => {
                proof {
                    lemma_listed_nonneg(*list, list@.len() as int);
                }
                let mut children: Vec<DirNode> = Vec::new();
                let mut i: usize = 0;
                while i < list.len()
                    invariant
                        i <= list.len(),
                        entry.listing == Some(*list),
                        is_directory(*entry),
                        scanned_size(*entry) <= u64::MAX,
                        scanned_files(*entry) <= u64::MAX,
                        scanned_size(*entry) == listed_size(*list, list@.len() as int),
                        scanned_files(*entry) == listed_files(*list, list@.len() as int),
                        forall|k: int| 0 <= k < list.len() ==> 0 <= #[trigger] scanned_size(list@[k]) <= scanned_size(*entry),
                        forall|k: int| 0 <= k < list.len() ==> 0 <= #[trigger] scanned_files(list@[k]) <= scanned_files(*entry),
                        children@.len() == i,
                        forall|k: int| 0 <= k < i ==> scans_to(#[trigger] list@[k], children@[k]),
                        forall|k: int| 0 <= k < i ==> (#[trigger] children@[k]).size == scanned_size(list@[k]),
                        forall|k: int| 0 <= k < i ==> files_in(#[trigger] children@[k]) == scanned_files(list@[k]),
                        total_size(children@) == listed_size(*list, i as int),
                        total_files(children@) == listed_files(*list, i as int),
                        listed_size(*list, i as int) <= scanned_size(*entry),
                        listed_files(*list, i as int) <= scanned_files(*entry),
                    decreases list.len() - i,
                {
                    let child = DirNode::scan(&list[i]);
                    let ghost before = children@;
                    children.push(child);
                    proof {
                        assert(children@.drop_last() == before);
                        lemma_listed_nonneg(*list, i as int + 1);
                        lemma_listed_mono(*list, i as int + 1, list@.len() as int);
                    }
                    i = i + 1;
                }
                let ghost c = children@;
                let d = DirNode::directory(name, path, entry.modified, children);
                proof {
                    assert(forall|k: int| 0 <= k < c.len() ==> scans_to(#[trigger] list@[k], c[k]));
                }
                d
            },
        }
    }
}

// ---------------------------------------------------------------------------
// Paths into a tree
// ---------------------------------------------------------------------------

/// The node reached from `n` by following the child indices in `path`
/// (an index out of range stops the descent).
pub open spec fn node_at(n: DirNode, path: Seq<usize>) -> DirNode
    decreases path.len(),
{
    if path.len() == 0 {
        n
    } else {
        let parent = node_at(n, path.drop_last());
        if (path.last() as int) < parent.children@.len() {
            parent.children@[path.last() as int]
        } else {
            parent
        }
    }
}

/// Every index of `path` names an entry of the node reached so far.
pub open spec fn path_ok(n: DirNode, path: Seq<usize>) -> bool
    decreases path.len(),
{
    path.len() == 0 || (path_ok(n, path.drop_last()) && (path.last() as int) < node_at(n, path.drop_last()).children@.len())
}

/// A valid path stays valid when cut short.
pub proof fn lemma_path_ok_prefix(n: DirNode, path: Seq<usize>, k: int)
    requires
        path_ok(n, path),
        0 <= k <= path.len(),
    ensures
        path_ok(n, path.take(k)),
    decreases path.len(),
{
    if k == path.len() {
        assert(path.take(k) =~= path);
    } else {
        lemma_path_ok_prefix(n, path.drop_last(), k);
        assert(path.drop_last().take(k) =~= path.take(k));
    }
}

/// Following a path is following its first step, then the rest.
pub proof fn lemma_node_at_first(n: DirNode, path: Seq<usize>)
    requires
        path.len() > 0,
        (path[0] as int) < n.children@.len(),
    ensures
        node_at(n, path) == node_at(n.children@[path[0] as int], path.drop_first()),
        path_ok(n, path) == path_ok(n.children@[path[0] as int], path.drop_first()),
    decreases path.len(),
{
    let c = n.children@[path[0] as int];
    if path.len() == 1 {
        assert(path.drop_last() =~= Seq::<usize>::empty());
        assert(path.drop_first() =~= Seq::<usize>::empty());
        assert(node_at(n, path.drop_last()) == n);
        assert(node_at(c, path.drop_first()) == c);
        assert(path_ok(n, path.drop_last()));
    } else {
        assert(path.drop_last()[0] == path[0]);
        lemma_node_at_first(n, path.drop_last());
        assert(path.drop_last().drop_first() =~= path.drop_first().drop_last());
        assert(path.drop_first().last() == path.last());
        assert(node_at(c, path.drop_first()) == {
            let parent = node_at(c, path.drop_first().drop_last());
            if (path.last() as int) < parent.children@.len() {
                parent.children@[path.last() as int]
            } else {
                parent
            }
        });
    }
}

/// `b` equals `a` except possibly inside the node at `path`, which keeps its
/// place: all other nodes and all entries along the way are unchanged.
pub open spec fn agree_off_path(a: DirNode, b: DirNode, path: Seq<usize>) -> bool
    decreases path.len(),
{
    if path.len() == 0 {
        true
    } else {
        &&& same_entry(b, a)
        &&& b.children@.len() == a.children@.len()
        &&& (path[0] as int) < a.children@.len()
        &&& forall|i: int| 0 <= i < a.children@.len() && i != path[0] ==> b.children@[i] == a.children@[i]
        &&& agree_off_path(a.children@[path[0] as int], b.children@[path[0] as int], path.drop_first())
    }
}

/// A change confined to the node at a valid path keeps the path valid.
pub proof fn lemma_agree_off_path_keeps_path(a: DirNode, b: DirNode, path: Seq<usize>)
    requires
        agree_off_path(a, b, path),
    ensures
        path_ok(a, path) == path_ok(b, path),
    decreases path.len(),
{
    if path.len() > 0 {
        lemma_node_at_first(a, path);
        lemma_node_at_first(b, path);
        lemma_agree_off_path_keeps_path(a.children@[path[0] as int], b.children@[path[0] as int], path.drop_first());
    }
}

/// Every entry that `path` reaches, step by step, is a directory.
pub open spec fn dirs_along(n: DirNode, path: Seq<usize>) -> bool {
    forall|k: int| 0 < k <= path.len() ==> (#[trigger] node_at(n, path.take(k))).is_dir
}

/// A change confined to the node at a valid path keeps the entries of the
/// nodes passed on the way there.
pub proof fn lemma_agree_off_path_entries(a: DirNode, b: DirNode, path: Seq<usize>, k: int)
    requires
        agree_off_path(a, b, path),
        path_ok(a, path),
        0 <= k < path.len(),
    ensures
        same_entry(node_at(b, path.take(k)), node_at(a, path.take(k))),
    decreases path.len(),
{
    if k == 0 {
        assert(path.take(0) =~= Seq::<usize>::empty());
    } else {
        let t = path.take(k);
        assert(t[0] == path[0]);
        lemma_node_at_first(a, t);
        lemma_node_at_first(b, t);
        lemma_node_at_first(a, path);
        assert(t.drop_first() =~= path.drop_first().take(k - 1));
        lemma_agree_off_path_entries(
            a.children@[path[0] as int],
            b.children@[path[0] as int],
            path.drop_first(),
            k - 1,
        );
    }
}

impl DirNode {
    /// Re-lists, under `mode`, the entries of the node reached by
    /// `path[k..]`; nothing else in the tree changes.
    pub fn sort_at(&mut self, path: &Vec<usize>, k: usize, mode: SortMode)
        requires
            k <= path.len(),
            path_ok(*old(self), path@.subrange(k as int, path.len() as int)),
        ensures
            agree_off_path(*old(self), *final(self), path@.subrange(k as int, path.len() as int)),
            same_entry(
                node_at(*final(self), path@.subrange(k as int, path.len() as int)),
                node_at(*old(self), path@.subrange(k as int, path.len() as int)),
            ),
            is_stable_sort(
                mode,
                node_at(*final(self), path@.subrange(k as int, path.len() as int)).children@,
                node_at(*old(self), path@.subrange(k as int, path.len() as int)).children@,
            ),
        decreases path.len() - k,
    {
        let ghost rest = path@.subrange(k as int, path.len() as int);
        if k == path.len() {
            self.sort_children(mode);
        } else {
            let i = path[k];
            proof {
                assert(rest[0] == i);
                assert(rest.drop_first() =~= path@.subrange(k + 1, path.len() as int));
                if rest.len() == 1 {
                    assert(path_ok(*old(self), rest));
                } else {
                    lemma_path_ok_prefix(*old(self), rest, 1);
                    assert(rest.take(1).drop_last() =~= Seq::<usize>::empty());
                }
                assert(rest.take(1).last() == i);
                assert((i as int) < self.children@.len()) by {
                    lemma_path_ok_prefix(*old(self), rest, 1);
                    assert(rest.take(1).drop_last() =~= Seq::<usize>::empty());
                }
                lemma_node_at_first(*old(self), rest);
            }
            self.children[i].sort_at(path, k + 1, mode);
            proof {
                lemma_node_at_first(*self, rest);
            }
        }
    }
}

} // verus!
