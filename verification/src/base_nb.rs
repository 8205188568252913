//! What every Naive Bayes variant shares: partitioning a batch by class,
//! the sorted enumeration of the labels a batch holds, and the arg-max
//! prediction over per-class joint log-likelihood columns.

use vstd::prelude::*;

use crate::bits64::{is_below, is_nan};
use crate::error::NaiveBayesError;

verus! {

/// Strictly increasing: sorted with no repeated label.
pub open spec fn sorted_strict(s: Seq<u64>) -> bool {
    forall|i: int, j: int| 0 <= i < j < s.len() ==> s[i] < s[j]
}

/// `b` is the first position of the maximum of `v` under the binary64 order:
/// nothing in `v` is above `v[b]`, and everything before `b` is strictly
/// below it.
pub open spec fn is_first_max(v: Seq<u64>, b: int) -> bool {
    &&& 0 <= b < v.len()
    &&& forall|j: int| 0 <= j < v.len() ==> !is_below(v[b], v[j])
    &&& forall|k: int| 0 <= k < b ==> is_below(v[k], v[b])
}

/// The first position of the maximum is unique: the arg-max decision is a
/// function of the likelihood values alone, so repeated runs on the same
/// model and rows choose the same class.
pub proof fn lemma_first_max_unique(v: Seq<u64>, b1: int, b2: int)
    requires
        is_first_max(v, b1),
        is_first_max(v, b2),
    ensures
        b1 == b2,
{
    if b1 < b2 {
        assert(is_below(v[b1], v[b2]));
        assert(!is_below(v[b1], v[b2]));
    } else if b2 < b1 {
        assert(is_below(v[b2], v[b1]));
        assert(!is_below(v[b2], v[b1]));
    }
}

/// The position of the first maximum of a non-empty vector of binary64 bit
/// patterns, none of them NaN.
pub fn argmax_bits(v: &Vec<u64>) -> (r: usize)
    requires
        v@.len() > 0,
        forall|i: int| 0 <= i < v@.len() ==> !is_nan(v@[i]),
    ensures
        is_first_max(v@, r as int),
{
    let mut best: usize = 0;
    let mut i: usize = 1;
    while i < v.len()
        invariant
            0 < v@.len(),
            best < i <= v@.len(),
            forall|k: int| 0 <= k < v@.len() ==> !is_nan(v@[k]),
            forall|j: int| 0 <= j < i ==> !is_below(v@[best as int], v@[j]),
            forall|k: int| 0 <= k < best ==> is_below(v@[k], v@[best as int]),
        decreases v@.len() - i,
    {
        if crate::bits64::below_bits(v[best], v[i]) {
            proof {
                assert forall|k: int| 0 <= k < i implies is_below(v@[k], v@[i as int]) by {
                    crate::bits64::lemma_le_below_trans(v@[k], v@[best as int], v@[i as int]);
                }
                assert forall|j: int| 0 <= j <= i implies !is_below(v@[i as int], v@[j]) by {
                    if j < i {
                        crate::bits64::lemma_below_asym(v@[j], v@[i as int]);
                    } else {
                        crate::bits64::lemma_below_irrefl(v@[i as int]);
                    }
                }
            }
            best = i;
        }
        i = i + 1;
    }
    best
}

/// The largest value of a vector of binary64 bit patterns: the value at the
/// first position of the maximum.  `None` when the vector is empty or holds
/// a NaN, the two inputs on which no maximum is defined.
pub fn max_bits(v: &Vec<u64>) -> (r: Option<u64>)
    ensures
        r is Some <==> (v@.len() > 0 && forall|i: int| 0 <= i < v@.len() ==> !is_nan(v@[i])),
        r is Some ==> exists|b: int| is_first_max(v@, b),
        forall|b: int| r is Some && is_first_max(v@, b) ==> r == Some(v@[b]),
{
    let mut i: usize = 0;
    while i < v.len()
        invariant
            i <= v@.len(),
            forall|k: int| 0 <= k < i ==> !is_nan(v@[k]),
        decreases v@.len() - i,
    {
        if crate::bits64::is_nan_bits(v[i]) {
            return None;
        }
        i = i + 1;
    }
    if v.len() == 0 {
        return None;
    }
    let best = argmax_bits(v);
    proof {
        assert forall|b: int| is_first_max(v@, b) implies Some(v@[best as int]) == Some(v@[b]) by {
            lemma_first_max_unique(v@, best as int, b);
        }
    }
    Some(v[best])
}

/// The rows of a matrix, each a vector of binary64 bit patterns, as a
/// sequence of sequences.
pub open spec fn rows_view(x: Seq<Vec<u64>>) -> Seq<Seq<u64>> {
    Seq::new(x.len(), |i: int| x[i]@)
}

/// The rows of `x` whose label in `y` equals `c`, in their original order.
pub open spec fn filter_rows(x: Seq<Seq<u64>>, y: Seq<u64>, c: u64) -> Seq<Seq<u64>>
    decreases y.len(),
{
    if y.len() == 0 {
        Seq::empty()
    } else {
        let prefix = filter_rows(x.drop_last(), y.drop_last(), c);
        if y.last() == c {
            prefix.push(x.last())
        } else {
            prefix
        }
    }
}

/// A class that a batch does not mention gets an empty sub-matrix from the
/// filter, and an empty sub-matrix means a zero-row merge: together with
/// `GaussianNb::update_class`, a batch with zero rows for a class leaves
/// that class's statistics unchanged.
pub proof fn lemma_filter_absent_class_empty(x: Seq<Seq<u64>>, y: Seq<u64>, c: u64)
    requires
        !y.contains(c),
    ensures
        filter_rows(x, y, c).len() == 0,
    decreases y.len(),
{
    if y.len() > 0 {
        assert(y.last() != c) by {
            if y.last() == c {
                assert(y[y.len() - 1] == c);
            }
        }
        assert(!y.drop_last().contains(c)) by {
            if y.drop_last().contains(c) {
                let k = choose|k: int| 0 <= k < y.drop_last().len() && y.drop_last()[k] == c;
                assert(y[k] == c);
            }
        }
        lemma_filter_absent_class_empty(x.drop_last(), y.drop_last(), c);
    }
}

fn clone_row(row: &Vec<u64>) -> (r: Vec<u64>)
    ensures
        r@ == row@,
{
    let mut r: Vec<u64> = Vec::new();
    let mut j: usize = 0;
    while j < row.len()
        invariant
            j <= row@.len(),
            r@ == row@.take(j as int),
        decreases row@.len() - j,
    {
        r.push(row[j]);
        proof {
            assert(r@ =~= row@.take(j + 1));
        }
        j = j + 1;
    }
    proof {
        assert(row@.take(row@.len() as int) =~= row@);
    }
    r
}

/// The sub-matrix of exactly the rows of `x` whose label equals
/// `ycondition`, their order kept.  Zero matching rows yield a zero-row
/// matrix, not an error.
pub fn filter(x: &Vec<Vec<u64>>, y: &Vec<u64>, ycondition: u64) -> (r: Vec<Vec<u64>>)
    requires
        x@.len() == y@.len(),
    ensures
        rows_view(r@) == filter_rows(rows_view(x@), y@, ycondition),
{
    let ghost xs = rows_view(x@);
    let mut r: Vec<Vec<u64>> = Vec::new();
    let mut i: usize = 0;
    while i < y.len()
        invariant
            x@.len() == y@.len(),
            i <= y@.len(),
            xs == rows_view(x@),
            rows_view(r@) == filter_rows(xs.take(i as int), y@.take(i as int), ycondition),
        decreases y@.len() - i,
    {
        proof {
            assert(xs.take(i + 1).drop_last() =~= xs.take(i as int));
            assert(y@.take(i + 1).drop_last() =~= y@.take(i as int));
            assert(xs.take(i + 1).last() == xs[i as int]);
            assert(xs[i as int] == x@[i as int]@);
        }
        if y[i] == ycondition {
            let row = clone_row(&x[i]);
            r.push(row);
            proof {
                assert(rows_view(r@) =~= filter_rows(
                    xs.take(i + 1),
                    y@.take(i + 1),
                    ycondition,
                ));
            }
        }
        i = i + 1;
    }
    proof {
        assert(xs.take(y@.len() as int) =~= xs);
        assert(y@.take(y@.len() as int) =~= y@);
    }
    r
}

/// The distinct labels of `y`, each exactly once, in increasing order: the
/// deduplicated, sorted enumeration of the classes a batch holds.
pub fn unique_labels(y: &Vec<u64>) -> (r: Vec<u64>)
    ensures
        sorted_strict(r@),
        forall|v: u64| r@.contains(v) <==> y@.contains(v),
{
    let mut r: Vec<u64> = Vec::new();
    let mut i: usize = 0;
    while i < y.len()
        invariant
            i <= y@.len(),
            sorted_strict(r@),
            forall|v: u64| r@.contains(v) <==> y@.take(i as int).contains(v),
        decreases y@.len() - i,
    {
        let val = y[i];
        let ghost prev = r@;
        let mut pos: usize = 0;
        while pos < r.len() && r[pos] < val
            invariant
                pos <= r@.len(),
                forall|k: int| 0 <= k < pos ==> r@[k] < val,
                r@ == prev,
            decreases r@.len() - pos,
        {
            pos = pos + 1;
        }
        if pos == r.len() || r[pos] > val {
            proof {
                prev.insert_ensures(pos as int, val);
            }
            r.insert(pos, val);
            proof {
                assert forall|a: int, b: int| 0 <= a < b < r@.len() implies r@[a] < r@[b] by {
                    if b < pos {
                        assert(r@[a] == prev[a] && r@[b] == prev[b]);
                    } else if b == pos {
                        assert(r@[a] == prev[a] && prev[a] < val);
                    } else {
                        assert(r@[b] == prev[b - 1]);
                        assert(pos < prev.len() && prev[pos as int] > val);
                        assert(prev[b - 1] >= prev[pos as int]);
                        if a < pos {
                            assert(r@[a] == prev[a] && prev[a] < val);
                        } else if a == pos {
                            assert(r@[a] == val);
                        } else {
                            assert(r@[a] == prev[a - 1]);
                        }
                    }
                }
                assert forall|v: u64| r@.contains(v) <==> (prev.contains(v) || v == val) by {
                    if r@.contains(v) {
                        let k = choose|k: int| 0 <= k < r@.len() && r@[k] == v;
                        if k < pos {
                            assert(prev[k] == v);
                        } else if k > pos {
                            assert(prev[k - 1] == v);
                        }
                    }
                    if prev.contains(v) {
                        let k = choose|k: int| 0 <= k < prev.len() && prev[k] == v;
                        if k < pos {
                            assert(r@[k] == v);
                        } else {
                            assert(r@[k + 1] == v);
                        }
                    }
                    if v == val {
                        assert(r@[pos as int] == v);
                    }
                }
            }
        } else {
            proof {
                assert(r@[pos as int] == val);
                assert(r@.contains(val));
                assert forall|v: u64| r@.contains(v) <==> (prev.contains(v) || v == val) by {}
            }
        }
        proof {
            assert(y@.take(i + 1) =~= y@.take(i as int).push(val));
            assert forall|v: u64| r@.contains(v) <==> y@.take(i + 1).contains(v) by {
                assert(prev.contains(v) <==> y@.take(i as int).contains(v));
                if r@.contains(v) {
                    if prev.contains(v) {
                        let k = choose|k: int|
                            0 <= k < y@.take(i as int).len() && y@.take(i as int)[k] == v;
                        assert(y@.take(i + 1)[k] == v);
                    } else {
                        assert(v == val);
                        assert(y@.take(i + 1)[i as int] == v);
                    }
                }
                if y@.take(i + 1).contains(v) {
                    let k = choose|k: int| 0 <= k < y@.take(i + 1).len() && #[trigger] y@.take(
                        i + 1,
                    )[k] == v;
                    if k < i {
                        assert(y@.take(i as int)[k] == v);
                    } else {
                        assert(v == val);
                    }
                }
            }
        }
        i = i + 1;
    }
    proof {
        assert(y@.take(y@.len() as int) =~= y@);
    }
    r
}

/// The label enumeration is canonical: two strictly sorted sequences with
/// the same members are the same sequence, so the classes a fit pass walks —
/// and the order it walks them in — depend only on which labels the batch
/// holds, never on the order its rows arrived in.
pub proof fn lemma_sorted_same_members_equal(s1: Seq<u64>, s2: Seq<u64>)
    requires
        sorted_strict(s1),
        sorted_strict(s2),
        forall|v: u64| s1.contains(v) <==> s2.contains(v),
    ensures
        s1 == s2,
    decreases s1.len(),
{
    if s1.len() == 0 {
        if s2.len() > 0 {
            assert(s2.contains(s2[0]));
        }
        assert(s1 =~= s2);
    } else {
        assert(s1.contains(s1.last()));
        if s2.len() == 0 {
            assert(!s2.contains(s1.last()));
        }
        assert(s2.contains(s2.last()));
        let j1 = choose|j: int| 0 <= j < s2.len() && s2[j] == s1.last();
        let j2 = choose|j: int| 0 <= j < s1.len() && s1[j] == s2.last();
        assert(s2[j1] <= s2.last());
        assert(s1[j2] <= s1.last());
        assert(s1.last() == s2.last());
        assert forall|v: u64| s1.drop_last().contains(v) <==> s2.drop_last().contains(v) by {
            if s1.drop_last().contains(v) {
                let k = choose|k: int| 0 <= k < s1.len() - 1 && s1[k] == v;
                assert(s1[k] < s1.last());
                assert(s2.contains(v));
                let m = choose|m: int| 0 <= m < s2.len() && s2[m] == v;
                assert(m < s2.len() - 1) by {
                    if m == s2.len() - 1 {
                        assert(v == s2.last());
                    }
                }
                assert(s2.drop_last()[m] == v);
            }
            if s2.drop_last().contains(v) {
                let k = choose|k: int| 0 <= k < s2.len() - 1 && s2[k] == v;
                assert(s2[k] < s2.last());
                assert(s1.contains(v));
                let m = choose|m: int| 0 <= m < s1.len() && s1[m] == v;
                assert(m < s1.len() - 1) by {
                    if m == s1.len() - 1 {
                        assert(v == s1.last());
                    }
                }
                assert(s1.drop_last()[m] == v);
            }
        }
        lemma_sorted_same_members_equal(s1.drop_last(), s2.drop_last());
        assert(s1.len() == s2.len());
        assert forall|k: int| 0 <= k < s1.len() implies s1[k] == s2[k] by {
            if k < s1.len() - 1 {
                assert(s1.drop_last()[k] == s2.drop_last()[k]);
                assert(s1.drop_last()[k] == s1[k]);
                assert(s2.drop_last()[k] == s2[k]);
            } else {
                assert(s1[k] == s1.last());
            }
        }
        assert(s1 =~= s2);
    }
}

/// One joint log-likelihood column: the values that the classes, in table
/// order, assign to row `i`.
pub open spec fn col_of(jll: Seq<Vec<u64>>, i: int) -> Seq<u64> {
    Seq::new(jll.len(), |k: int| jll[k]@[i])
}

/// `label` is the class that the arg-max decision assigns to row `i`: the
/// one at the first position of the maximum of the row's likelihood column.
pub open spec fn predicted(jll: Seq<Vec<u64>>, classes: Seq<u64>, i: int, label: u64) -> bool {
    exists|b: int| is_first_max(col_of(jll, i), b) && label == classes[b]
}

/// The predicted label of each row: the class whose joint log-likelihood for
/// that row is largest, ties resolved to the first — with the class labels
/// sorted, the smallest — such label.  `jll` holds one likelihood vector per
/// class, each with one entry per row.
pub fn predict_from_jll(classes: &Vec<u64>, jll: &Vec<Vec<u64>>, n_rows: usize) -> (r: Vec<u64>)
    requires
        classes@.len() == jll@.len(),
        classes@.len() > 0,
        sorted_strict(classes@),
        forall|k: int| 0 <= k < jll@.len() ==> (#[trigger] jll@[k])@.len() == n_rows,
        forall|k: int, i: int|
            0 <= k < jll@.len() && 0 <= i < n_rows ==> !is_nan(#[trigger] jll@[k]@[i]),
    ensures
        r@.len() == n_rows,
        forall|i: int| 0 <= i < n_rows ==> #[trigger] predicted(jll@, classes@, i, r@[i]),
{
    let mut out: Vec<u64> = Vec::new();
    let mut i: usize = 0;
    while i < n_rows
        invariant
            classes@.len() == jll@.len(),
            classes@.len() > 0,
            i <= n_rows,
            out@.len() == i,
            forall|k: int| 0 <= k < jll@.len() ==> (#[trigger] jll@[k])@.len() == n_rows,
            forall|k: int, i2: int|
                0 <= k < jll@.len() && 0 <= i2 < n_rows ==> !is_nan(#[trigger] jll@[k]@[i2]),
            forall|i2: int| 0 <= i2 < i ==> #[trigger] predicted(jll@, classes@, i2, out@[i2]),
        decreases n_rows - i,
    {
        let mut column: Vec<u64> = Vec::new();
        let mut k: usize = 0;
        while k < jll.len()
            invariant
                k <= jll@.len(),
                i < n_rows,
                column@.len() == k,
                forall|k2: int| 0 <= k2 < jll@.len() ==> (#[trigger] jll@[k2])@.len() == n_rows,
                forall|k2: int| 0 <= k2 < k ==> column@[k2] == jll@[k2]@[i as int],
            decreases jll@.len() - k,
        {
            let row = &jll[k];
            column.push(row[i]);
            k = k + 1;
        }
        proof {
            assert(column@ =~= col_of(jll@, i as int));
        }
        let b = argmax_bits(&column);
        let ghost out_prev = out@;
        out.push(classes[b]);
        proof {
            assert(is_first_max(col_of(jll@, i as int), b as int));
            assert(out@[i as int] == classes@[b as int]);
            assert forall|i2: int|
                0 <= i2 < i + 1 implies #[trigger] predicted(jll@, classes@, i2, out@[i2]) by {
                if i2 < i {
                    assert(predicted(jll@, classes@, i2, out_prev[i2]));
                    assert(out@[i2] == out_prev[i2]);
                }
            }
        }
        i = i + 1;
    }
    out
}

/// The tie-breaking law: when every class assigns the same joint
/// log-likelihood vector, the first position of the maximum of every column
/// is position zero — with a sorted class table, the smallest label.  The
/// choice is fixed by the values alone and cannot vary between runs.
pub proof fn lemma_tie_break_first(jll: Seq<Vec<u64>>, i: int, b: int)
    requires
        jll.len() > 0,
        forall|k: int| 0 <= k < jll.len() ==> #[trigger] jll[k]@ == jll[0]@,
        0 <= i < jll[0]@.len(),
        is_first_max(col_of(jll, i), b),
    ensures
        b == 0,
{
    let v = col_of(jll, i);
    if b != 0 {
        assert(jll[b]@ == jll[0]@);
        assert(v[0] == v[b]);
        assert(is_below(v[0], v[b]));
        crate::bits64::lemma_below_irrefl(v[b]);
    }
}

/// The arg-max decision is deterministic: one row, one model, one label.
pub proof fn lemma_predicted_unique(
    jll: Seq<Vec<u64>>,
    classes: Seq<u64>,
    i: int,
    l1: u64,
    l2: u64,
)
    requires
        predicted(jll, classes, i, l1),
        predicted(jll, classes, i, l2),
    ensures
        l1 == l2,
{
    let b1 = choose|b: int| is_first_max(col_of(jll, i), b) && l1 == classes[b];
    let b2 = choose|b: int| is_first_max(col_of(jll, i), b) && l2 == classes[b];
    lemma_first_max_unique(col_of(jll, i), b1, b2);
}

/// Classes with identical priors, means and variances have identical joint
/// log-likelihood vectors, and then every row is assigned the first class of
/// the table — with sorted labels, always the smallest label, never varying
/// between runs.
pub proof fn lemma_tie_break(jll: Seq<Vec<u64>>, classes: Seq<u64>, i: int, label: u64)
    requires
        jll.len() > 0,
        classes.len() == jll.len(),
        forall|k: int| 0 <= k < jll.len() ==> #[trigger] jll[k]@ == jll[0]@,
        0 <= i < jll[0]@.len(),
        predicted(jll, classes, i, label),
    ensures
        label == classes[0],
{
    let b = choose|b: int| is_first_max(col_of(jll, i), b) && label == classes[b];
    lemma_tie_break_first(jll, i, b);
}

/// Single-column targets are the only supported shape: more than one target
/// column is refused with `MultiOutputNotSupported`.
pub fn check_single_target(n_target_cols: usize) -> (r: Result<(), NaiveBayesError>)
    ensures
        r is Ok <==> n_target_cols <= 1,
        !(r is Ok) ==> r == Result::<(), NaiveBayesError>::Err(
            NaiveBayesError::MultiOutputNotSupported,
        ),
{
    if n_target_cols > 1 {
        Err(NaiveBayesError::MultiOutputNotSupported)
    } else {
        Ok(())
    }
}

} // verus!
