//! Selections: the positions of a dataset at which a predicate holds.

use vstd::prelude::*;

verus! {

/// `sel` lists, in ascending order and each once, exactly the positions below
/// `n` at which `pred` holds.
pub open spec fn is_selection(sel: Seq<usize>, n: int, pred: spec_fn(int) -> bool) -> bool {
    &&& forall|a: int, b: int| 0 <= a < b < sel.len() ==> sel[a] < sel[b]
    &&& forall|a: int| 0 <= a < sel.len() ==> (#[trigger] sel[a]) < n && pred(sel[a] as int)
    &&& forall|x: int|
        0 <= x < n && #[trigger] pred(x) ==> exists|a: int|
            0 <= a < sel.len() && #[trigger] sel[a] == x
}

/// Extending a selection by a position at which the predicate holds.
pub proof fn lemma_selection_take(sel: Seq<usize>, i: usize, pred: spec_fn(int) -> bool)
    requires
        is_selection(sel, i as int, pred),
        pred(i as int),
    ensures
        is_selection(sel.push(i), i + 1, pred),
{
    let next = sel.push(i);
    assert forall|x: int| 0 <= x < i + 1 && #[trigger] pred(x) implies exists|a: int|
        0 <= a < next.len() && #[trigger] next[a] == x by {
        if x == i {
            assert(next[sel.len() as int] == x);
        } else {
            let a = choose|a: int| 0 <= a < sel.len() && #[trigger] sel[a] == x;
            assert(next[a] == x);
        }
    }
}

/// Passing over a position at which the predicate fails.
pub proof fn lemma_selection_skip(sel: Seq<usize>, i: usize, pred: spec_fn(int) -> bool)
    requires
        is_selection(sel, i as int, pred),
        !pred(i as int),
    ensures
        is_selection(sel, i + 1, pred),
{
}

/// A selection is determined by its predicate: two selections of the same
/// positions are the same sequence.
pub proof fn lemma_selection_unique(
    a: Seq<usize>,
    b: Seq<usize>,
    n: int,
    pred: spec_fn(int) -> bool,
)
    requires
        is_selection(a, n, pred),
        is_selection(b, n, pred),
    ensures
        a == b,
    decreases a.len(),
{
    if a.len() == 0 {
        if b.len() > 0 {
            let x = b[0] as int;
            assert(pred(x));
            let k = choose|k: int| 0 <= k < a.len() && #[trigger] a[k] == x;
        }
        assert(a =~= b);
    } else {
        let x = a.last() as int;
        assert(a[a.len() - 1] == x);
        assert(pred(x));
        let k = choose|k: int| 0 <= k < b.len() && #[trigger] b[k] == x;
        // x is the greatest member of b
        if k < b.len() - 1 {
            let y = b[b.len() - 1] as int;
            assert(pred(y));
            let m = choose|m: int| 0 <= m < a.len() && #[trigger] a[m] == y;
            assert(false);
        }
        let a0 = a.drop_last();
        let b0 = b.drop_last();
        let p0 = |v: int| pred(v) && v != x;
        assert(is_selection(a0, n, p0)) by {
            assert forall|v: int| 0 <= v < n && #[trigger] p0(v) implies exists|c: int|
                0 <= c < a0.len() && #[trigger] a0[c] == v by {
                assert(pred(v));
                let c = choose|c: int| 0 <= c < a.len() && #[trigger] a[c] == v;
                assert(a0[c] == v);
            }
        }
        assert(is_selection(b0, n, p0)) by {
            assert forall|v: int| 0 <= v < n && #[trigger] p0(v) implies exists|c: int|
                0 <= c < b0.len() && #[trigger] b0[c] == v by {
                assert(pred(v));
                let c = choose|c: int| 0 <= c < b.len() && #[trigger] b[c] == v;
                assert(b0[c] == v);
            }
        }
        lemma_selection_unique(a0, b0, n, p0);
        assert(a =~= a0.push(a.last()));
        assert(b =~= b0.push(b.last()));
    }
}

} // verus!
