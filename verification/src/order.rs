//! Stable two-level ordering by text keys.

use crate::select::is_selection;
use crate::text::{
    lemma_lex_asymmetric, lemma_lex_irreflexive, lemma_lex_total, lemma_lex_transitive, lex_lt,
    text_eq, text_lt,
};
use vstd::prelude::*;

verus! {

/// A two-level sort key: `major` decides, `minor` breaks ties.
#[derive(Clone, Debug)]
pub struct SortKey {
    pub major: String,
    pub minor: String,
}

impl View for SortKey {
    type V = (Seq<char>, Seq<char>);

    open spec fn view(&self) -> (Seq<char>, Seq<char>) {
        (self.major@, self.minor@)
    }
}

/// Strict order of two keys: by the first text, then by the second.
pub open spec fn pair_lt(a: (Seq<char>, Seq<char>), b: (Seq<char>, Seq<char>)) -> bool {
    lex_lt(a.0, b.0) || (a.0 == b.0 && lex_lt(a.1, b.1))
}

/// Whether item `a` with key `ka` comes before item `b` with key `kb`: the
/// smaller key first, and of two items that neither key puts first, the one
/// with the smaller position.
pub open spec fn ranked_before(
    ka: (Seq<char>, Seq<char>),
    kb: (Seq<char>, Seq<char>),
    a: int,
    b: int,
) -> bool {
    pair_lt(ka, kb) || (!pair_lt(kb, ka) && a < b)
}

/// `ord` arranges the positions below `m` of `keys`, each once, so that
/// each comes before its successor.
pub open spec fn is_sorted_prefix(ord: Seq<usize>, keys: Seq<SortKey>, m: int) -> bool {
    &&& ord.len() == m
    &&& m <= keys.len()
    &&& forall|a: int| 0 <= a < ord.len() ==> (#[trigger] ord[a]) < m
    &&& forall|a: int, b: int| 0 <= a < b < ord.len() ==> ord[a] != ord[b]
    &&& forall|x: usize| x < m ==> #[trigger] ord.contains(x)
    &&& forall|a: int|
        0 <= a < ord.len() - 1 ==> ranked_before(
            keys[(#[trigger] ord[a]) as int]@,
            keys[ord[a + 1] as int]@,
            ord[a] as int,
            ord[a + 1] as int,
        )
}

/// `ord` is the stable ascending arrangement of all positions of `keys`.
pub open spec fn is_sorted_order(ord: Seq<usize>, keys: Seq<SortKey>) -> bool {
    is_sorted_prefix(ord, keys, keys.len() as int)
}

/// `r` lists, each once, exactly the positions below `n` at which `pred`
/// holds, arranged so that each comes before its successor under `key`.
pub open spec fn is_ranking(
    r: Seq<usize>,
    n: int,
    pred: spec_fn(int) -> bool,
    key: spec_fn(int) -> (Seq<char>, Seq<char>),
) -> bool {
    &&& forall|a: int| 0 <= a < r.len() ==> (#[trigger] r[a]) < n && pred(r[a] as int)
    &&& forall|a: int, b: int| 0 <= a < b < r.len() ==> r[a] != r[b]
    &&& forall|x: int|
        0 <= x < n && #[trigger] pred(x) ==> exists|a: int| 0 <= a < r.len() && #[trigger] r[a] == x
    &&& forall|a: int|
        0 <= a < r.len() - 1 ==> ranked_before(
            key((#[trigger] r[a]) as int),
            key(r[a + 1] as int),
            r[a] as int,
            r[a + 1] as int,
        )
}

/// Of two keys at most one comes before the other.
pub proof fn lemma_pair_asymmetric(a: (Seq<char>, Seq<char>), b: (Seq<char>, Seq<char>))
    requires
        pair_lt(a, b),
    ensures
        !pair_lt(b, a),
{
    lemma_lex_irreflexive(a.0);
    if lex_lt(a.0, b.0) {
        lemma_lex_asymmetric(a.0, b.0);
    } else {
        lemma_lex_asymmetric(a.1, b.1);
    }
}

/// The order of keys is transitive.
pub proof fn lemma_pair_transitive(
    a: (Seq<char>, Seq<char>),
    b: (Seq<char>, Seq<char>),
    c: (Seq<char>, Seq<char>),
)
    requires
        pair_lt(a, b),
        pair_lt(b, c),
    ensures
        pair_lt(a, c),
{
    if lex_lt(a.0, b.0) && lex_lt(b.0, c.0) {
        lemma_lex_transitive(a.0, b.0, c.0);
    } else if !lex_lt(a.0, b.0) && !lex_lt(b.0, c.0) {
        lemma_lex_transitive(a.1, b.1, c.1);
    }
}

/// Two keys of which neither comes before the other are the same key.
pub proof fn lemma_pair_total(a: (Seq<char>, Seq<char>), b: (Seq<char>, Seq<char>))
    requires
        !pair_lt(a, b),
        !pair_lt(b, a),
    ensures
        a == b,
{
    lemma_lex_total(a.0, b.0);
    lemma_lex_total(a.1, b.1);
}

/// Ranking is transitive.
pub proof fn lemma_ranked_transitive(
    ka: (Seq<char>, Seq<char>),
    kb: (Seq<char>, Seq<char>),
    kc: (Seq<char>, Seq<char>),
    a: int,
    b: int,
    c: int,
)
    requires
        ranked_before(ka, kb, a, b),
        ranked_before(kb, kc, b, c),
    ensures
        ranked_before(ka, kc, a, c),
{
    if pair_lt(ka, kb) {
        if pair_lt(kb, kc) {
            lemma_pair_transitive(ka, kb, kc);
        } else {
            lemma_pair_total(kb, kc);
        }
    } else {
        if pair_lt(kb, ka) {
        } else {
            lemma_pair_total(ka, kb);
            if !pair_lt(kb, kc) {
                lemma_pair_total(kb, kc);
            }
        }
    }
}

/// In a ranking every entry comes before every later one, not only before
/// its successor.
pub proof fn lemma_ranking_all_pairs(
    r: Seq<usize>,
    n: int,
    pred: spec_fn(int) -> bool,
    key: spec_fn(int) -> (Seq<char>, Seq<char>),
    a: int,
    b: int,
)
    requires
        is_ranking(r, n, pred, key),
        0 <= a < b < r.len(),
    ensures
        ranked_before(key(r[a] as int), key(r[b] as int), r[a] as int, r[b] as int),
    decreases b - a,
{
    if a + 1 < b {
        lemma_ranking_all_pairs(r, n, pred, key, a, b - 1);
        assert(ranked_before(
            key(r[b - 1] as int),
            key(r[b - 1 + 1] as int),
            r[b - 1] as int,
            r[b - 1 + 1] as int,
        ));
        lemma_ranked_transitive(
            key(r[a] as int),
            key(r[b - 1] as int),
            key(r[b] as int),
            r[a] as int,
            r[b - 1] as int,
            r[b] as int,
        );
    }
}

/// A ranking is determined by its predicate and its key: two rankings of the
/// same positions by the same key are the same sequence.
pub proof fn lemma_ranking_unique(
    r: Seq<usize>,
    s: Seq<usize>,
    n: int,
    pred: spec_fn(int) -> bool,
    key: spec_fn(int) -> (Seq<char>, Seq<char>),
)
    requires
        is_ranking(r, n, pred, key),
        is_ranking(s, n, pred, key),
    ensures
        r == s,
    decreases r.len(),
{
    if r.len() == 0 {
        if s.len() > 0 {
            assert(pred(s[0] as int));
        }
        assert(r =~= s);
    } else {
        let x = r[0] as int;
        assert(pred(x));
        let k = choose|k: int| 0 <= k < s.len() && #[trigger] s[k] == x;
        if k > 0 {
            let y = s[0] as int;
            assert(pred(y));
            let m = choose|m: int| 0 <= m < r.len() && #[trigger] r[m] == y;
            assert(m != 0);
            lemma_ranking_all_pairs(r, n, pred, key, 0, m);
            lemma_ranking_all_pairs(s, n, pred, key, 0, k);
            if pair_lt(key(x), key(y)) {
                lemma_pair_asymmetric(key(x), key(y));
            } else if pair_lt(key(y), key(x)) {
                lemma_pair_asymmetric(key(y), key(x));
            }
            assert(false);
        }
        let r0 = r.drop_first();
        let s0 = s.drop_first();
        let p0 = |v: int| pred(v) && v != x;
        lemma_rest_is_ranking(r, n, pred, p0, key);
        lemma_rest_is_ranking(s, n, pred, p0, key);
        lemma_ranking_unique(r0, s0, n, p0, key);
        assert(r =~= seq![r[0]] + r0);
        assert(s =~= seq![s[0]] + s0);
    }
}

/// What follows the first entry of a ranking ranks the other positions.
pub proof fn lemma_rest_is_ranking(
    r: Seq<usize>,
    n: int,
    pred: spec_fn(int) -> bool,
    rest: spec_fn(int) -> bool,
    key: spec_fn(int) -> (Seq<char>, Seq<char>),
)
    requires
        is_ranking(r, n, pred, key),
        r.len() > 0,
        forall|v: int| #[trigger] rest(v) <==> pred(v) && v != r[0],
    ensures
        is_ranking(r.drop_first(), n, rest, key),
{
    let r0 = r.drop_first();
    let p0 = rest;
    assert forall|a: int| 0 <= a < r0.len() implies (#[trigger] r0[a]) < n && p0(r0[a] as int) by {
        assert(r0[a] == r[a + 1]);
    }
    assert forall|a: int, b: int| 0 <= a < b < r0.len() implies r0[a] != r0[b] by {
        assert(r0[a] == r[a + 1]);
        assert(r0[b] == r[b + 1]);
    }
    assert forall|v: int| 0 <= v < n && #[trigger] p0(v) implies exists|a: int|
        0 <= a < r0.len() && #[trigger] r0[a] == v by {
        assert(pred(v));
        let c = choose|c: int| 0 <= c < r.len() && #[trigger] r[c] == v;
        assert(r0[c - 1] == v);
    }
    assert forall|a: int| 0 <= a < r0.len() - 1 implies ranked_before(
        key((#[trigger] r0[a]) as int),
        key(r0[a + 1] as int),
        r0[a] as int,
        r0[a + 1] as int,
    ) by {
        assert(r0[a] == r[a + 1]);
        assert(r0[a + 1] == r[a + 1 + 1]);
    }
}

/// Decides [`pair_lt`] on two keys.
pub fn key_lt(a: &SortKey, b: &SortKey) -> (r: bool)
    ensures
        r == pair_lt(a@, b@),
{
    if text_lt(a.major.as_str(), b.major.as_str()) {
        true
    } else if text_eq(a.major.as_str(), b.major.as_str()) {
        text_lt(a.minor.as_str(), b.minor.as_str())
    } else {
        false
    }
}

/// Inserting the next position behind every entry that its key does not
/// come before keeps the arrangement sorted.
proof fn lemma_insert_sorted(before: Seq<usize>, keys: Seq<SortKey>, i: usize, p: int)
    requires
        is_sorted_prefix(before, keys, i as int),
        i < keys.len(),
        0 <= p <= before.len(),
        forall|j: int|
            p <= j < before.len() ==> pair_lt(keys[i as int]@, keys[(#[trigger] before[j]) as int]@),
        p > 0 ==> !pair_lt(keys[i as int]@, keys[before[p - 1] as int]@),
    ensures
        is_sorted_prefix(before.insert(p, i), keys, i + 1),
{
    let after = before.insert(p, i);
    before.insert_ensures(p, i);
    assert forall|a: int| 0 <= a < after.len() implies (#[trigger] after[a]) < i + 1 by {
        if a < p {
            assert(after[a] == before[a]);
        } else if a > p {
            assert(after[a] == before[a - 1]);
        }
    }
    assert forall|a: int, b: int| 0 <= a < b < after.len() implies after[a] != after[b] by {
        let x = if a < p { before[a] } else if a == p { i } else { before[a - 1] };
        let y = if b < p { before[b] } else if b == p { i } else { before[b - 1] };
        assert(after[a] == x);
        assert(after[b] == y);
    }
    assert forall|x: usize| x < i + 1 implies #[trigger] after.contains(x) by {
        if x == i {
            assert(after[p] == x);
        } else {
            assert(before.contains(x));
            let a = choose|a: int| 0 <= a < before.len() && #[trigger] before[a] == x;
            if a < p {
                assert(after[a] == x);
            } else {
                assert(after[a + 1] == x);
            }
        }
    }
    assert forall|a: int| 0 <= a < after.len() - 1 implies ranked_before(
        keys[(#[trigger] after[a]) as int]@,
        keys[after[a + 1] as int]@,
        after[a] as int,
        after[a + 1] as int,
    ) by {
        if a + 1 < p {
            assert(after[a] == before[a]);
            assert(after[a + 1] == before[a + 1]);
        } else if a + 1 == p {
            assert(after[a] == before[a]);
            assert(after[a + 1] == i);
            assert(before[a] < i);
        } else if a == p {
            assert(after[a] == i);
            assert(after[a + 1] == before[a]);
        } else {
            assert(after[a] == before[a - 1]);
            assert(after[a + 1] == before[a]);
        }
    }
}

/// The stable ascending order of the keys: the positions of `keys`, each
/// once, with smaller keys first and equal keys in their given order.
pub fn sorted_order(keys: &Vec<SortKey>) -> (ord: Vec<usize>)
    ensures
        is_sorted_order(ord@, keys@),
{
    let n = keys.len();
    let mut ord: Vec<usize> = Vec::new();
    let mut i: usize = 0;
    while i < n
        invariant
            i <= n,
            n == keys.len(),
            is_sorted_prefix(ord@, keys@, i as int),
        decreases n - i,
    {
        let mut p: usize = ord.len();
        while p > 0 && key_lt(&keys[i], &keys[ord[p - 1]])
            invariant
                p <= ord.len(),
                i < n,
                n == keys.len(),
                is_sorted_prefix(ord@, keys@, i as int),
                forall|j: int|
                    p <= j < ord.len() ==> pair_lt(keys[i as int]@, keys[(#[trigger] ord[j]) as int]@),
            decreases p,
        {
            p -= 1;
        }
        proof {
            lemma_insert_sorted(ord@, keys@, i, p as int);
        }
        ord.insert(p, i);
        i += 1;
    }
    ord
}

/// Arranges a selection by the given keys, `keys[j]` being the key of
/// `sel[j]`: smaller keys first, equal keys in ascending position.
pub(crate) fn arrange(
    sel: &Vec<usize>,
    keys: &Vec<SortKey>,
    Ghost(n): Ghost<int>,
    Ghost(pred): Ghost<spec_fn(int) -> bool>,
    Ghost(key): Ghost<spec_fn(int) -> (Seq<char>, Seq<char>)>,
) -> (r: Vec<usize>)
    requires
        is_selection(sel@, n, pred),
        keys.len() == sel.len(),
        forall|j: int| 0 <= j < sel.len() ==> (#[trigger] keys[j])@ == key(sel[j] as int),
    ensures
        is_ranking(r@, n, pred, key),
{
    let ord = sorted_order(keys);
    let mut r: Vec<usize> = Vec::new();
    let mut j: usize = 0;
    while j < ord.len()
        invariant
            j <= ord.len(),
            ord.len() == sel.len(),
            is_sorted_order(ord@, keys@),
            keys.len() == sel.len(),
            r.len() == j,
            forall|a: int| 0 <= a < j ==> #[trigger] r[a] == sel[ord[a] as int],
        decreases ord.len() - j,
    {
        r.push(sel[ord[j]]);
        j += 1;
    }
    proof {
        assert forall|x: int| 0 <= x < n && #[trigger] pred(x) implies exists|a: int|
            0 <= a < r.len() && #[trigger] r[a] == x by {
            let s = choose|s: int| 0 <= s < sel.len() && #[trigger] sel[s] == x;
            assert(ord@.contains(s as usize));
            let a = choose|a: int| 0 <= a < ord.len() && #[trigger] ord[a] == s;
            assert(r[a] == x);
        }
        assert forall|a: int, b: int| 0 <= a < b < r.len() implies r[a] != r[b] by {
            assert(r[a] == sel[ord[a] as int]);
            assert(r[b] == sel[ord[b] as int]);
            assert(ord[a] != ord[b]);
            if ord[a] < ord[b] {
                assert(sel[ord[a] as int] < sel[ord[b] as int]);
            } else {
                assert(sel[ord[b] as int] < sel[ord[a] as int]);
            }
        }
        assert forall|a: int| 0 <= a < r.len() - 1 implies ranked_before(
            key((#[trigger] r[a]) as int),
            key(r[a + 1] as int),
            r[a] as int,
            r[a + 1] as int,
        ) by {
            let u = ord[a] as int;
            let v = ord[a + 1] as int;
            assert(r[a] == sel[u]);
            assert(r[a + 1] == sel[v]);
            assert(keys[u]@ == key(sel[u] as int));
            assert(keys[v]@ == key(sel[v] as int));
            assert(ranked_before(keys[u]@, keys[v]@, u, v));
            if u < v {
                assert(sel[u] < sel[v]);
            }
        }
        assert forall|a: int| 0 <= a < r.len() implies (#[trigger] r[a]) < n && pred(
            r[a] as int,
        ) by {
            assert(r[a] == sel[ord[a] as int]);
        }
    }
    r
}

} // verus!
