//! The techniques of a group under their tactics.

use crate::order::{
    is_sorted_order, lemma_pair_asymmetric, lemma_pair_total, lemma_pair_transitive, pair_lt,
    sorted_order, SortKey,
};
use crate::record::{is_authority, Dataset, Record};
use crate::relations::{technique_used_by, techniques_used_by, used_by_pred};
use crate::select::is_selection;
use crate::text::{text_eq, title_case, title_cased};
use vstd::prelude::*;
use vstd::string::*;

verus! {

/// One technique under one of its tactics.
#[derive(Clone, Debug)]
pub struct TacticEntry {
    /// The display name of the tactic.
    pub tactic: String,
    /// The position of the technique in the dataset.
    pub technique: usize,
    /// The position of the phase among the technique's kill chain phases.
    pub phase: usize,
}

impl View for TacticEntry {
    type V = (Seq<char>, usize, usize);

    open spec fn view(&self) -> (Seq<char>, usize, usize) {
        (self.tactic@, self.technique, self.phase)
    }
}

/// Whether phase `p` of the record at `t` places a technique used by the
/// group `group_id` under a tactic: the record is such a technique, and the
/// phase belongs to the authoritative kill chain.
pub open spec fn is_assignment(objs: Seq<Record>, group_id: Seq<char>, t: int, p: int) -> bool {
    &&& technique_used_by(objs, group_id, t)
    &&& 0 <= p < objs[t].phases().len()
    &&& is_authority(objs[t].phases()[p].kill_chain_name@)
}

/// Whether `e` names an assignment and carries the display name of its phase.
pub open spec fn is_entry(objs: Seq<Record>, group_id: Seq<char>, e: TacticEntry) -> bool {
    &&& is_assignment(objs, group_id, e.technique as int, e.phase as int)
    &&& e.tactic@ == title_cased(objs[e.technique as int].phases()[e.phase as int].phase_name@)
}

/// Whether `r` holds an entry for phase `p` of the record at `t`.
pub open spec fn holds_entry(r: Seq<TacticEntry>, t: int, p: int) -> bool {
    exists|c: int| 0 <= c < r.len() && (#[trigger] r[c]).technique == t && r[c].phase == p
}

/// Whether `a` is met before `b` when the dataset is read in order.
pub open spec fn read_before(a: TacticEntry, b: TacticEntry) -> bool {
    a.technique < b.technique || (a.technique == b.technique && a.phase < b.phase)
}

/// The key of an entry: its tactic, then the name of its technique.
pub open spec fn entry_key(objs: Seq<Record>, e: TacticEntry) -> (Seq<char>, Seq<char>) {
    (e.tactic@, objs[e.technique as int].name_text())
}

/// Whether `a` is listed before `b`: by tactic, then by technique name, and
/// where neither decides, in reading order.
pub open spec fn entry_precedes(objs: Seq<Record>, a: TacticEntry, b: TacticEntry) -> bool {
    pair_lt(entry_key(objs, a), entry_key(objs, b)) || (!pair_lt(
        entry_key(objs, b),
        entry_key(objs, a),
    ) && read_before(a, b))
}

/// `r` lists the techniques that a group uses under their tactics: one entry
/// for each assignment, the tactics in ascending order and, under one tactic,
/// the techniques ascending by name.
pub open spec fn is_tactic_listing(r: Seq<TacticEntry>, objs: Seq<Record>, group_id: Seq<char>) -> bool {
    &&& forall|a: int| 0 <= a < r.len() ==> is_entry(objs, group_id, #[trigger] r[a])
    &&& forall|a: int, b: int|
        0 <= a < b < r.len() ==> (#[trigger] r[a]).technique != (#[trigger] r[b]).technique
            || r[a].phase != r[b].phase
    &&& forall|t: int, p: int| #[trigger] is_assignment(objs, group_id, t, p) ==> holds_entry(r, t, p)
    &&& forall|a: int| 0 <= a < r.len() - 1 ==> entry_precedes(objs, #[trigger] r[a], r[a + 1])
}

/// Listing order is transitive.
pub proof fn lemma_entry_transitive(objs: Seq<Record>, a: TacticEntry, b: TacticEntry, c: TacticEntry)
    requires
        entry_precedes(objs, a, b),
        entry_precedes(objs, b, c),
    ensures
        entry_precedes(objs, a, c),
{
    let ka = entry_key(objs, a);
    let kb = entry_key(objs, b);
    let kc = entry_key(objs, c);
    if pair_lt(ka, kb) {
        if pair_lt(kb, kc) {
            lemma_pair_transitive(ka, kb, kc);
        } else {
            lemma_pair_total(kb, kc);
        }
    } else {
        if pair_lt(kb, ka) {
        } else {
            lemma_pair_total(ka, kb);
            if !pair_lt(kb, kc) {
                lemma_pair_total(kb, kc);
            }
        }
    }
}

/// Of two entries at most one is listed before the other.
pub proof fn lemma_entry_asymmetric(objs: Seq<Record>, a: TacticEntry, b: TacticEntry)
    requires
        entry_precedes(objs, a, b),
    ensures
        !entry_precedes(objs, b, a),
{
    let ka = entry_key(objs, a);
    let kb = entry_key(objs, b);
    if pair_lt(ka, kb) {
        lemma_pair_asymmetric(ka, kb);
    }
}

/// In a listing every entry is listed before every later one, not only
/// before its successor.
pub proof fn lemma_listing_all_pairs(
    r: Seq<TacticEntry>,
    objs: Seq<Record>,
    group_id: Seq<char>,
    a: int,
    b: int,
)
    requires
        is_tactic_listing(r, objs, group_id),
        0 <= a < b < r.len(),
    ensures
        entry_precedes(objs, r[a], r[b]),
    decreases b - a,
{
    if a + 1 < b {
        lemma_listing_all_pairs(r, objs, group_id, a, b - 1);
        assert(entry_precedes(objs, r[b - 1], r[b - 1 + 1]));
        lemma_entry_transitive(objs, r[a], r[b - 1], r[b]);
    }
}

/// Two listings for the same group agree at every position that both have.
pub proof fn lemma_listing_agree(
    r: Seq<TacticEntry>,
    s: Seq<TacticEntry>,
    objs: Seq<Record>,
    group_id: Seq<char>,
    i: int,
)
    requires
        is_tactic_listing(r, objs, group_id),
        is_tactic_listing(s, objs, group_id),
        0 <= i < r.len(),
        i < s.len(),
    ensures
        r[i]@ == s[i]@,
    decreases i,
{
    let e = r[i];
    assert(is_entry(objs, group_id, e));
    assert(holds_entry(s, e.technique as int, e.phase as int));
    let k = choose|k: int|
        0 <= k < s.len() && (#[trigger] s[k]).technique == e.technique as int && s[k].phase
            == e.phase as int;
    assert(is_entry(objs, group_id, s[k]));
    assert(s[k]@ == e@);
    if k < i {
        lemma_listing_agree(r, s, objs, group_id, k);
        assert(r[k].technique == r[i].technique && r[k].phase == r[i].phase);
        assert(false);
    } else if k > i {
        let f = s[i];
        assert(is_entry(objs, group_id, f));
        assert(holds_entry(r, f.technique as int, f.phase as int));
        let m = choose|m: int|
            0 <= m < r.len() && (#[trigger] r[m]).technique == f.technique as int && r[m].phase
                == f.phase as int;
        assert(is_entry(objs, group_id, r[m]));
        assert(r[m]@ == f@);
        if m < i {
            lemma_listing_agree(r, s, objs, group_id, m);
            assert(s[m].technique == s[i].technique && s[m].phase == s[i].phase);
            assert(false);
        } else if m > i {
            lemma_listing_all_pairs(s, objs, group_id, i, k);
            lemma_listing_all_pairs(r, objs, group_id, i, m);
            assert(entry_key(objs, s[k]) == entry_key(objs, r[i]));
            assert(entry_key(objs, r[m]) == entry_key(objs, s[i]));
            assert(entry_precedes(objs, r[m], r[i]));
            lemma_entry_asymmetric(objs, r[i], r[m]);
            assert(false);
        }
    }
}

/// A listing is determined by the dataset and the group: two listings for
/// the same group hold the same entries in the same order.
pub proof fn lemma_listing_unique(
    r: Seq<TacticEntry>,
    s: Seq<TacticEntry>,
    objs: Seq<Record>,
    group_id: Seq<char>,
)
    requires
        is_tactic_listing(r, objs, group_id),
        is_tactic_listing(s, objs, group_id),
    ensures
        r.len() == s.len(),
        forall|i: int| 0 <= i < r.len() ==> (#[trigger] r[i])@ == s[i]@,
{
    lemma_listing_covers(r, s, objs, group_id);
    lemma_listing_covers(s, r, objs, group_id);
    assert forall|i: int| 0 <= i < r.len() implies (#[trigger] r[i])@ == s[i]@ by {
        lemma_listing_agree(r, s, objs, group_id, i);
    }
}

/// A listing is at least as long as any other listing for the same group.
proof fn lemma_listing_covers(
    r: Seq<TacticEntry>,
    s: Seq<TacticEntry>,
    objs: Seq<Record>,
    group_id: Seq<char>,
)
    requires
        is_tactic_listing(r, objs, group_id),
        is_tactic_listing(s, objs, group_id),
    ensures
        r.len() >= s.len(),
{
    if r.len() < s.len() {
        let f = s[r.len() as int];
        assert(is_entry(objs, group_id, f));
        assert(holds_entry(r, f.technique as int, f.phase as int));
        let m = choose|m: int|
            0 <= m < r.len() && (#[trigger] r[m]).technique == f.technique as int && r[m].phase
                == f.phase as int;
        lemma_listing_agree(r, s, objs, group_id, m);
        assert(s[m].technique == s[r.len() as int].technique && s[m].phase == s[r.len()
            as int].phase);
    }
}

/// The entries in reading order, each with its key: every assignment met
/// before phase `p` of the record at `t`, and no other.
pub open spec fn is_reading(
    flat: Seq<TacticEntry>,
    keys: Seq<SortKey>,
    objs: Seq<Record>,
    group_id: Seq<char>,
    t: int,
    p: int,
) -> bool {
    &&& keys.len() == flat.len()
    &&& forall|c: int|
        0 <= c < flat.len() ==> is_entry(objs, group_id, #[trigger] flat[c]) && keys[c]@
            == entry_key(objs, flat[c])
    &&& forall|c: int|
        0 <= c < flat.len() ==> (#[trigger] flat[c]).technique < t || (flat[c].technique == t
            && flat[c].phase < p)
    &&& forall|c: int, d: int|
        0 <= c < d < flat.len() ==> read_before(#[trigger] flat[c], #[trigger] flat[d])
    &&& forall|u: int, q: int|
        #[trigger] is_assignment(objs, group_id, u, q) && (u < t || (u == t && q < p))
            ==> holds_entry(flat, u, q)
}

/// The techniques that the group with id `group_id` uses, each under every
/// tactic that one of its authoritative kill chain phases names. The tactic's
/// display name is the title-cased phase name. Entries are ordered by tactic
/// and, under one tactic, by technique name.
pub fn techniques_by_tactic(group_id: &str, data: &Dataset) -> (r: Vec<TacticEntry>)
    ensures
        is_tactic_listing(r@, data.objects@, group_id@),
{
    let techniques = techniques_used_by(group_id, data);
    let ghost objs = data.objects@;
    let ghost gid = group_id@;
    let mut flat: Vec<TacticEntry> = Vec::new();
    let mut keys: Vec<SortKey> = Vec::new();
    let mut a: usize = 0;
    proof {
        let first = if 0 < techniques.len() {
            techniques[0] as int
        } else {
            objs.len() as int
        };
        assert forall|u: int, q: int| #[trigger]
            is_assignment(objs, gid, u, q) && u < first implies holds_entry(flat@, u, q) by {
            assert(used_by_pred(objs, gid)(u));
            let k = choose|k: int| 0 <= k < techniques.len() && #[trigger] techniques[k] == u;
            if k > 0 {
                assert(techniques[0] < techniques[k]);
            }
            assert(false);
        }
    }
    while a < techniques.len()
        invariant
            a <= techniques.len(),
            objs == data.objects@,
            gid == group_id@,
            is_selection(techniques@, objs.len() as int, used_by_pred(objs, gid)),
            is_reading(
                flat@,
                keys@,
                objs,
                gid,
                if a < techniques.len() {
                    techniques[a as int] as int
                } else {
                    objs.len() as int
                },
                0,
            ),
        decreases techniques.len() - a,
    {
        let t = techniques[a];
        let rec = &data.objects[t];
        assert(used_by_pred(objs, gid)(t as int));
        let mut p: usize = 0;
        if let Some(phases) = &rec.kill_chain_phases {
            while p < phases.len()
                invariant
                    p <= phases.len(),
                    t < objs.len(),
                    objs == data.objects@,
                    gid == group_id@,
                    rec == &data.objects[t as int],
                    rec.phases() == phases@,
                    technique_used_by(objs, gid, t as int),
                    is_reading(flat@, keys@, objs, gid, t as int, p as int),
                decreases phases.len() - p,
            {
                if text_eq(phases[p].kill_chain_name.as_str(), "mitre-attack") {
                    let tactic = title_case(phases[p].phase_name.as_str());
                    let minor = match &rec.name {
                        Some(s) => s.clone(),
                        None => String::new(),
                    };
                    let key = SortKey { major: tactic.clone(), minor };
                    let entry = TacticEntry { tactic, technique: t, phase: p };
                    let ghost before = flat@;
                    flat.push(entry);
                    keys.push(key);
                    proof {
                        let now = flat@;
                        assert(is_assignment(objs, gid, t as int, p as int));
                        assert forall|u: int, q: int| #[trigger]
                            is_assignment(objs, gid, u, q) && (u < t || (u == t && q < p + 1))
                            implies holds_entry(now, u, q) by {
                            if u == t && q == p {
                                assert(now[before.len() as int].technique == u);
                            } else {
                                assert(holds_entry(before, u, q));
                                let c = choose|c: int|
                                    0 <= c < before.len() && (#[trigger] before[c]).technique == u
                                        && before[c].phase == q;
                                assert(now[c].technique == u);
                            }
                        }
                    }
                }
                p += 1;
            }
        }
        proof {
            let next = if a + 1 < techniques.len() {
                techniques[a + 1] as int
            } else {
                objs.len() as int
            };
            assert forall|u: int, q: int| #[trigger]
                is_assignment(objs, gid, u, q) && u < next implies holds_entry(flat@, u, q) by {
                if u > t {
                    assert(used_by_pred(objs, gid)(u));
                    let k = choose|k: int| 0 <= k < techniques.len() && #[trigger] techniques[k] == u;
                    if k <= a {
                        assert(techniques[k] <= techniques[a as int]);
                    } else if k > a + 1 {
                        assert(techniques[a + 1] < techniques[k]);
                    }
                    assert(false);
                }
            }
        }
        a += 1;
    }
    let ord = sorted_order(&keys);
    let mut r: Vec<TacticEntry> = Vec::new();
    let mut j: usize = 0;
    while j < ord.len()
        invariant
            j <= ord.len(),
            ord.len() == flat.len(),
            keys.len() == flat.len(),
            is_sorted_order(ord@, keys@),
            r.len() == j,
            forall|c: int| 0 <= c < j ==> (#[trigger] r[c])@ == flat[ord[c] as int]@,
        decreases ord.len() - j,
    {
        let src = &flat[ord[j]];
        r.push(TacticEntry { tactic: src.tactic.clone(), technique: src.technique, phase: src.phase });
        j += 1;
    }
    proof {
        let n = objs.len() as int;
        assert(is_reading(flat@, keys@, objs, gid, n, 0));
        assert forall|c: int| 0 <= c < r.len() implies is_entry(objs, gid, #[trigger] r[c]) by {
            assert(r[c]@ == flat[ord[c] as int]@);
            assert(is_entry(objs, gid, flat[ord[c] as int]));
        }
        assert forall|c: int, d: int| 0 <= c < d < r.len() implies (#[trigger] r[c]).technique != (
        #[trigger] r[d]).technique || r[c].phase != r[d].phase by {
            assert(r[c]@ == flat[ord[c] as int]@);
            assert(r[d]@ == flat[ord[d] as int]@);
            assert(ord[c] != ord[d]);
            if ord[c] < ord[d] {
                assert(read_before(flat[ord[c] as int], flat[ord[d] as int]));
            } else {
                assert(read_before(flat[ord[d] as int], flat[ord[c] as int]));
            }
        }
        assert forall|t: int, p: int| #[trigger] is_assignment(objs, gid, t, p) implies holds_entry(
            r@,
            t,
            p,
        ) by {
            assert(t < n);
            assert(holds_entry(flat@, t, p));
            let s = choose|s: int|
                0 <= s < flat.len() && (#[trigger] flat[s]).technique == t && flat[s].phase == p;
            assert(ord@.contains(s as usize));
            let c = choose|c: int| 0 <= c < ord.len() && #[trigger] ord[c] == s;
            assert(r[c]@ == flat[ord[c] as int]@);
            assert(r[c].technique == t);
        }
        assert forall|c: int| 0 <= c < r.len() - 1 implies entry_precedes(
            objs,
            #[trigger] r[c],
            r[c + 1],
        ) by {
            let u = ord[c] as int;
            let v = ord[c + 1] as int;
            assert(r[c]@ == flat[u]@);
            assert(r[c + 1]@ == flat[v]@);
            assert(keys[u]@ == entry_key(objs, flat[u]));
            assert(keys[v]@ == entry_key(objs, flat[v]));
            if u < v {
                assert(read_before(flat[u], flat[v]));
            }
        }
    }
    r
}

} // verus!
