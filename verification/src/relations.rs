//! Traversal of the `uses` relationships between groups and techniques.

use crate::record::{opt_text, Dataset, Kind, Record};
use crate::select::{is_selection, lemma_selection_skip, lemma_selection_take};
use crate::text::text_eq;
use vstd::prelude::*;

verus! {

/// Whether `r` is a relationship of type `uses`, with all three of its
/// relationship fields present.
pub open spec fn is_uses(r: Record) -> bool {
    &&& r.spec_kind() == Kind::Relationship
    &&& r.source_ref is Some
    &&& r.target_ref is Some
    &&& r.relationship_type is Some
    &&& r.relationship_type.unwrap()@ == "uses"@
}

/// Whether `r` is a `uses` relationship from `source` to `target`.
pub open spec fn is_uses_edge(r: Record, source: Seq<char>, target: Seq<char>) -> bool {
    &&& is_uses(r)
    &&& r.source_ref.unwrap()@ == source
    &&& r.target_ref.unwrap()@ == target
}

/// Whether the dataset holds a `uses` relationship from `source` to `target`.
pub open spec fn uses_link(objs: Seq<Record>, source: Seq<char>, target: Seq<char>) -> bool {
    exists|k: int| 0 <= k < objs.len() && is_uses_edge(#[trigger] objs[k], source, target)
}

/// Whether the record at `t` is a technique that the group `group_id` uses.
pub open spec fn technique_used_by(objs: Seq<Record>, group_id: Seq<char>, t: int) -> bool {
    &&& 0 <= t < objs.len()
    &&& objs[t].spec_kind() == Kind::Technique
    &&& uses_link(objs, group_id, objs[t].id@)
}

/// Whether the record at `g` is a group that uses the technique `technique_id`.
pub open spec fn group_using(objs: Seq<Record>, technique_id: Seq<char>, g: int) -> bool {
    &&& 0 <= g < objs.len()
    &&& objs[g].spec_kind() == Kind::Group
    &&& uses_link(objs, objs[g].id@, technique_id)
}

/// The positions at which [`technique_used_by`] holds.
pub open spec fn used_by_pred(objs: Seq<Record>, group_id: Seq<char>) -> spec_fn(int) -> bool {
    |t: int| technique_used_by(objs, group_id, t)
}

/// The positions at which [`group_using`] holds.
pub open spec fn using_pred(objs: Seq<Record>, technique_id: Seq<char>) -> spec_fn(int) -> bool {
    |g: int| group_using(objs, technique_id, g)
}

/// The positions of the `uses` relationships that start at `source`.
pub open spec fn from_pred(objs: Seq<Record>, source: Seq<char>) -> spec_fn(int) -> bool {
    |k: int| 0 <= k < objs.len() && is_uses(objs[k]) && objs[k].source_ref.unwrap()@ == source
}

/// The positions of the `uses` relationships that end at `target`.
pub open spec fn to_pred(objs: Seq<Record>, target: Seq<char>) -> spec_fn(int) -> bool {
    |k: int| 0 <= k < objs.len() && is_uses(objs[k]) && objs[k].target_ref.unwrap()@ == target
}

/// Decides [`is_uses`].
fn record_is_uses(r: &Record) -> (b: bool)
    ensures
        b == is_uses(*r),
{
    if r.kind() != Kind::Relationship {
        return false;
    }
    if r.source_ref.is_none() || r.target_ref.is_none() {
        return false;
    }
    match &r.relationship_type {
        Some(t) => text_eq(t.as_str(), "uses"),
        None => false,
    }
}

/// Whether the optional text is present and equal to `wanted`.
fn opt_is(field: &Option<String>, wanted: &str) -> (b: bool)
    ensures
        b == (field is Some && field.unwrap()@ == wanted@),
{
    match field {
        Some(s) => text_eq(s.as_str(), wanted),
        None => false,
    }
}

/// The `uses` relationships that start at `source` (or, with `outgoing`
/// false, that end at it), by position.
fn edges_at(data: &Dataset, end: &str, outgoing: bool) -> (edges: Vec<usize>)
    ensures
        outgoing ==> is_selection(
            edges@,
            data.objects.len() as int,
            from_pred(data.objects@, end@),
        ),
        !outgoing ==> is_selection(
            edges@,
            data.objects.len() as int,
            to_pred(data.objects@, end@),
        ),
{
    let ghost p = if outgoing {
        from_pred(data.objects@, end@)
    } else {
        to_pred(data.objects@, end@)
    };
    let mut edges: Vec<usize> = Vec::new();
    let mut i: usize = 0;
    while i < data.objects.len()
        invariant
            i <= data.objects.len(),
            p == if outgoing {
                from_pred(data.objects@, end@)
            } else {
                to_pred(data.objects@, end@)
            },
            is_selection(edges@, i as int, p),
        decreases data.objects.len() - i,
    {
        let r = &data.objects[i];
        let hit = record_is_uses(r) && if outgoing {
            opt_is(&r.source_ref, end)
        } else {
            opt_is(&r.target_ref, end)
        };
        assert(hit == p(i as int));
        if hit {
            proof {
                lemma_selection_take(edges@, i, p);
            }
            edges.push(i);
        } else {
            proof {
                lemma_selection_skip(edges@, i, p);
            }
        }
        i += 1;
    }
    edges
}

/// Whether one of the listed relationships has `id` at its far end: its
/// target where `outgoing`, else its source.
fn reaches(data: &Dataset, edges: &Vec<usize>, id: &str, outgoing: bool) -> (b: bool)
    requires
        forall|a: int| 0 <= a < edges.len() ==> (#[trigger] edges[a]) < data.objects.len(),
    ensures
        b == exists|a: int|
            0 <= a < edges.len() && if outgoing {
                opt_text(data.objects[(#[trigger] edges[a]) as int].target_ref) == Some(id@)
            } else {
                opt_text(data.objects[edges[a] as int].source_ref) == Some(id@)
            },
{
    let mut a: usize = 0;
    while a < edges.len()
        invariant
            a <= edges.len(),
            forall|c: int| 0 <= c < edges.len() ==> (#[trigger] edges[c]) < data.objects.len(),
            forall|c: int|
                0 <= c < a ==> !(if outgoing {
                    opt_text(data.objects[(#[trigger] edges[c]) as int].target_ref) == Some(id@)
                } else {
                    opt_text(data.objects[edges[c] as int].source_ref) == Some(id@)
                }),
        decreases edges.len() - a,
    {
        let r = &data.objects[edges[a]];
        let hit = if outgoing {
            opt_is(&r.target_ref, id)
        } else {
            opt_is(&r.source_ref, id)
        };
        if hit {
            return true;
        }
        a += 1;
    }
    false
}

/// The techniques that the group with id `group_id` uses: every technique
/// record that is the target of a `uses` relationship whose source is
/// `group_id`, by position, in dataset order. A relationship whose target is
/// no technique of the dataset contributes nothing.
pub fn techniques_used_by(group_id: &str, data: &Dataset) -> (r: Vec<usize>)
    ensures
        is_selection(r@, data.objects.len() as int, used_by_pred(data.objects@, group_id@)),
{
    let edges = edges_at(data, group_id, true);
    let ghost objs = data.objects@;
    let ghost p = used_by_pred(objs, group_id@);
    let ghost e = from_pred(objs, group_id@);
    let mut found: Vec<usize> = Vec::new();
    let mut i: usize = 0;
    while i < data.objects.len()
        invariant
            i <= data.objects.len(),
            objs == data.objects@,
            p == used_by_pred(objs, group_id@),
            e == from_pred(objs, group_id@),
            is_selection(edges@, objs.len() as int, e),
            is_selection(found@, i as int, p),
        decreases data.objects.len() - i,
    {
        let r = &data.objects[i];
        let hit = r.kind() == Kind::Technique && reaches(data, &edges, r.id.as_str(), true);
        proof {
            let id = r.id@;
            if hit {
                let a = choose|a: int|
                    0 <= a < edges.len() && opt_text(
                        objs[(#[trigger] edges[a]) as int].target_ref,
                    ) == Some(id);
                assert(e(edges[a] as int));
                assert(is_uses_edge(objs[edges[a] as int], group_id@, id));
            }
            if p(i as int) {
                let k = choose|k: int|
                    0 <= k < objs.len() && is_uses_edge(#[trigger] objs[k], group_id@, id);
                assert(e(k));
                let a = choose|a: int| 0 <= a < edges.len() && #[trigger] edges[a] == k;
                assert(opt_text(objs[edges[a] as int].target_ref) == Some(id));
            }
            assert(hit == p(i as int));
        }
        if hit {
            proof {
                lemma_selection_take(found@, i, p);
            }
            found.push(i);
        } else {
            proof {
                lemma_selection_skip(found@, i, p);
            }
        }
        i += 1;
    }
    found
}

/// The groups that use the technique with id `technique_id`: every group
/// record that is the source of a `uses` relationship whose target is
/// `technique_id`, by position, in dataset order.
pub fn groups_using(technique_id: &str, data: &Dataset) -> (r: Vec<usize>)
    ensures
        is_selection(r@, data.objects.len() as int, using_pred(data.objects@, technique_id@)),
{
    let edges = edges_at(data, technique_id, false);
    let ghost objs = data.objects@;
    let ghost p = using_pred(objs, technique_id@);
    let ghost e = to_pred(objs, technique_id@);
    let mut found: Vec<usize> = Vec::new();
    let mut i: usize = 0;
    while i < data.objects.len()
        invariant
            i <= data.objects.len(),
            objs == data.objects@,
            p == using_pred(objs, technique_id@),
            e == to_pred(objs, technique_id@),
            is_selection(edges@, objs.len() as int, e),
            is_selection(found@, i as int, p),
        decreases data.objects.len() - i,
    {
        let r = &data.objects[i];
        let hit = r.kind() == Kind::Group && reaches(data, &edges, r.id.as_str(), false);
        proof {
            let id = r.id@;
            if hit {
                let a = choose|a: int|
                    0 <= a < edges.len() && opt_text(
                        objs[(#[trigger] edges[a]) as int].source_ref,
                    ) == Some(id);
                assert(e(edges[a] as int));
                assert(is_uses_edge(objs[edges[a] as int], id, technique_id@));
            }
            if p(i as int) {
                let k = choose|k: int|
                    0 <= k < objs.len() && is_uses_edge(#[trigger] objs[k], id, technique_id@);
                assert(e(k));
                let a = choose|a: int| 0 <= a < edges.len() && #[trigger] edges[a] == k;
                assert(opt_text(objs[edges[a] as int].source_ref) == Some(id));
            }
            assert(hit == p(i as int));
        }
        if hit {
            proof {
                lemma_selection_take(found@, i, p);
            }
            found.push(i);
        } else {
            proof {
                lemma_selection_skip(found@, i, p);
            }
        }
        i += 1;
    }
    found
}

/// The two traversals agree: a technique is among those used by a group
/// exactly when the group is among those using the technique.
pub proof fn lemma_uses_symmetric(objs: Seq<Record>, g: int, t: int)
    requires
        0 <= g < objs.len(),
        0 <= t < objs.len(),
        objs[g].spec_kind() == Kind::Group,
        objs[t].spec_kind() == Kind::Technique,
    ensures
        technique_used_by(objs, objs[g].id@, t) <==> group_using(objs, objs[t].id@, g),
{
}

/// A `uses` relationship from a group to a technique puts the technique among
/// those used by the group and the group among those using the technique.
pub proof fn lemma_edge_links_both(objs: Seq<Record>, k: int, g: int, t: int)
    requires
        0 <= k < objs.len(),
        0 <= g < objs.len(),
        0 <= t < objs.len(),
        objs[g].spec_kind() == Kind::Group,
        objs[t].spec_kind() == Kind::Technique,
        is_uses_edge(objs[k], objs[g].id@, objs[t].id@),
    ensures
        technique_used_by(objs, objs[g].id@, t),
        group_using(objs, objs[t].id@, g),
{
}

/// A `uses` relationship from a group to a technique shows in both results:
/// every list of the techniques used by the group holds the technique, and
/// every list of the groups using the technique holds the group.
pub proof fn lemma_edge_in_both_results(
    objs: Seq<Record>,
    k: int,
    g: int,
    t: int,
    used: Seq<usize>,
    users: Seq<usize>,
)
    requires
        0 <= k < objs.len(),
        0 <= g < objs.len(),
        0 <= t < objs.len(),
        objs[g].spec_kind() == Kind::Group,
        objs[t].spec_kind() == Kind::Technique,
        is_uses_edge(objs[k], objs[g].id@, objs[t].id@),
        is_selection(used, objs.len() as int, used_by_pred(objs, objs[g].id@)),
        is_selection(users, objs.len() as int, using_pred(objs, objs[t].id@)),
    ensures
        exists|a: int| 0 <= a < used.len() && used[a] == t,
        exists|a: int| 0 <= a < users.len() && users[a] == g,
{
    lemma_edge_links_both(objs, k, g, t);
    assert(used_by_pred(objs, objs[g].id@)(t));
    assert(using_pred(objs, objs[t].id@)(g));
}

/// Without a `uses` relationship from a group to a technique neither result
/// shows the other: no list of the techniques used by the group holds the
/// technique, and no list of the groups using the technique holds the group.
pub proof fn lemma_no_edge_in_neither_result(
    objs: Seq<Record>,
    g: int,
    t: int,
    used: Seq<usize>,
    users: Seq<usize>,
)
    requires
        0 <= g < objs.len(),
        0 <= t < objs.len(),
        !uses_link(objs, objs[g].id@, objs[t].id@),
        is_selection(used, objs.len() as int, used_by_pred(objs, objs[g].id@)),
        is_selection(users, objs.len() as int, using_pred(objs, objs[t].id@)),
    ensures
        forall|a: int| 0 <= a < used.len() ==> #[trigger] used[a] != t,
        forall|a: int| 0 <= a < users.len() ==> #[trigger] users[a] != g,
{
    assert forall|a: int| 0 <= a < used.len() implies #[trigger] used[a] != t by {
        assert(used_by_pred(objs, objs[g].id@)(used[a] as int));
    }
    assert forall|a: int| 0 <= a < users.len() implies #[trigger] users[a] != g by {
        assert(using_pred(objs, objs[t].id@)(users[a] as int));
    }
}

/// Removing the only `uses` relationship from `source` to `target` leaves no
/// record with id `target` among the techniques used by `source`, and no
/// record with id `source` among the groups using `target`.
pub proof fn lemma_removing_edge_unlinks(
    objs: Seq<Record>,
    k: int,
    source: Seq<char>,
    target: Seq<char>,
)
    requires
        0 <= k < objs.len(),
        is_uses_edge(objs[k], source, target),
        forall|j: int|
            0 <= j < objs.len() && j != k ==> !is_uses_edge(#[trigger] objs[j], source, target),
    ensures
        !uses_link(objs.remove(k), source, target),
        forall|t: int|
            0 <= t < objs.remove(k).len() && (#[trigger] objs.remove(k)[t]).id@ == target
                ==> !technique_used_by(objs.remove(k), source, t),
        forall|g: int|
            0 <= g < objs.remove(k).len() && (#[trigger] objs.remove(k)[g]).id@ == source
                ==> !group_using(objs.remove(k), target, g),
{
    let rest = objs.remove(k);
    assert forall|j: int| 0 <= j < rest.len() implies !is_uses_edge(
        #[trigger] rest[j],
        source,
        target,
    ) by {
        if j < k {
            assert(rest[j] == objs[j]);
        } else {
            assert(rest[j] == objs[j + 1]);
        }
    }
}

} // verus!
