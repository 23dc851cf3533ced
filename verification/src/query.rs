//! The queries: which records match, and in what order they are returned.

use crate::order::{arrange, is_ranking, lemma_ranking_all_pairs, SortKey};
use crate::record::{is_authority, Dataset, Kind, Record};
use crate::relations::{groups_using, using_pred};
use crate::select::{is_selection, lemma_selection_skip, lemma_selection_take};
use crate::text::{
    contains_ignore_case, contains_normalized, lemma_lex_asymmetric, lemma_lex_irreflexive, lex_lt,
    matches_fragment, matches_normalized, text_eq, to_upper, uppercase,
};
use vstd::prelude::*;

verus! {

/// Why a query has nothing to show.
#[derive(Clone, Copy, Debug, PartialEq, Eq, Structural)]
pub enum QueryError {
    /// No record matched the query.
    NoMatch,
}

/// The outcome of a tactic search.
#[derive(Clone, Debug)]
pub enum TacticSearch {
    /// At least one tactic matched.
    Found {
        /// The matching tactics, in dataset order.
        tactics: Vec<usize>,
        /// The techniques with a matching phase, by name.
        techniques: Vec<usize>,
    },
    /// No tactic matched.
    NoMatch {
        /// Every tactic of the dataset, by name.
        available: Vec<usize>,
    },
}

/// The positions of the records of one kind.
pub open spec fn kind_pred(objs: Seq<Record>, kind: Kind) -> spec_fn(int) -> bool {
    |i: int| 0 <= i < objs.len() && objs[i].spec_kind() == kind
}

/// The key that ranks records by display name, an absent name as the empty
/// text.
pub open spec fn by_name(objs: Seq<Record>) -> spec_fn(int) -> (Seq<char>, Seq<char>) {
    |i: int| (Seq::<char>::empty(), objs[i].name_text())
}

/// Whether `r` is a group whose name, or one of whose aliases, contains the
/// query, letter case aside.
pub open spec fn group_matches(r: Record, query: Seq<char>) -> bool {
    &&& r.spec_kind() == Kind::Group
    &&& {
        ||| (r.name is Some && matches_fragment(r.name.unwrap()@, query))
        ||| exists|a: int|
            0 <= a < r.alias_texts().len() && matches_fragment(
                (#[trigger] r.alias_texts()[a])@,
                query,
            )
    }
}

/// Whether `r` is a technique whose name contains the query, letter case
/// aside.
pub open spec fn technique_name_matches(r: Record, query: Seq<char>) -> bool {
    &&& r.spec_kind() == Kind::Technique
    &&& r.name is Some
    &&& matches_fragment(r.name.unwrap()@, query)
}

/// Whether `r` is a technique whose canonical identifier is the upper-case
/// form of `id`.
pub open spec fn technique_id_matches(r: Record, id: Seq<char>) -> bool {
    &&& r.spec_kind() == Kind::Technique
    &&& r.spec_canonical_id() == Some(uppercase(id))
}

/// Whether `r` is a tactic whose name or short name contains the query, both
/// in normal form.
pub open spec fn tactic_matches(r: Record, query: Seq<char>) -> bool {
    &&& r.spec_kind() == Kind::Tactic
    &&& {
        ||| (r.name is Some && matches_normalized(r.name.unwrap()@, query))
        ||| (r.shortname is Some && matches_normalized(r.shortname.unwrap()@, query))
    }
}

/// Whether `r` is a technique with an authoritative kill chain phase whose
/// name contains the query, both in normal form.
pub open spec fn technique_in_tactic(r: Record, query: Seq<char>) -> bool {
    &&& r.spec_kind() == Kind::Technique
    &&& exists|p: int|
        0 <= p < r.phases().len() && is_authority((#[trigger] r.phases()[p]).kill_chain_name@)
            && matches_normalized(r.phases()[p].phase_name@, query)
}

/// The positions at which [`group_matches`] holds.
pub open spec fn group_match_pred(objs: Seq<Record>, query: Seq<char>) -> spec_fn(int) -> bool {
    |i: int| 0 <= i < objs.len() && group_matches(objs[i], query)
}

/// The positions at which [`technique_name_matches`] holds.
pub open spec fn technique_name_pred(objs: Seq<Record>, query: Seq<char>) -> spec_fn(int) -> bool {
    |i: int| 0 <= i < objs.len() && technique_name_matches(objs[i], query)
}

/// The positions at which [`tactic_matches`] holds.
pub open spec fn tactic_match_pred(objs: Seq<Record>, query: Seq<char>) -> spec_fn(int) -> bool {
    |i: int| 0 <= i < objs.len() && tactic_matches(objs[i], query)
}

/// The positions at which [`technique_in_tactic`] holds.
pub open spec fn technique_in_tactic_pred(objs: Seq<Record>, query: Seq<char>) -> spec_fn(
    int,
) -> bool {
    |i: int| 0 <= i < objs.len() && technique_in_tactic(objs[i], query)
}

/// In a list ranked by name the names ascend: no record has a name that
/// comes before the name of a record listed earlier.
pub proof fn lemma_names_ascend(
    r: Seq<usize>,
    objs: Seq<Record>,
    pred: spec_fn(int) -> bool,
    a: int,
    b: int,
)
    requires
        is_ranking(r, objs.len() as int, pred, by_name(objs)),
        0 <= a < b < r.len(),
    ensures
        !lex_lt(objs[r[b] as int].name_text(), objs[r[a] as int].name_text()),
{
    lemma_ranking_all_pairs(r, objs.len() as int, pred, by_name(objs), a, b);
    let na = objs[r[a] as int].name_text();
    let nb = objs[r[b] as int].name_text();
    lemma_lex_irreflexive(Seq::<char>::empty());
    if lex_lt(na, nb) {
        lemma_lex_asymmetric(na, nb);
    }
}

/// In a list ranked by name a record without a name stands before every
/// record with a non-empty name.
pub proof fn lemma_unnamed_first(
    r: Seq<usize>,
    objs: Seq<Record>,
    pred: spec_fn(int) -> bool,
    a: int,
    b: int,
)
    requires
        is_ranking(r, objs.len() as int, pred, by_name(objs)),
        0 <= a < r.len(),
        0 <= b < r.len(),
        objs[r[a] as int].name is None,
        objs[r[b] as int].name_text().len() > 0,
    ensures
        a < b,
{
    if b < a {
        lemma_names_ascend(r, objs, pred, b, a);
    }
}

/// The first match is determined: two positions that each hold the first
/// technique with the wanted identifier are the same position.
pub proof fn lemma_first_match_unique(objs: Seq<Record>, id: Seq<char>, i: int, j: int)
    requires
        0 <= i < objs.len(),
        0 <= j < objs.len(),
        technique_id_matches(objs[i], id),
        technique_id_matches(objs[j], id),
        forall|k: int| 0 <= k < i ==> !technique_id_matches(#[trigger] objs[k], id),
        forall|k: int| 0 <= k < j ==> !technique_id_matches(#[trigger] objs[k], id),
    ensures
        i == j,
{
}

/// Decides [`group_matches`].
pub fn is_group_match(r: &Record, query: &str) -> (b: bool)
    ensures
        b == group_matches(*r, query@),
{
    if r.kind() != Kind::Group {
        return false;
    }
    if let Some(name) = &r.name {
        if contains_ignore_case(name.as_str(), query) {
            return true;
        }
    }
    match &r.aliases {
        None => false,
        Some(aliases) => {
            let mut a: usize = 0;
            while a < aliases.len()
                invariant
                    a <= aliases.len(),
                    r.alias_texts() == aliases@,
                    r.spec_kind() == Kind::Group,
                    !(r.name is Some && matches_fragment(r.name.unwrap()@, query@)),
                    forall|c: int| 0 <= c < a ==> !matches_fragment((#[trigger] aliases@[c])@, query@),
                decreases aliases.len() - a,
            {
                if contains_ignore_case(aliases[a].as_str(), query) {
                    assert(matches_fragment(r.alias_texts()[a as int]@, query@));
                    return true;
                }
                a += 1;
            }
            false
        },
    }
}

/// Decides [`technique_name_matches`].
pub fn is_technique_name_match(r: &Record, query: &str) -> (b: bool)
    ensures
        b == technique_name_matches(*r, query@),
{
    if r.kind() != Kind::Technique {
        return false;
    }
    match &r.name {
        Some(name) => contains_ignore_case(name.as_str(), query),
        None => false,
    }
}

/// Decides [`tactic_matches`].
pub fn is_tactic_match(r: &Record, query: &str) -> (b: bool)
    ensures
        b == tactic_matches(*r, query@),
{
    if r.kind() != Kind::Tactic {
        return false;
    }
    if let Some(name) = &r.name {
        if contains_normalized(name.as_str(), query) {
            return true;
        }
    }
    match &r.shortname {
        Some(short) => contains_normalized(short.as_str(), query),
        None => false,
    }
}

/// Decides [`technique_in_tactic`].
pub fn is_technique_in_tactic(r: &Record, query: &str) -> (b: bool)
    ensures
        b == technique_in_tactic(*r, query@),
{
    if r.kind() != Kind::Technique {
        return false;
    }
    match &r.kill_chain_phases {
        None => false,
        Some(phases) => {
            let mut p: usize = 0;
            while p < phases.len()
                invariant
                    p <= phases.len(),
                    r.phases() == phases@,
                    r.spec_kind() == Kind::Technique,
                    forall|c: int|
                        0 <= c < p ==> !(is_authority((#[trigger] phases@[c]).kill_chain_name@)
                            && matches_normalized(phases@[c].phase_name@, query@)),
                decreases phases.len() - p,
            {
                if text_eq(phases[p].kill_chain_name.as_str(), "mitre-attack")
                    && contains_normalized(phases[p].phase_name.as_str(), query) {
                    assert(is_authority(r.phases()[p as int].kill_chain_name@));
                    return true;
                }
                p += 1;
            }
            false
        },
    }
}

/// The key of a record under [`by_name`].
fn name_key(r: &Record) -> (k: SortKey)
    ensures
        k@ == (Seq::<char>::empty(), r.name_text()),
{
    let minor = match &r.name {
        Some(s) => s.clone(),
        None => String::new(),
    };
    SortKey { major: String::new(), minor }
}

/// Arranges a selection of records by display name.
fn rank_by_name(sel: &Vec<usize>, data: &Dataset, Ghost(pred): Ghost<spec_fn(int) -> bool>) -> (r:
    Vec<usize>)
    requires
        is_selection(sel@, data.objects.len() as int, pred),
    ensures
        is_ranking(r@, data.objects.len() as int, pred, by_name(data.objects@)),
{
    let ghost key = by_name(data.objects@);
    let mut keys: Vec<SortKey> = Vec::new();
    let mut j: usize = 0;
    while j < sel.len()
        invariant
            j <= sel.len(),
            keys.len() == j,
            key == by_name(data.objects@),
            is_selection(sel@, data.objects.len() as int, pred),
            forall|c: int| 0 <= c < j ==> (#[trigger] keys[c])@ == key(sel[c] as int),
        decreases sel.len() - j,
    {
        let k = name_key(&data.objects[sel[j]]);
        keys.push(k);
        j += 1;
    }
    arrange(sel, &keys, Ghost(data.objects.len() as int), Ghost(pred), Ghost(key))
}

/// The records of one kind, by position, in dataset order.
pub fn select_kind(data: &Dataset, kind: Kind) -> (sel: Vec<usize>)
    ensures
        is_selection(sel@, data.objects.len() as int, kind_pred(data.objects@, kind)),
{
    let ghost p = kind_pred(data.objects@, kind);
    let mut sel: Vec<usize> = Vec::new();
    let mut i: usize = 0;
    while i < data.objects.len()
        invariant
            i <= data.objects.len(),
            p == kind_pred(data.objects@, kind),
            is_selection(sel@, i as int, p),
        decreases data.objects.len() - i,
    {
        let hit = data.objects[i].kind() == kind;
        assert(hit == p(i as int));
        if hit {
            proof {
                lemma_selection_take(sel@, i, p);
            }
            sel.push(i);
        } else {
            proof {
                lemma_selection_skip(sel@, i, p);
            }
        }
        i += 1;
    }
    sel
}

/// Every group of the dataset, ascending by name; a group without a name
/// ranks as one with the empty name, and groups of equal name keep their
/// dataset order. An empty dataset gives an empty list.
pub fn list_groups(data: &Dataset) -> (r: Vec<usize>)
    ensures
        is_ranking(
            r@,
            data.objects.len() as int,
            kind_pred(data.objects@, Kind::Group),
            by_name(data.objects@),
        ),
{
    let sel = select_kind(data, Kind::Group);
    rank_by_name(&sel, data, Ghost(kind_pred(data.objects@, Kind::Group)))
}

/// Every tactic of the dataset, ascending by name.
pub fn list_tactics(data: &Dataset) -> (r: Vec<usize>)
    ensures
        is_ranking(
            r@,
            data.objects.len() as int,
            kind_pred(data.objects@, Kind::Tactic),
            by_name(data.objects@),
        ),
{
    let sel = select_kind(data, Kind::Tactic);
    rank_by_name(&sel, data, Ghost(kind_pred(data.objects@, Kind::Tactic)))
}

/// The groups whose name or alias contains `query`, letter case aside: all of
/// them, in dataset order; `NoMatch` exactly when there is none.
pub fn find_groups(query: &str, data: &Dataset) -> (r: Result<Vec<usize>, QueryError>)
    ensures
        match r {
            Ok(found) => found.len() > 0 && is_selection(
                found@,
                data.objects.len() as int,
                group_match_pred(data.objects@, query@),
            ),
            Err(e) => e == QueryError::NoMatch && forall|i: int|
                0 <= i < data.objects.len() ==> !group_matches(#[trigger] data.objects[i], query@),
        },
{
    let ghost p = group_match_pred(data.objects@, query@);
    let mut sel: Vec<usize> = Vec::new();
    let mut i: usize = 0;
    while i < data.objects.len()
        invariant
            i <= data.objects.len(),
            p == group_match_pred(data.objects@, query@),
            is_selection(sel@, i as int, p),
        decreases data.objects.len() - i,
    {
        let hit = is_group_match(&data.objects[i], query);
        assert(hit == p(i as int));
        if hit {
            proof {
                lemma_selection_take(sel@, i, p);
            }
            sel.push(i);
        } else {
            proof {
                lemma_selection_skip(sel@, i, p);
            }
        }
        i += 1;
    }
    if sel.len() == 0 {
        proof {
            assert forall|i: int| 0 <= i < data.objects.len() implies !group_matches(
                #[trigger] data.objects[i],
                query@,
            ) by {
                if group_matches(data.objects[i], query@) {
                    assert(p(i));
                }
            }
        }
        Err(QueryError::NoMatch)
    } else {
        Ok(sel)
    }
}

/// The techniques whose name contains `query`, letter case aside: all of
/// them, in dataset order; `NoMatch` exactly when there is none.
pub fn find_techniques_by_name(query: &str, data: &Dataset) -> (r: Result<Vec<usize>, QueryError>)
    ensures
        match r {
            Ok(found) => found.len() > 0 && is_selection(
                found@,
                data.objects.len() as int,
                technique_name_pred(data.objects@, query@),
            ),
            Err(e) => e == QueryError::NoMatch && forall|i: int|
                0 <= i < data.objects.len() ==> !technique_name_matches(
                    #[trigger] data.objects[i],
                    query@,
                ),
        },
{
    let ghost p = technique_name_pred(data.objects@, query@);
    let mut sel: Vec<usize> = Vec::new();
    let mut i: usize = 0;
    while i < data.objects.len()
        invariant
            i <= data.objects.len(),
            p == technique_name_pred(data.objects@, query@),
            is_selection(sel@, i as int, p),
        decreases data.objects.len() - i,
    {
        let hit = is_technique_name_match(&data.objects[i], query);
        assert(hit == p(i as int));
        if hit {
            proof {
                lemma_selection_take(sel@, i, p);
            }
            sel.push(i);
        } else {
            proof {
                lemma_selection_skip(sel@, i, p);
            }
        }
        i += 1;
    }
    if sel.len() == 0 {
        proof {
            assert forall|i: int| 0 <= i < data.objects.len() implies !technique_name_matches(
                #[trigger] data.objects[i],
                query@,
            ) by {
                if technique_name_matches(data.objects[i], query@) {
                    assert(p(i));
                }
            }
        }
        Err(QueryError::NoMatch)
    } else {
        Ok(sel)
    }
}

/// The first technique, in dataset order, whose canonical identifier equals
/// the upper-case form of `id`; `NoMatch` exactly when there is none.
pub fn find_technique_by_id(id: &str, data: &Dataset) -> (r: Result<usize, QueryError>)
    ensures
        match r {
            Ok(i) => i < data.objects.len() && technique_id_matches(data.objects[i as int], id@)
                && forall|j: int|
                0 <= j < i ==> !technique_id_matches(#[trigger] data.objects[j], id@),
            Err(e) => e == QueryError::NoMatch && forall|j: int|
                0 <= j < data.objects.len() ==> !technique_id_matches(
                    #[trigger] data.objects[j],
                    id@,
                ),
        },
{
    let wanted = to_upper(id);
    let mut i: usize = 0;
    while i < data.objects.len()
        invariant
            i <= data.objects.len(),
            wanted@ == uppercase(id@),
            forall|j: int| 0 <= j < i ==> !technique_id_matches(#[trigger] data.objects[j], id@),
        decreases data.objects.len() - i,
    {
        let r = &data.objects[i];
        if r.kind() == Kind::Technique {
            if let Some(found) = r.canonical_id() {
                if text_eq(found.as_str(), wanted.as_str()) {
                    return Ok(i);
                }
            }
        }
        i += 1;
    }
    Err(QueryError::NoMatch)
}

/// The groups that use the technique with id `technique_id`, ascending by
/// name.
pub fn groups_using_by_name(technique_id: &str, data: &Dataset) -> (r: Vec<usize>)
    ensures
        is_ranking(
            r@,
            data.objects.len() as int,
            using_pred(data.objects@, technique_id@),
            by_name(data.objects@),
        ),
{
    let sel = groups_using(technique_id, data);
    rank_by_name(&sel, data, Ghost(using_pred(data.objects@, technique_id@)))
}

/// The techniques with an authoritative phase whose name contains `query` in
/// normal form, ascending by name. Which tactics match plays no part.
pub fn techniques_in_tactic(query: &str, data: &Dataset) -> (r: Vec<usize>)
    ensures
        is_ranking(
            r@,
            data.objects.len() as int,
            technique_in_tactic_pred(data.objects@, query@),
            by_name(data.objects@),
        ),
{
    let ghost p = technique_in_tactic_pred(data.objects@, query@);
    let mut sel: Vec<usize> = Vec::new();
    let mut i: usize = 0;
    while i < data.objects.len()
        invariant
            i <= data.objects.len(),
            p == technique_in_tactic_pred(data.objects@, query@),
            is_selection(sel@, i as int, p),
        decreases data.objects.len() - i,
    {
        let hit = is_technique_in_tactic(&data.objects[i], query);
        assert(hit == p(i as int));
        if hit {
            proof {
                lemma_selection_take(sel@, i, p);
            }
            sel.push(i);
        } else {
            proof {
                lemma_selection_skip(sel@, i, p);
            }
        }
        i += 1;
    }
    rank_by_name(&sel, data, Ghost(p))
}

/// Searches the tactics by a fragment of their name or short name, compared
/// in normal form. Where a tactic matches, the result holds every matching
/// tactic in dataset order and the techniques of [`techniques_in_tactic`];
/// where none does, it holds every tactic of the dataset by name.
pub fn find_tactics(query: &str, data: &Dataset) -> (r: TacticSearch)
    ensures
        match r {
            TacticSearch::Found { tactics, techniques } => {
                &&& tactics.len() > 0
                &&& is_selection(
                    tactics@,
                    data.objects.len() as int,
                    tactic_match_pred(data.objects@, query@),
                )
                &&& is_ranking(
                    techniques@,
                    data.objects.len() as int,
                    technique_in_tactic_pred(data.objects@, query@),
                    by_name(data.objects@),
                )
            },
            TacticSearch::NoMatch { available } => {
                &&& forall|i: int|
                    0 <= i < data.objects.len() ==> !tactic_matches(
                        #[trigger] data.objects[i],
                        query@,
                    )
                &&& is_ranking(
                    available@,
                    data.objects.len() as int,
                    kind_pred(data.objects@, Kind::Tactic),
                    by_name(data.objects@),
                )
            },
        },
{
    let ghost p = tactic_match_pred(data.objects@, query@);
    let mut sel: Vec<usize> = Vec::new();
    let mut i: usize = 0;
    while i < data.objects.len()
        invariant
            i <= data.objects.len(),
            p == tactic_match_pred(data.objects@, query@),
            is_selection(sel@, i as int, p),
        decreases data.objects.len() - i,
    {
        let hit = is_tactic_match(&data.objects[i], query);
        assert(hit == p(i as int));
        if hit {
            proof {
                lemma_selection_take(sel@, i, p);
            }
            sel.push(i);
        } else {
            proof {
                lemma_selection_skip(sel@, i, p);
            }
        }
        i += 1;
    }
    if sel.len() == 0 {
        proof {
            assert forall|i: int| 0 <= i < data.objects.len() implies !tactic_matches(
                #[trigger] data.objects[i],
                query@,
            ) by {
                if tactic_matches(data.objects[i], query@) {
                    assert(p(i));
                }
            }
        }
        TacticSearch::NoMatch { available: list_tactics(data) }
    } else {
        let techniques = techniques_in_tactic(query, data);
        TacticSearch::Found { tactics: sel, techniques }
    }
}

} // verus!
