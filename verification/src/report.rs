//! The queries together with what is shown beside each match.

use crate::order::is_ranking;
use crate::query::{
    by_name, find_groups, find_technique_by_id, find_techniques_by_name, group_match_pred,
    group_matches, groups_using_by_name, technique_id_matches, technique_name_matches,
    technique_name_pred, QueryError,
};
use crate::record::{Dataset, Record};
use crate::relations::{techniques_used_by, used_by_pred, using_pred};
use crate::select::is_selection;
use crate::tactics::{is_tactic_listing, techniques_by_tactic, TacticEntry};
use vstd::prelude::*;

verus! {

/// What is shown of one group.
#[derive(Clone, Debug)]
pub struct GroupReport {
    /// The position of the group in the dataset.
    pub group: usize,
    /// The techniques that the group uses, in dataset order.
    pub techniques: Vec<usize>,
    /// The same techniques under their tactics.
    pub by_tactic: Vec<TacticEntry>,
}

/// What is shown of one technique.
#[derive(Clone, Debug)]
pub struct TechniqueReport {
    /// The position of the technique in the dataset.
    pub technique: usize,
    /// The groups that use the technique, by name.
    pub used_by: Vec<usize>,
}

/// Whether the report holds what belongs to its group.
pub open spec fn group_report_ok(rep: GroupReport, objs: Seq<Record>) -> bool {
    &&& rep.group < objs.len()
    &&& is_selection(
        rep.techniques@,
        objs.len() as int,
        used_by_pred(objs, objs[rep.group as int].id@),
    )
    &&& is_tactic_listing(rep.by_tactic@, objs, objs[rep.group as int].id@)
}

/// Whether the report holds what belongs to its technique.
pub open spec fn technique_report_ok(rep: TechniqueReport, objs: Seq<Record>) -> bool {
    &&& rep.technique < objs.len()
    &&& is_ranking(
        rep.used_by@,
        objs.len() as int,
        using_pred(objs, objs[rep.technique as int].id@),
        by_name(objs),
    )
}

/// The groups of a sequence of reports.
pub open spec fn report_groups(reps: Seq<GroupReport>) -> Seq<usize> {
    Seq::new(reps.len(), |j: int| reps[j].group)
}

/// The techniques of a sequence of reports.
pub open spec fn report_techniques(reps: Seq<TechniqueReport>) -> Seq<usize> {
    Seq::new(reps.len(), |j: int| reps[j].technique)
}

/// The report on the group at position `group`; none where the dataset has
/// no such position.
pub fn group_report(group: usize, data: &Dataset) -> (r: Option<GroupReport>)
    ensures
        match r {
            Some(rep) => rep.group == group && group_report_ok(rep, data.objects@),
            None => group >= data.objects.len(),
        },
{
    if group >= data.objects.len() {
        return None;
    }
    let id = data.objects[group].id.as_str();
    Some(
        GroupReport {
            group,
            techniques: techniques_used_by(id, data),
            by_tactic: techniques_by_tactic(id, data),
        },
    )
}

/// The report on the technique at position `technique`; none where the
/// dataset has no such position.
pub fn technique_report(technique: usize, data: &Dataset) -> (r: Option<TechniqueReport>)
    ensures
        match r {
            Some(rep) => rep.technique == technique && technique_report_ok(rep, data.objects@),
            None => technique >= data.objects.len(),
        },
{
    if technique >= data.objects.len() {
        return None;
    }
    let id = data.objects[technique].id.as_str();
    Some(TechniqueReport { technique, used_by: groups_using_by_name(id, data) })
}

/// Reports on every group whose name or alias contains `query`, letter case
/// aside, in dataset order; `NoMatch` exactly when no group matches.
pub fn show_groups(query: &str, data: &Dataset) -> (r: Result<Vec<GroupReport>, QueryError>)
    ensures
        match r {
            Ok(reps) => {
                &&& reps.len() > 0
                &&& is_selection(
                    report_groups(reps@),
                    data.objects.len() as int,
                    group_match_pred(data.objects@, query@),
                )
                &&& forall|j: int|
                    0 <= j < reps.len() ==> group_report_ok(#[trigger] reps[j], data.objects@)
            },
            Err(e) => e == QueryError::NoMatch && forall|i: int|
                0 <= i < data.objects.len() ==> !group_matches(#[trigger] data.objects[i], query@),
        },
{
    match find_groups(query, data) {
        Err(e) => Err(e),
        Ok(found) => {
            let mut reps: Vec<GroupReport> = Vec::new();
            let mut j: usize = 0;
            while j < found.len()
                invariant
                    j <= found.len(),
                    reps.len() == j,
                    is_selection(
                        found@,
                        data.objects.len() as int,
                        group_match_pred(data.objects@, query@),
                    ),
                    forall|c: int|
                        0 <= c < j ==> (#[trigger] reps[c]).group == found[c] && group_report_ok(
                            reps[c],
                            data.objects@,
                        ),
                decreases found.len() - j,
            {
                assert(found[j as int] < data.objects.len());
                if let Some(rep) = group_report(found[j], data) {
                    reps.push(rep);
                }
                j += 1;
            }
            assert(report_groups(reps@) =~= found@);
            Ok(reps)
        },
    }
}

/// The report on the first technique whose canonical identifier equals the
/// upper-case form of `id`; `NoMatch` exactly when there is none.
pub fn show_technique(id: &str, data: &Dataset) -> (r: Result<TechniqueReport, QueryError>)
    ensures
        match r {
            Ok(rep) => {
                &&& technique_report_ok(rep, data.objects@)
                &&& technique_id_matches(data.objects[rep.technique as int], id@)
                &&& forall|j: int|
                    0 <= j < rep.technique ==> !technique_id_matches(
                        #[trigger] data.objects[j],
                        id@,
                    )
            },
            Err(e) => e == QueryError::NoMatch && forall|j: int|
                0 <= j < data.objects.len() ==> !technique_id_matches(
                    #[trigger] data.objects[j],
                    id@,
                ),
        },
{
    match find_technique_by_id(id, data) {
        Err(e) => Err(e),
        Ok(i) => match technique_report(i, data) {
            Some(rep) => Ok(rep),
            None => Err(QueryError::NoMatch),
        },
    }
}

/// Reports on every technique whose name contains `query`, letter case
/// aside, in dataset order; `NoMatch` exactly when no technique matches.
pub fn show_techniques_by_name(query: &str, data: &Dataset) -> (r: Result<
    Vec<TechniqueReport>,
    QueryError,
>)
    ensures
        match r {
            Ok(reps) => {
                &&& reps.len() > 0
                &&& is_selection(
                    report_techniques(reps@),
                    data.objects.len() as int,
                    technique_name_pred(data.objects@, query@),
                )
                &&& forall|j: int|
                    0 <= j < reps.len() ==> technique_report_ok(#[trigger] reps[j], data.objects@)
            },
            Err(e) => e == QueryError::NoMatch && forall|i: int|
                0 <= i < data.objects.len() ==> !technique_name_matches(
                    #[trigger] data.objects[i],
                    query@,
                ),
        },
{
    match find_techniques_by_name(query, data) {
        Err(e) => Err(e),
        Ok(found) => {
            let mut reps: Vec<TechniqueReport> = Vec::new();
            let mut j: usize = 0;
            while j < found.len()
                invariant
                    j <= found.len(),
                    reps.len() == j,
                    is_selection(
                        found@,
                        data.objects.len() as int,
                        technique_name_pred(data.objects@, query@),
                    ),
                    forall|c: int|
                        0 <= c < j ==> (#[trigger] reps[c]).technique == found[c]
                            && technique_report_ok(reps[c], data.objects@),
                decreases found.len() - j,
            {
                assert(found[j as int] < data.objects.len());
                if let Some(rep) = technique_report(found[j], data) {
                    reps.push(rep);
                }
                j += 1;
            }
            assert(report_techniques(reps@) =~= found@);
            Ok(reps)
        },
    }
}

} // verus!
