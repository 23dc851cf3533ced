//! Loading a dataset from the content of its file.

use crate::json::{
    admits_text, admits_texts, find_member, is_missing, json_document, member, opt_texts,
    optional_text, optional_texts, parse_json, required_text, text_in, texts_in, Json, LoadError,
    Member,
};
use crate::record::{opt_text, Dataset, ExternalReference, KillChainPhase, Record};
use vstd::prelude::*;

verus! {

/// Whether the members have the shape of an external reference: a source
/// name, and optional texts beside it.
pub open spec fn reference_shaped(ms: Seq<Member>) -> bool {
    &&& text_in(member(ms, "source_name"@)) is Some
    &&& admits_text(member(ms, "external_id"@))
    &&& admits_text(member(ms, "url"@))
    &&& admits_text(member(ms, "description"@))
}

/// Whether `r` holds what the members say of an external reference.
pub open spec fn reference_reads(r: ExternalReference, ms: Seq<Member>) -> bool {
    &&& Some(r.source_name@) == text_in(member(ms, "source_name"@))
    &&& opt_text(r.external_id) == text_in(member(ms, "external_id"@))
    &&& opt_text(r.url) == text_in(member(ms, "url"@))
    &&& opt_text(r.description) == text_in(member(ms, "description"@))
}

/// Whether the members have the shape of a kill chain phase: two texts.
pub open spec fn phase_shaped(ms: Seq<Member>) -> bool {
    &&& text_in(member(ms, "kill_chain_name"@)) is Some
    &&& text_in(member(ms, "phase_name"@)) is Some
}

/// Whether `p` holds what the members say of a kill chain phase.
pub open spec fn phase_reads(p: KillChainPhase, ms: Seq<Member>) -> bool {
    &&& Some(p.kill_chain_name@) == text_in(member(ms, "kill_chain_name"@))
    &&& Some(p.phase_name@) == text_in(member(ms, "phase_name"@))
}

/// Reads one external reference.
pub fn read_reference(j: &Json) -> (r: Result<ExternalReference, LoadError>)
    ensures
        match r {
            Ok(x) => is_reference(*j) && reference_reads(x, j->Object_0@),
            Err(e) => e == LoadError::Parse && !is_reference(*j),
        },
{
    match j {
        Json::Object(ms) => {
            let source_name = match required_text(ms, "source_name") {
                Ok(v) => v,
                Err(e) => return Err(e),
            };
            let external_id = match optional_text(ms, "external_id") {
                Ok(v) => v,
                Err(e) => return Err(e),
            };
            let url = match optional_text(ms, "url") {
                Ok(v) => v,
                Err(e) => return Err(e),
            };
            let description = match optional_text(ms, "description") {
                Ok(v) => v,
                Err(e) => return Err(e),
            };
            Ok(ExternalReference { source_name, external_id, url, description })
        },
        _ => Err(LoadError::Parse),
    }
}

/// Reads one kill chain phase.
pub fn read_phase(j: &Json) -> (r: Result<KillChainPhase, LoadError>)
    ensures
        match r {
            Ok(x) => is_phase(*j) && phase_reads(x, j->Object_0@),
            Err(e) => e == LoadError::Parse && !is_phase(*j),
        },
{
    match j {
        Json::Object(ms) => {
            let kill_chain_name = match required_text(ms, "kill_chain_name") {
                Ok(v) => v,
                Err(e) => return Err(e),
            };
            let phase_name = match required_text(ms, "phase_name") {
                Ok(v) => v,
                Err(e) => return Err(e),
            };
            Ok(KillChainPhase { kill_chain_name, phase_name })
        },
        _ => Err(LoadError::Parse),
    }
}

/// Whether a JSON value is an external reference.
pub open spec fn is_reference(j: Json) -> bool {
    j is Object && reference_shaped(j->Object_0@)
}

/// Whether a member can stand for an optional list of references.
pub open spec fn admits_references(f: Option<Json>) -> bool {
    is_missing(f) || (f is Some && f.unwrap() is List && forall|i: int|
        0 <= i < f.unwrap()->List_0@.len() ==> is_reference(#[trigger] f.unwrap()->List_0@[i]))
}

/// Whether `out` holds what the member lists: nothing where the member is
/// absent or null, else one entry for each item, in order.
pub open spec fn references_read(out: Option<Vec<ExternalReference>>, f: Option<Json>) -> bool {
    if is_missing(f) {
        out is None
    } else {
        &&& out is Some
        &&& f.unwrap() is List
        &&& out.unwrap()@.len() == f.unwrap()->List_0@.len()
        &&& forall|i: int|
            0 <= i < out.unwrap()@.len() ==> reference_reads(
                #[trigger] out.unwrap()@[i],
                f.unwrap()->List_0@[i]->Object_0@,
            )
    }
}

/// Reads an optional list of references: absent where the member is absent or
/// null, an error where it is anything but a list of well-formed entries.
pub fn optional_references(ms: &Vec<Member>, key: &str) -> (r: Result<
    Option<Vec<ExternalReference>>,
    LoadError,
>)
    ensures
        match r {
            Ok(v) => admits_references(member(ms@, key@)) && references_read(v, member(ms@, key@)),
            Err(e) => e == LoadError::Parse && !admits_references(member(ms@, key@)),
        },
{
    match find_member(ms, key) {
        None => Ok(None),
        Some(Json::Null) => Ok(None),
        Some(Json::List(items)) => {
            let mut out: Vec<ExternalReference> = Vec::new();
            let mut i: usize = 0;
            while i < items.len()
                invariant
                    i <= items.len(),
                    out.len() == i,
                    member(ms@, key@) == Some(Json::List(*items)),
                    forall|c: int| 0 <= c < i ==> is_reference(#[trigger] items@[c]),
                    forall|c: int|
                        0 <= c < i ==> reference_reads(#[trigger] out@[c], items@[c]->Object_0@),
                decreases items.len() - i,
            {
                match read_reference(&items[i]) {
                    Ok(x) => {
                        out.push(x);
                    },
                    Err(e) => {
                        assert(!is_reference(member(ms@, key@).unwrap()->List_0@[i as int]));
                        return Err(e);
                    },
                }
                i += 1;
            }
            Ok(Some(out))
        },
        Some(_) => Err(LoadError::Parse),
    }
}

/// Whether a JSON value is a kill chain phase.
pub open spec fn is_phase(j: Json) -> bool {
    j is Object && phase_shaped(j->Object_0@)
}

/// Whether a member can stand for an optional list of phases.
pub open spec fn admits_phases(f: Option<Json>) -> bool {
    is_missing(f) || (f is Some && f.unwrap() is List && forall|i: int|
        0 <= i < f.unwrap()->List_0@.len() ==> is_phase(#[trigger] f.unwrap()->List_0@[i]))
}

/// Whether `out` holds what the member lists: nothing where the member is
/// absent or null, else one entry for each item, in order.
pub open spec fn phases_read(out: Option<Vec<KillChainPhase>>, f: Option<Json>) -> bool {
    if is_missing(f) {
        out is None
    } else {
        &&& out is Some
        &&& f.unwrap() is List
        &&& out.unwrap()@.len() == f.unwrap()->List_0@.len()
        &&& forall|i: int|
            0 <= i < out.unwrap()@.len() ==> phase_reads(
                #[trigger] out.unwrap()@[i],
                f.unwrap()->List_0@[i]->Object_0@,
            )
    }
}

/// Reads an optional list of phases: absent where the member is absent or
/// null, an error where it is anything but a list of well-formed entries.
pub fn optional_phases(ms: &Vec<Member>, key: &str) -> (r: Result<
    Option<Vec<KillChainPhase>>,
    LoadError,
>)
    ensures
        match r {
            Ok(v) => admits_phases(member(ms@, key@)) && phases_read(v, member(ms@, key@)),
            Err(e) => e == LoadError::Parse && !admits_phases(member(ms@, key@)),
        },
{
    match find_member(ms, key) {
        None => Ok(None),
        Some(Json::Null) => Ok(None),
        Some(Json::List(items)) => {
            let mut out: Vec<KillChainPhase> = Vec::new();
            let mut i: usize = 0;
            while i < items.len()
                invariant
                    i <= items.len(),
                    out.len() == i,
                    member(ms@, key@) == Some(Json::List(*items)),
                    forall|c: int| 0 <= c < i ==> is_phase(#[trigger] items@[c]),
                    forall|c: int|
                        0 <= c < i ==> phase_reads(#[trigger] out@[c], items@[c]->Object_0@),
                decreases items.len() - i,
            {
                match read_phase(&items[i]) {
                    Ok(x) => {
                        out.push(x);
                    },
                    Err(e) => {
                        assert(!is_phase(member(ms@, key@).unwrap()->List_0@[i as int]));
                        return Err(e);
                    },
                }
                i += 1;
            }
            Ok(Some(out))
        },
        Some(_) => Err(LoadError::Parse),
    }
}

/// Whether the members have the shape of a record: a type name and an id,
/// both texts, and every other member that a record reads either absent,
/// null, or of the form that the record holds. Other members are not looked
/// at.
pub open spec fn record_shaped(ms: Seq<Member>) -> bool {
    &&& text_in(member(ms, "type"@)) is Some
    &&& text_in(member(ms, "id"@)) is Some
    &&& admits_text(member(ms, "name"@))
    &&& admits_text(member(ms, "description"@))
    &&& admits_text(member(ms, "x_mitre_shortname"@))
    &&& admits_text(member(ms, "source_ref"@))
    &&& admits_text(member(ms, "target_ref"@))
    &&& admits_text(member(ms, "relationship_type"@))
    &&& admits_text(member(ms, "x_mitre_detection"@))
    &&& admits_texts(member(ms, "aliases"@))
    &&& admits_texts(member(ms, "x_mitre_platforms"@))
    &&& admits_texts(member(ms, "x_mitre_permissions_required"@))
    &&& admits_texts(member(ms, "x_mitre_data_sources"@))
    &&& admits_references(member(ms, "external_references"@))
    &&& admits_phases(member(ms, "kill_chain_phases"@))
}

/// Whether `r` holds what the members say of a record.
pub open spec fn record_reads(r: Record, ms: Seq<Member>) -> bool {
    &&& Some(r.obj_type@) == text_in(member(ms, "type"@))
    &&& Some(r.id@) == text_in(member(ms, "id"@))
    &&& opt_text(r.name) == text_in(member(ms, "name"@))
    &&& opt_text(r.description) == text_in(member(ms, "description"@))
    &&& opt_text(r.shortname) == text_in(member(ms, "x_mitre_shortname"@))
    &&& opt_text(r.source_ref) == text_in(member(ms, "source_ref"@))
    &&& opt_text(r.target_ref) == text_in(member(ms, "target_ref"@))
    &&& opt_text(r.relationship_type) == text_in(member(ms, "relationship_type"@))
    &&& opt_text(r.detection) == text_in(member(ms, "x_mitre_detection"@))
    &&& opt_texts(r.aliases) == texts_in(member(ms, "aliases"@))
    &&& opt_texts(r.platforms) == texts_in(member(ms, "x_mitre_platforms"@))
    &&& opt_texts(r.permissions_required) == texts_in(member(ms, "x_mitre_permissions_required"@))
    &&& opt_texts(r.data_sources) == texts_in(member(ms, "x_mitre_data_sources"@))
    &&& references_read(r.external_references, member(ms, "external_references"@))
    &&& phases_read(r.kill_chain_phases, member(ms, "kill_chain_phases"@))
}

/// Whether a JSON value is a record.
pub open spec fn is_record(j: Json) -> bool {
    j is Object && record_shaped(j->Object_0@)
}

/// Reads one record.
pub fn read_record(j: &Json) -> (r: Result<Record, LoadError>)
    ensures
        match r {
            Ok(x) => is_record(*j) && record_reads(x, j->Object_0@),
            Err(e) => e == LoadError::Parse && !is_record(*j),
        },
{
    match j {
        Json::Object(ms) => {
            let obj_type = match required_text(ms, "type") {
                Ok(v) => v,
                Err(e) => return Err(e),
            };
            let id = match required_text(ms, "id") {
                Ok(v) => v,
                Err(e) => return Err(e),
            };
            let name = match optional_text(ms, "name") {
                Ok(v) => v,
                Err(e) => return Err(e),
            };
            let description = match optional_text(ms, "description") {
                Ok(v) => v,
                Err(e) => return Err(e),
            };
            let shortname = match optional_text(ms, "x_mitre_shortname") {
                Ok(v) => v,
                Err(e) => return Err(e),
            };
            let source_ref = match optional_text(ms, "source_ref") {
                Ok(v) => v,
                Err(e) => return Err(e),
            };
            let target_ref = match optional_text(ms, "target_ref") {
                Ok(v) => v,
                Err(e) => return Err(e),
            };
            let relationship_type = match optional_text(ms, "relationship_type") {
                Ok(v) => v,
                Err(e) => return Err(e),
            };
            let detection = match optional_text(ms, "x_mitre_detection") {
                Ok(v) => v,
                Err(e) => return Err(e),
            };
            let aliases = match optional_texts(ms, "aliases") {
                Ok(v) => v,
                Err(e) => return Err(e),
            };
            let platforms = match optional_texts(ms, "x_mitre_platforms") {
                Ok(v) => v,
                Err(e) => return Err(e),
            };
            let permissions_required = match optional_texts(ms, "x_mitre_permissions_required") {
                Ok(v) => v,
                Err(e) => return Err(e),
            };
            let data_sources = match optional_texts(ms, "x_mitre_data_sources") {
                Ok(v) => v,
                Err(e) => return Err(e),
            };
            let external_references = match optional_references(ms, "external_references") {
                Ok(v) => v,
                Err(e) => return Err(e),
            };
            let kill_chain_phases = match optional_phases(ms, "kill_chain_phases") {
                Ok(v) => v,
                Err(e) => return Err(e),
            };
            Ok(
                Record {
                    obj_type,
                    id,
                    name,
                    description,
                    external_references,
                    kill_chain_phases,
                    aliases,
                    shortname,
                    source_ref,
                    target_ref,
                    relationship_type,
                    platforms,
                    permissions_required,
                    detection,
                    data_sources,
                },
            )
        },
        _ => Err(LoadError::Parse),
    }
}

/// The items under `objects` of a document, none where the document is no
/// object or holds no list there.
pub open spec fn document_items(doc: Json) -> Option<Seq<Json>> {
    match doc {
        Json::Object(ms) => match member(ms@, "objects"@) {
            Some(Json::List(items)) => Some(items@),
            _ => None,
        },
        _ => None,
    }
}

/// Whether a document is a dataset: an object whose member `objects` is a
/// list of records.
pub open spec fn is_dataset(doc: Json) -> bool {
    document_items(doc) is Some && forall|i: int|
        0 <= i < document_items(doc).unwrap().len() ==> is_record(
            #[trigger] document_items(doc).unwrap()[i],
        )
}

/// Whether `d` holds the records of the document, each in its place.
pub open spec fn dataset_reads(d: Dataset, doc: Json) -> bool {
    &&& document_items(doc) is Some
    &&& d.objects@.len() == document_items(doc).unwrap().len()
    &&& forall|i: int|
        0 <= i < d.objects@.len() ==> record_reads(
            #[trigger] d.objects@[i],
            document_items(doc).unwrap()[i]->Object_0@,
        )
}

/// Reads a dataset from a document: all of its records in order, or an error
/// where the document is no dataset. Nothing is loaded in part.
pub fn read_dataset(doc: &Json) -> (r: Result<Dataset, LoadError>)
    ensures
        match r {
            Ok(d) => is_dataset(*doc) && dataset_reads(d, *doc),
            Err(e) => e == LoadError::Parse && !is_dataset(*doc),
        },
{
    match doc {
        Json::Object(ms) => match find_member(ms, "objects") {
            Some(Json::List(items)) => {
                let mut objects: Vec<Record> = Vec::new();
                let mut i: usize = 0;
                while i < items.len()
                    invariant
                        i <= items.len(),
                        objects.len() == i,
                        document_items(*doc) == Some(items@),
                        forall|c: int| 0 <= c < i ==> is_record(#[trigger] items@[c]),
                        forall|c: int|
                            0 <= c < i ==> record_reads(#[trigger] objects@[c], items@[c]->Object_0@),
                    decreases items.len() - i,
                {
                    match read_record(&items[i]) {
                        Ok(x) => {
                            objects.push(x);
                        },
                        Err(e) => {
                            assert(!is_record(document_items(*doc).unwrap()[i as int]));
                            return Err(e);
                        },
                    }
                    i += 1;
                }
                Ok(Dataset { objects })
            },
            _ => Err(LoadError::Parse),
        },
        _ => Err(LoadError::Parse),
    }
}

/// Whether `r` is what loading the document gives.
pub open spec fn loads_as(r: Result<Dataset, LoadError>, doc: Json) -> bool {
    match r {
        Ok(d) => is_dataset(doc) && dataset_reads(d, doc),
        Err(e) => e == LoadError::Parse && !is_dataset(doc),
    }
}

/// Loads a dataset from the content of its file, `None` standing for a file
/// that does not exist. Fails with `NotFound` for a missing file and with
/// `Parse` where the content is no JSON document or no dataset.
pub fn load(content: Option<&str>) -> (r: Result<Dataset, LoadError>)
    ensures
        match content {
            None => r is Err && r->Err_0 == LoadError::NotFound,
            Some(text) => match json_document(text@) {
                None => r is Err && r->Err_0 == LoadError::Parse,
                Some(doc) => loads_as(r, doc),
            },
        },
{
    match content {
        None => Err(LoadError::NotFound),
        Some(text) => match parse_json(text) {
            Err(_) => Err(LoadError::Parse),
            Ok(doc) => read_dataset(&doc),
        },
    }
}

} // verus!
