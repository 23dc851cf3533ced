//! The records of a dataset and their canonical identifiers.

use crate::text::text_eq;
use vstd::prelude::*;

verus! {

/// The category of a record, decided by its type name.
#[derive(Clone, Copy, Debug, PartialEq, Eq, Structural)]
pub enum Kind {
    /// A threat group (`intrusion-set`).
    Group,
    /// A technique (`attack-pattern`).
    Technique,
    /// A tactic (`x-mitre-tactic`).
    Tactic,
    /// An edge between two records (`relationship`).
    Relationship,
    /// Any other type name; such records are kept and never queried.
    Other,
}

/// The category that a type name stands for.
pub open spec fn kind_of(label: Seq<char>) -> Kind {
    if label == "intrusion-set"@ {
        Kind::Group
    } else if label == "attack-pattern"@ {
        Kind::Technique
    } else if label == "x-mitre-tactic"@ {
        Kind::Tactic
    } else if label == "relationship"@ {
        Kind::Relationship
    } else {
        Kind::Other
    }
}

impl Kind {
    /// Reads a type name.
    pub fn parse(label: &str) -> (k: Kind)
        ensures
            k == kind_of(label@),
    {
        if text_eq(label, "intrusion-set") {
            Kind::Group
        } else if text_eq(label, "attack-pattern") {
            Kind::Technique
        } else if text_eq(label, "x-mitre-tactic") {
            Kind::Tactic
        } else if text_eq(label, "relationship") {
            Kind::Relationship
        } else {
            Kind::Other
        }
    }
}

/// One entry of a record's external references.
#[derive(Clone, Debug)]
pub struct ExternalReference {
    pub source_name: String,
    pub external_id: Option<String>,
    pub url: Option<String>,
    pub description: Option<String>,
}

/// One kill chain phase that a technique belongs to.
#[derive(Clone, Debug)]
pub struct KillChainPhase {
    pub kill_chain_name: String,
    pub phase_name: String,
}

/// One entry of the dataset.
#[derive(Clone, Debug)]
pub struct Record {
    /// The type name as the dataset gives it.
    pub obj_type: String,
    /// The key by which relationships refer to this record.
    pub id: String,
    pub name: Option<String>,
    pub description: Option<String>,
    pub external_references: Option<Vec<ExternalReference>>,
    pub kill_chain_phases: Option<Vec<KillChainPhase>>,
    pub aliases: Option<Vec<String>>,
    pub shortname: Option<String>,
    pub source_ref: Option<String>,
    pub target_ref: Option<String>,
    pub relationship_type: Option<String>,
    pub platforms: Option<Vec<String>>,
    pub permissions_required: Option<Vec<String>>,
    pub detection: Option<String>,
    pub data_sources: Option<Vec<String>>,
}

/// The loaded dataset: its records in the order of the input.
#[derive(Clone, Debug)]
pub struct Dataset {
    pub objects: Vec<Record>,
}

/// The characters of an optional text.
pub open spec fn opt_text(s: Option<String>) -> Option<Seq<char>> {
    match s {
        Some(t) => Some(t@),
        None => None,
    }
}

/// The characters of an optional text, an absent one taken as empty.
pub open spec fn text_or_empty(s: Option<String>) -> Seq<char> {
    match s {
        Some(t) => t@,
        None => Seq::<char>::empty(),
    }
}

/// Whether a source or kill chain name is the authoritative one.
pub open spec fn is_authority(name: Seq<char>) -> bool {
    name == "mitre-attack"@
}

/// The external id of the first reference, in the given order, whose source
/// is the authority; absent when there is no such reference or when that
/// reference carries no id.
pub open spec fn canonical_id_of(refs: Seq<ExternalReference>) -> Option<Seq<char>>
    decreases refs.len(),
{
    if refs.len() == 0 {
        None
    } else if is_authority(refs[0].source_name@) {
        opt_text(refs[0].external_id)
    } else {
        canonical_id_of(refs.drop_first())
    }
}

impl Record {
    /// The category of this record.
    pub open spec fn spec_kind(&self) -> Kind {
        kind_of(self.obj_type@)
    }

    /// The display name, empty where the record has none.
    pub open spec fn name_text(&self) -> Seq<char> {
        text_or_empty(self.name)
    }

    /// The external references, none where the record has no list.
    pub open spec fn references(&self) -> Seq<ExternalReference> {
        match self.external_references {
            Some(v) => v@,
            None => Seq::<ExternalReference>::empty(),
        }
    }

    /// The kill chain phases, none where the record has no list.
    pub open spec fn phases(&self) -> Seq<KillChainPhase> {
        match self.kill_chain_phases {
            Some(v) => v@,
            None => Seq::<KillChainPhase>::empty(),
        }
    }

    /// The alternate names, none where the record has no list.
    pub open spec fn alias_texts(&self) -> Seq<String> {
        match self.aliases {
            Some(v) => v@,
            None => Seq::<String>::empty(),
        }
    }

    /// The canonical identifier of this record.
    pub open spec fn spec_canonical_id(&self) -> Option<Seq<char>> {
        canonical_id_of(self.references())
    }

    /// The category of this record.
    pub fn kind(&self) -> (k: Kind)
        ensures
            k == self.spec_kind(),
    {
        Kind::parse(self.obj_type.as_str())
    }

    /// The canonical identifier: the external id of the first reference whose
    /// source is the authority.
    pub fn canonical_id(&self) -> (r: Option<String>)
        ensures
            opt_text(r) == self.spec_canonical_id(),
    {
        match &self.external_references {
            None => None,
            Some(refs) => {
                let mut i: usize = 0;
                assert(refs@.skip(0) =~= refs@);
                while i < refs.len()
                    invariant
                        i <= refs.len(),
                        self.references() == refs@,
                        canonical_id_of(refs@) == canonical_id_of(refs@.skip(i as int)),
                    decreases refs.len() - i,
                {
                    proof {
                        assert(refs@.skip(i as int).drop_first() =~= refs@.skip(i + 1));
                        assert(refs@.skip(i as int)[0] == refs@[i as int]);
                    }
                    if text_eq(refs[i].source_name.as_str(), "mitre-attack") {
                        let found = match &refs[i].external_id {
                            Some(s) => Some(s.clone()),
                            None => None,
                        };
                        return found;
                    }
                    i += 1;
                }
                None
            },
        }
    }
}

/// The canonical identifier is that of the first authoritative reference,
/// whatever later references say.
pub proof fn lemma_canonical_id_is_first(refs: Seq<ExternalReference>, i: int)
    requires
        0 <= i < refs.len(),
        is_authority(refs[i].source_name@),
        forall|j: int| 0 <= j < i ==> !is_authority(#[trigger] refs[j].source_name@),
    ensures
        canonical_id_of(refs) == opt_text(refs[i].external_id),
    decreases i,
{
    if i > 0 {
        let rest = refs.drop_first();
        assert(rest[i - 1] == refs[i]);
        assert forall|j: int| 0 <= j < i - 1 implies !is_authority(
            #[trigger] rest[j].source_name@,
        ) by {
            assert(rest[j] == refs[j + 1]);
        }
        lemma_canonical_id_is_first(rest, i - 1);
    }
}

/// A record without an authoritative reference has no canonical identifier.
pub proof fn lemma_canonical_id_absent(refs: Seq<ExternalReference>)
    requires
        forall|j: int| 0 <= j < refs.len() ==> !is_authority(#[trigger] refs[j].source_name@),
    ensures
        canonical_id_of(refs) is None,
    decreases refs.len(),
{
    if refs.len() > 0 {
        let rest = refs.drop_first();
        assert forall|j: int| 0 <= j < rest.len() implies !is_authority(
            #[trigger] rest[j].source_name@,
        ) by {
            assert(rest[j] == refs[j + 1]);
        }
        lemma_canonical_id_absent(rest);
    }
}

} // verus!
