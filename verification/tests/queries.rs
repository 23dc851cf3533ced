use attcli::order::{key_lt, sorted_order, SortKey};
use attcli::query::{
    find_groups, find_tactics, find_technique_by_id, find_techniques_by_name,
    groups_using_by_name, is_group_match, list_groups, list_tactics, select_kind,
    techniques_in_tactic, QueryError, TacticSearch,
};
use attcli::record::{Dataset, ExternalReference, KillChainPhase, Kind, Record};
use attcli::relations::{groups_using, techniques_used_by};
use attcli::report::{
    group_report, show_groups, show_technique, show_techniques_by_name, technique_report,
};
use attcli::tactics::techniques_by_tactic;
use attcli::text::{contains_ignore_case, contains_normalized, normalize, title_case};

fn blank(obj_type: &str, id: &str) -> Record {
    Record {
        obj_type: obj_type.to_string(),
        id: id.to_string(),
        name: None,
        description: None,
        external_references: None,
        kill_chain_phases: None,
        aliases: None,
        shortname: None,
        source_ref: None,
        target_ref: None,
        relationship_type: None,
        platforms: None,
        permissions_required: None,
        detection: None,
        data_sources: None,
    }
}

fn named(obj_type: &str, id: &str, name: &str) -> Record {
    let mut r = blank(obj_type, id);
    r.name = Some(name.to_string());
    r
}

fn group(id: &str, name: &str) -> Record {
    named("intrusion-set", id, name)
}

fn reference(source: &str, external_id: Option<&str>) -> ExternalReference {
    ExternalReference {
        source_name: source.to_string(),
        external_id: external_id.map(|s| s.to_string()),
        url: None,
        description: None,
    }
}

fn phase(chain: &str, name: &str) -> KillChainPhase {
    KillChainPhase { kill_chain_name: chain.to_string(), phase_name: name.to_string() }
}

fn technique(id: &str, name: &str, mitre: &str, phases: &[&str]) -> Record {
    let mut r = named("attack-pattern", id, name);
    r.external_references = Some(vec![reference("mitre-attack", Some(mitre))]);
    r.kill_chain_phases = Some(phases.iter().map(|p| phase("mitre-attack", p)).collect());
    r
}

fn tactic(id: &str, name: &str, shortname: &str) -> Record {
    let mut r = named("x-mitre-tactic", id, name);
    r.shortname = Some(shortname.to_string());
    r
}

fn edge(id: &str, source: &str, target: &str, kind: &str) -> Record {
    let mut r = blank("relationship", id);
    r.source_ref = Some(source.to_string());
    r.target_ref = Some(target.to_string());
    r.relationship_type = Some(kind.to_string());
    r
}

fn sample() -> Dataset {
    Dataset {
        objects: vec![
            group("G1", "Sandworm"),                                                  // 0
            technique("T1", "Process Injection", "T1055", &["privilege-escalation", "defense-evasion"]), // 1
            edge("R1", "G1", "T1", "uses"),                                           // 2
            technique("T2", "Account Discovery", "T1087", &["discovery"]),            // 3
            edge("R2", "G1", "T2", "uses"),                                           // 4
            group("G2", "APT29"),                                                     // 5
            edge("R3", "G2", "T1", "uses"),                                           // 6
            tactic("TA1", "Privilege Escalation", "privilege-escalation"),            // 7
            tactic("TA2", "Discovery", "discovery"),                                  // 8
            technique("T3", "Access Token Manipulation", "T1134", &["privilege-escalation"]), // 9
            edge("R4", "G1", "T3", "mitigates"),                                      // 10
            blank("marking-definition", "M1"),                                        // 11
        ],
    }
}

fn key(major: &str, minor: &str) -> SortKey {
    SortKey { major: major.to_string(), minor: minor.to_string() }
}

#[test]
fn kind_is_read_from_the_type_name() {
    assert_eq!(Kind::parse("intrusion-set"), Kind::Group);
    assert_eq!(Kind::parse("attack-pattern"), Kind::Technique);
    assert_eq!(Kind::parse("x-mitre-tactic"), Kind::Tactic);
    assert_eq!(Kind::parse("relationship"), Kind::Relationship);
    assert_eq!(Kind::parse("malware"), Kind::Other);
    assert_eq!(Kind::parse("Intrusion-Set"), Kind::Other);
    assert_eq!(group("G", "x").kind(), Kind::Group);
}

#[test]
fn canonical_id_takes_the_first_authoritative_reference() {
    let mut r = blank("attack-pattern", "T");
    r.external_references = Some(vec![
        reference("capec", Some("CAPEC-1")),
        reference("mitre-attack", Some("T1055")),
        reference("mitre-attack", Some("T9999")),
    ]);
    assert_eq!(r.canonical_id(), Some("T1055".to_string()));
}

#[test]
fn canonical_id_is_absent_without_an_authoritative_reference() {
    let mut r = blank("attack-pattern", "T");
    assert_eq!(r.canonical_id(), None);
    r.external_references = Some(vec![]);
    assert_eq!(r.canonical_id(), None);
    r.external_references = Some(vec![reference("capec", Some("CAPEC-1"))]);
    assert_eq!(r.canonical_id(), None);
}

#[test]
fn canonical_id_is_absent_when_the_first_match_has_no_id() {
    let mut r = blank("attack-pattern", "T");
    r.external_references =
        Some(vec![reference("mitre-attack", None), reference("mitre-attack", Some("T1"))]);
    assert_eq!(r.canonical_id(), None);
}

#[test]
fn list_groups_is_sorted_by_name() {
    let data = sample();
    assert_eq!(list_groups(&data), vec![5, 0]);
}

#[test]
fn list_groups_puts_an_absent_name_first_and_keeps_ties_in_order() {
    let data = Dataset {
        objects: vec![
            group("G1", "b"),
            group("G2", "a"),
            blank("intrusion-set", "G3"),
            group("G4", "a"),
            group("G5", "B"),
            technique("T1", "0", "T1", &[]),
        ],
    };
    assert_eq!(list_groups(&data), vec![2, 4, 1, 3, 0]);
}

#[test]
fn list_groups_of_an_empty_dataset_is_empty() {
    let data = Dataset { objects: vec![] };
    assert_eq!(list_groups(&data), Vec::<usize>::new());
    assert_eq!(list_tactics(&data), Vec::<usize>::new());
}

#[test]
fn select_kind_keeps_dataset_order() {
    let data = sample();
    assert_eq!(select_kind(&data, Kind::Technique), vec![1, 3, 9]);
    assert_eq!(select_kind(&data, Kind::Relationship), vec![2, 4, 6, 10]);
    assert_eq!(select_kind(&data, Kind::Other), vec![11]);
}

#[test]
fn substring_match_ignores_case() {
    assert!(contains_ignore_case("APT29", "apt29"));
    assert!(contains_ignore_case("Cozy Bear (APT29)", "Apt2"));
    assert!(contains_ignore_case("anything", ""));
    assert!(!contains_ignore_case("APT28", "apt29"));
    let data = sample();
    assert_eq!(find_groups("apt29", &data), Ok(vec![5]));
}

#[test]
fn find_groups_matches_aliases_and_returns_every_match() {
    let mut data = sample();
    data.objects[0].aliases = Some(vec!["Voodoo Bear".to_string(), "TeleBots".to_string()]);
    data.objects[5].aliases = Some(vec!["Cozy Bear".to_string()]);
    assert_eq!(find_groups("BEAR", &data), Ok(vec![0, 5]));
    assert_eq!(find_groups("telebots", &data), Ok(vec![0]));
    assert!(is_group_match(&data.objects[5], "cozy"));
    assert!(!is_group_match(&data.objects[1], "process"));
}

#[test]
fn find_groups_without_a_match_is_no_match() {
    let data = sample();
    assert_eq!(find_groups("lazarus", &data), Err(QueryError::NoMatch));
    assert_eq!(find_groups("process", &data), Err(QueryError::NoMatch));
}

#[test]
fn traversal_is_symmetric() {
    let data = sample();
    assert_eq!(techniques_used_by("G1", &data), vec![1, 3]);
    assert_eq!(techniques_used_by("G2", &data), vec![1]);
    assert_eq!(groups_using("T1", &data), vec![0, 5]);
    assert_eq!(groups_using("T2", &data), vec![0]);
    assert_eq!(groups_using("T3", &data), Vec::<usize>::new());
}

#[test]
fn removing_a_relationship_removes_both_directions() {
    let mut data = sample();
    data.objects.remove(6);
    assert_eq!(techniques_used_by("G2", &data), Vec::<usize>::new());
    assert_eq!(groups_using("T1", &data), vec![0]);
}

#[test]
fn dangling_and_incomplete_relationships_match_nothing() {
    let mut data = sample();
    data.objects.push(edge("R9", "G1", "T404", "uses"));
    let mut half = blank("relationship", "R10");
    half.source_ref = Some("G2".to_string());
    half.relationship_type = Some("uses".to_string());
    data.objects.push(half);
    let mut not_an_edge = edge("R11", "G2", "T2", "uses");
    not_an_edge.obj_type = "note".to_string();
    data.objects.push(not_an_edge);
    assert_eq!(techniques_used_by("G1", &data), vec![1, 3]);
    assert_eq!(techniques_used_by("G2", &data), vec![1]);
    assert_eq!(groups_using("T404", &data), vec![0]);
    assert_eq!(groups_using("G1", &data), Vec::<usize>::new());
    assert_eq!(techniques_used_by("G404", &data), Vec::<usize>::new());
}

#[test]
fn tactic_names_normalize_alike() {
    assert_eq!(normalize("privilege-escalation"), "privilege_escalation");
    assert_eq!(normalize("Privilege Escalation"), "privilege_escalation");
    assert_eq!(normalize("privilege_escalation"), "privilege_escalation");
    assert_eq!(normalize(""), "");
    assert!(contains_normalized("Privilege Escalation", "privilege-esc"));
    assert!(!contains_normalized("Discovery", "privilege"));
    let data = sample();
    let a = find_tactics("privilege-escalation", &data);
    let b = find_tactics("Privilege Escalation", &data);
    let c = find_tactics("privilege_escalation", &data);
    for r in [a, b, c] {
        match r {
            TacticSearch::Found { tactics, techniques } => {
                assert_eq!(tactics, vec![7]);
                assert_eq!(techniques, vec![9, 1]);
            }
            TacticSearch::NoMatch { .. } => panic!("a tactic matches"),
        }
    }
}

#[test]
fn phase_names_are_title_cased() {
    assert_eq!(title_case("privilege-escalation"), "Privilege Escalation");
    assert_eq!(title_case("command-and-control"), "Command And Control");
    assert_eq!(title_case("discovery"), "Discovery");
    assert_eq!(title_case("  lateral \t movement-"), "Lateral Movement");
    assert_eq!(title_case("Initial-ACCESS"), "Initial ACCESS");
    assert_eq!(title_case(""), "");
    assert_eq!(title_case("\u{df}x"), "SSx");
}

#[test]
fn technique_is_found_by_id_whatever_the_case() {
    let data = sample();
    assert_eq!(find_technique_by_id("t1055", &data), Ok(1));
    assert_eq!(find_technique_by_id("T1087", &data), Ok(3));
    assert_eq!(find_technique_by_id("T105", &data), Err(QueryError::NoMatch));
    assert_eq!(find_technique_by_id("", &data), Err(QueryError::NoMatch));
}

#[test]
fn technique_by_id_returns_the_first_of_several() {
    let mut data = sample();
    data.objects.push(technique("T1b", "Duplicate", "T1055", &[]));
    let mut g = group("G9", "Named like an id");
    g.external_references = Some(vec![reference("mitre-attack", Some("G0001"))]);
    data.objects.insert(0, g);
    assert_eq!(find_technique_by_id("T1055", &data), Ok(2));
    assert_eq!(find_technique_by_id("G0001", &data), Err(QueryError::NoMatch));
}

#[test]
fn techniques_are_found_by_name_fragment() {
    let data = sample();
    assert_eq!(find_techniques_by_name("acc", &data), Ok(vec![3, 9]));
    assert_eq!(find_techniques_by_name("INJECTION", &data), Ok(vec![1]));
    assert_eq!(find_techniques_by_name("sandworm", &data), Err(QueryError::NoMatch));
}

#[test]
fn groups_using_a_technique_come_by_name() {
    let data = sample();
    assert_eq!(groups_using_by_name("T1", &data), vec![5, 0]);
    assert_eq!(groups_using_by_name("T3", &data), Vec::<usize>::new());
}

#[test]
fn sandworm_uses_process_injection() {
    let data = Dataset {
        objects: vec![
            group("G1", "Sandworm"),
            technique("T1", "Process Injection", "T1055", &["defense-evasion"]),
            edge("R1", "G1", "T1", "uses"),
        ],
    };
    let found = find_groups("sandworm", &data).unwrap();
    assert_eq!(found, vec![0]);
    let used = techniques_used_by(&data.objects[found[0]].id, &data);
    assert_eq!(used, vec![1]);
    assert_eq!(data.objects[used[0]].name.as_deref(), Some("Process Injection"));
    let listing = techniques_by_tactic("G1", &data);
    assert_eq!(listing.len(), 1);
    assert_eq!(listing[0].tactic, "Defense Evasion");
    assert_eq!(listing[0].technique, 1);
    let t = find_technique_by_id("t1055", &data).unwrap();
    assert_eq!(groups_using_by_name(&data.objects[t].id, &data), vec![0]);
}

#[test]
fn used_techniques_are_grouped_by_tactic() {
    let mut data = sample();
    data.objects.push(edge("R5", "G1", "T3", "uses"));
    data.objects[3].kill_chain_phases =
        Some(vec![phase("other-chain", "zeta"), phase("mitre-attack", "discovery")]);
    let listing = techniques_by_tactic("G1", &data);
    let flat: Vec<(String, usize, usize)> =
        listing.iter().map(|e| (e.tactic.clone(), e.technique, e.phase)).collect();
    assert_eq!(
        flat,
        vec![
            ("Defense Evasion".to_string(), 1, 1),
            ("Discovery".to_string(), 3, 1),
            ("Privilege Escalation".to_string(), 9, 0),
            ("Privilege Escalation".to_string(), 1, 0),
        ]
    );
    assert!(techniques_by_tactic("G404", &data).is_empty());
}

#[test]
fn tactic_search_falls_back_to_all_tactics() {
    let data = sample();
    match find_tactics("exfiltration", &data) {
        TacticSearch::NoMatch { available } => assert_eq!(available, vec![8, 7]),
        TacticSearch::Found { .. } => panic!("no tactic matches"),
    }
}

#[test]
fn tactic_search_matches_short_names_and_lists_techniques_independently() {
    let mut data = sample();
    data.objects[8].shortname = Some("recon-discovery".to_string());
    match find_tactics("RECON", &data) {
        TacticSearch::Found { tactics, techniques } => {
            assert_eq!(tactics, vec![8]);
            assert_eq!(techniques, Vec::<usize>::new());
        }
        TacticSearch::NoMatch { .. } => panic!("the short name matches"),
    }
    assert_eq!(techniques_in_tactic("e", &data), vec![9, 3, 1]);
    data.objects[1].kill_chain_phases = Some(vec![phase("other", "discovery")]);
    assert_eq!(techniques_in_tactic("discovery", &data), vec![3]);
}

#[test]
fn sorted_order_is_stable_and_two_level() {
    let keys = vec![key("b", "x"), key("a", "z"), key("a", "y"), key("b", "x"), key("", "q"), key("a", "z")];
    assert_eq!(sorted_order(&keys), vec![4, 2, 1, 5, 0, 3]);
    assert_eq!(sorted_order(&Vec::new()), Vec::<usize>::new());
}

#[test]
fn keys_compare_by_code_points() {
    assert!(key_lt(&key("a", "b"), &key("a", "c")));
    assert!(key_lt(&key("a", "z"), &key("b", "a")));
    assert!(!key_lt(&key("a", "b"), &key("a", "b")));
    assert!(key_lt(&key("", "B"), &key("", "a")));
    assert!(key_lt(&key("", "ab"), &key("", "abc")));
    assert!(key_lt(&key("", "z"), &key("", "\u{e9}")));
    assert!(!key_lt(&key("b", ""), &key("a", "z")));
}

#[test]
fn the_same_query_gives_the_same_answer() {
    let data = sample();
    assert_eq!(list_groups(&data), list_groups(&data));
    assert_eq!(find_groups("a", &data), find_groups("a", &data));
    assert_eq!(techniques_used_by("G1", &data), techniques_used_by("G1", &data));
    assert_eq!(find_technique_by_id("t1055", &data), find_technique_by_id("t1055", &data));
}

#[test]
fn group_reports_come_in_dataset_order_with_their_techniques() {
    let data = sample();
    let reports = show_groups("a", &data).unwrap();
    assert_eq!(reports.len(), 2);
    assert_eq!(reports[0].group, 0);
    assert_eq!(reports[0].techniques, vec![1, 3]);
    assert_eq!(reports[0].by_tactic.len(), 3);
    assert_eq!(reports[1].group, 5);
    assert_eq!(reports[1].techniques, vec![1]);
    let tactics: Vec<&str> = reports[1].by_tactic.iter().map(|e| e.tactic.as_str()).collect();
    assert_eq!(tactics, vec!["Defense Evasion", "Privilege Escalation"]);
    assert!(matches!(show_groups("nobody", &data), Err(QueryError::NoMatch)));
}

#[test]
fn technique_reports_list_the_groups_by_name() {
    let data = sample();
    let report = show_technique("t1055", &data).unwrap();
    assert_eq!(report.technique, 1);
    assert_eq!(report.used_by, vec![5, 0]);
    assert!(matches!(show_technique("T0000", &data), Err(QueryError::NoMatch)));
    let reports = show_techniques_by_name("acc", &data).unwrap();
    assert_eq!(reports.len(), 2);
    assert_eq!(reports[0].technique, 3);
    assert_eq!(reports[0].used_by, vec![0]);
    assert_eq!(reports[1].technique, 9);
    assert_eq!(reports[1].used_by, Vec::<usize>::new());
    assert!(matches!(show_techniques_by_name("zzz", &data), Err(QueryError::NoMatch)));
}

#[test]
fn a_report_needs_a_position_of_the_dataset() {
    let data = sample();
    assert!(group_report(12, &data).is_none());
    assert!(technique_report(99, &data).is_none());
    assert_eq!(group_report(5, &data).unwrap().group, 5);
    assert_eq!(technique_report(3, &data).unwrap().used_by, vec![0]);
}
