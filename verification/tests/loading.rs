use attcli::json::{find_member, optional_text, optional_texts, required_text, Json, LoadError, Member};
use attcli::query::{find_groups, list_groups};
use attcli::record::Kind;
use attcli::report::{show_groups, show_technique};
use attcli::store::{load, read_dataset, read_phase, read_record, read_reference};

fn text(s: &str) -> Json {
    Json::Text(s.to_string())
}

fn member(key: &str, value: Json) -> Member {
    Member { key: key.to_string(), value }
}

const SANDWORM: &str = r#"{
  "type": "bundle",
  "objects": [
    {"type": "intrusion-set", "id": "G1", "name": "Sandworm", "aliases": ["Voodoo Bear"],
     "external_references": [
        {"source_name": "other", "external_id": "X1"},
        {"source_name": "mitre-attack", "external_id": "G0034", "url": "https://example.org/G0034"},
        {"source_name": "mitre-attack", "external_id": "G9999"}],
     "x_mitre_version": "2.0", "unknown": {"nested": [1, 2.5, true, null]}},
    {"type": "attack-pattern", "id": "T1", "name": "Process Injection", "description": null,
     "external_references": [{"source_name": "mitre-attack", "external_id": "T1055"}],
     "kill_chain_phases": [{"kill_chain_name": "mitre-attack", "phase_name": "defense-evasion"}],
     "x_mitre_platforms": ["Linux", "Windows"]},
    {"type": "relationship", "id": "R1", "source_ref": "G1", "target_ref": "T1",
     "relationship_type": "uses"},
    {"type": "x-mitre-tactic", "id": "TA1", "name": "Defense Evasion",
     "x_mitre_shortname": "defense-evasion"},
    {"type": "marking-definition", "id": "M1"}
  ]
}"#;

#[test]
fn a_missing_file_is_not_found() {
    assert_eq!(load(None).unwrap_err(), LoadError::NotFound);
}

#[test]
fn malformed_content_is_a_parse_error() {
    assert_eq!(load(Some("")).unwrap_err(), LoadError::Parse);
    assert_eq!(load(Some("{\"objects\": [")).unwrap_err(), LoadError::Parse);
    assert_eq!(load(Some("not json")).unwrap_err(), LoadError::Parse);
}

#[test]
fn a_document_without_objects_is_a_parse_error() {
    assert_eq!(load(Some("{}")).unwrap_err(), LoadError::Parse);
    assert_eq!(load(Some("[]")).unwrap_err(), LoadError::Parse);
    assert_eq!(load(Some("{\"objects\": null}")).unwrap_err(), LoadError::Parse);
    assert_eq!(load(Some("{\"objects\": {}}")).unwrap_err(), LoadError::Parse);
}

#[test]
fn an_empty_dataset_loads_and_lists_no_groups() {
    let data = load(Some("{\"objects\": []}")).unwrap();
    assert!(data.objects.is_empty());
    assert_eq!(list_groups(&data), Vec::<usize>::new());
    assert_eq!(find_groups("x", &data).unwrap_err(), attcli::query::QueryError::NoMatch);
}

#[test]
fn type_and_id_are_mandatory() {
    assert_eq!(load(Some(r#"{"objects": [{"id": "G1"}]}"#)).unwrap_err(), LoadError::Parse);
    assert_eq!(
        load(Some(r#"{"objects": [{"type": "intrusion-set"}]}"#)).unwrap_err(),
        LoadError::Parse
    );
    assert_eq!(
        load(Some(r#"{"objects": [{"type": "intrusion-set", "id": null}]}"#)).unwrap_err(),
        LoadError::Parse
    );
    assert_eq!(
        load(Some(r#"{"objects": [{"type": 7, "id": "G1"}]}"#)).unwrap_err(),
        LoadError::Parse
    );
    assert_eq!(load(Some(r#"{"objects": ["G1"]}"#)).unwrap_err(), LoadError::Parse);
    let data = load(Some(r#"{"objects": [{"type": "intrusion-set", "id": "G1"}]}"#)).unwrap();
    assert_eq!(data.objects.len(), 1);
    assert_eq!(data.objects[0].kind(), Kind::Group);
    assert_eq!(data.objects[0].name, None);
    assert!(data.objects[0].aliases.is_none());
}

#[test]
fn one_bad_record_fails_the_whole_load() {
    let text = r#"{"objects": [{"type": "a", "id": "1"}, {"type": "b", "id": "2", "name": 3}]}"#;
    assert_eq!(load(Some(text)).unwrap_err(), LoadError::Parse);
    let text = r#"{"objects": [{"type": "a", "id": "1", "aliases": ["x", 1]}]}"#;
    assert_eq!(load(Some(text)).unwrap_err(), LoadError::Parse);
    let text = r#"{"objects": [{"type": "a", "id": "1", "external_references": [{"url": "u"}]}]}"#;
    assert_eq!(load(Some(text)).unwrap_err(), LoadError::Parse);
    let text = r#"{"objects": [{"type": "a", "id": "1", "kill_chain_phases": [{"phase_name": "p"}]}]}"#;
    assert_eq!(load(Some(text)).unwrap_err(), LoadError::Parse);
    let text = r#"{"objects": [{"type": "a", "id": "1", "kill_chain_phases": "p"}]}"#;
    assert_eq!(load(Some(text)).unwrap_err(), LoadError::Parse);
}

#[test]
fn a_dataset_loads_with_all_its_fields() {
    let data = load(Some(SANDWORM)).unwrap();
    assert_eq!(data.objects.len(), 5);
    let g = &data.objects[0];
    assert_eq!(g.obj_type, "intrusion-set");
    assert_eq!(g.id, "G1");
    assert_eq!(g.name.as_deref(), Some("Sandworm"));
    assert_eq!(g.aliases, Some(vec!["Voodoo Bear".to_string()]));
    let refs = g.external_references.as_ref().unwrap();
    assert_eq!(refs.len(), 3);
    assert_eq!(refs[0].source_name, "other");
    assert_eq!(refs[1].url.as_deref(), Some("https://example.org/G0034"));
    assert_eq!(refs[2].url, None);
    assert_eq!(g.canonical_id(), Some("G0034".to_string()));
    let t = &data.objects[1];
    assert_eq!(t.description, None);
    assert_eq!(t.platforms, Some(vec!["Linux".to_string(), "Windows".to_string()]));
    let phases = t.kill_chain_phases.as_ref().unwrap();
    assert_eq!(phases.len(), 1);
    assert_eq!(phases[0].kill_chain_name, "mitre-attack");
    assert_eq!(phases[0].phase_name, "defense-evasion");
    let r = &data.objects[2];
    assert_eq!(r.source_ref.as_deref(), Some("G1"));
    assert_eq!(r.target_ref.as_deref(), Some("T1"));
    assert_eq!(r.relationship_type.as_deref(), Some("uses"));
    assert_eq!(data.objects[3].shortname.as_deref(), Some("defense-evasion"));
    assert_eq!(data.objects[4].kind(), Kind::Other);
}

#[test]
fn a_loaded_dataset_answers_queries() {
    let data = load(Some(SANDWORM)).unwrap();
    let groups = show_groups("sandworm", &data).unwrap();
    assert_eq!(groups.len(), 1);
    assert_eq!(groups[0].techniques, vec![1]);
    assert_eq!(groups[0].by_tactic[0].tactic, "Defense Evasion");
    let technique = show_technique("t1055", &data).unwrap();
    assert_eq!(technique.technique, 1);
    assert_eq!(technique.used_by, vec![0]);
}

#[test]
fn members_are_found_by_key() {
    let ms = vec![member("a", text("1")), member("b", Json::Null), member("a", text("2"))];
    assert!(matches!(find_member(&ms, "a"), Some(Json::Text(s)) if s == "1"));
    assert!(matches!(find_member(&ms, "b"), Some(Json::Null)));
    assert!(find_member(&ms, "c").is_none());
    assert!(find_member(&Vec::new(), "a").is_none());
}

#[test]
fn texts_are_read_by_their_form() {
    let ms = vec![
        member("t", text("x")),
        member("n", Json::Null),
        member("b", Json::Bool(true)),
        member("l", Json::List(vec![text("p"), text("q")])),
        member("m", Json::List(vec![text("p"), Json::Number("1".to_string())])),
        member("e", Json::List(vec![])),
    ];
    assert_eq!(required_text(&ms, "t"), Ok("x".to_string()));
    assert_eq!(required_text(&ms, "n"), Err(LoadError::Parse));
    assert_eq!(required_text(&ms, "zz"), Err(LoadError::Parse));
    assert_eq!(optional_text(&ms, "t"), Ok(Some("x".to_string())));
    assert_eq!(optional_text(&ms, "n"), Ok(None));
    assert_eq!(optional_text(&ms, "zz"), Ok(None));
    assert_eq!(optional_text(&ms, "b"), Err(LoadError::Parse));
    assert_eq!(optional_texts(&ms, "l"), Ok(Some(vec!["p".to_string(), "q".to_string()])));
    assert_eq!(optional_texts(&ms, "e"), Ok(Some(vec![])));
    assert_eq!(optional_texts(&ms, "n"), Ok(None));
    assert_eq!(optional_texts(&ms, "zz"), Ok(None));
    assert_eq!(optional_texts(&ms, "m"), Err(LoadError::Parse));
    assert_eq!(optional_texts(&ms, "t"), Err(LoadError::Parse));
}

#[test]
fn entries_are_read_from_objects_only() {
    let reference = Json::Object(vec![member("source_name", text("s")), member("url", Json::Null)]);
    let r = read_reference(&reference).unwrap();
    assert_eq!(r.source_name, "s");
    assert_eq!(r.url, None);
    assert_eq!(read_reference(&text("s")).unwrap_err(), LoadError::Parse);
    let phase = Json::Object(vec![
        member("kill_chain_name", text("k")),
        member("phase_name", text("p")),
    ]);
    assert_eq!(read_phase(&phase).unwrap().phase_name, "p");
    assert_eq!(read_phase(&Json::Object(vec![])).unwrap_err(), LoadError::Parse);
    assert_eq!(read_record(&Json::List(vec![])).unwrap_err(), LoadError::Parse);
    let doc = Json::Object(vec![member(
        "objects",
        Json::List(vec![Json::Object(vec![member("type", text("t")), member("id", text("i"))])]),
    )]);
    assert_eq!(read_dataset(&doc).unwrap().objects[0].id, "i");
    assert_eq!(read_dataset(&Json::Null).unwrap_err(), LoadError::Parse);
}
