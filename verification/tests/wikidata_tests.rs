use fantoir_datasource::rdf::RdfTerm;
use fantoir_datasource::rdf::SparqlResults;
use fantoir_datasource::rdf::SparqlSolution;
use fantoir_datasource::rdf::is_term_empty;
use fantoir_datasource::rdf::parse_literal;
use fantoir_datasource::rdf::parse_term_uri;
use fantoir_datasource::qualification::determine_p31_winner;
use fantoir_datasource::report::FailureCategory;
use fantoir_datasource::report::MaintenanceReport;
use fantoir_datasource::report::classify_persistence_failure;
use fantoir_datasource::report::into_sections;
use fantoir_datasource::report::update_report;
use fantoir_datasource::wikidata::WikidataEntry;
use fantoir_datasource::wikidata::WikidataEntryKey;
use fantoir_datasource::wikidata::group_classification_facts;
use fantoir_datasource::wikidata::parse_wikidata_entity_uri;

#[test]
pub fn test_parse_wikidata_entity_uri() {
    let term = RdfTerm::NamedNode("http://www.wikidata.org/entity/Q849777".to_string());

    assert_eq!("Q849777", &parse_wikidata_entity_uri(&term).unwrap());
}

#[test]
fn test_parse_wikidata_entity_uri_needs_a_named_node() {
    assert_eq!(None, parse_wikidata_entity_uri(&RdfTerm::Literal("Q849777".to_string())));
    assert_eq!(None, parse_wikidata_entity_uri(&RdfTerm::NamedNode("Q849777".to_string())));
}

#[test]
fn test_determine_p31_winner_prefers_the_more_specific_value() {
    let candidates = vec!["Q79007".to_string(), "Q54114".to_string()];
    assert_eq!("Q54114", &determine_p31_winner(&candidates));

    let reversed = vec!["Q54114".to_string(), "Q79007".to_string()];
    assert_eq!("Q54114", &determine_p31_winner(&reversed));
}

#[test]
fn test_determine_p31_winner_with_one_candidate() {
    let candidates = vec!["Q999999999".to_string()];
    assert_eq!("Q999999999", &determine_p31_winner(&candidates));
}

#[test]
fn test_determine_p31_winner_falls_back_to_the_first_candidate() {
    let candidates = vec!["Q1one".to_string(), "Q2two".to_string()];
    assert_eq!("Q1one", &determine_p31_winner(&candidates));
}

#[test]
fn test_is_term_empty() {
    let genid = RdfTerm::NamedNode(
        "http://www.wikidata.org/.well-known/genid/a9379351e9f0e99a632976dc68cbdfd4".to_string(),
    );
    assert!(is_term_empty(&genid));
    assert!(is_term_empty(&RdfTerm::BlankNode));
    assert!(!is_term_empty(&RdfTerm::Literal("97231_B026".to_string())));
    assert!(!is_term_empty(&RdfTerm::NamedNode("http://www.wikidata.org/entity/Q1".to_string())));
    assert!(is_term_empty(&RdfTerm::Triple(Box::new(RdfTerm::BlankNode))));
}

#[test]
fn test_parse_term_uri_and_literal() {
    let node = RdfTerm::NamedNode("http://www.wikidata.org/entity/Q1".to_string());
    assert_eq!(Some("http://www.wikidata.org/entity/Q1".to_string()), parse_term_uri(&node));
    assert_eq!(None, parse_literal(&node));

    let literal = RdfTerm::Literal("bar".to_string());
    assert_eq!(Some("bar".to_string()), parse_literal(&literal));
    assert_eq!(None, parse_term_uri(&literal));
}

#[test]
fn test_sparql_results_accessors() {
    let solutions = SparqlResults::Solutions(Vec::new());
    assert!(solutions.into_solutions().is_some());
    let solutions = SparqlResults::Solutions(Vec::new());
    assert_eq!(None, solutions.into_bool());

    let boolean = SparqlResults::Boolean(true);
    assert_eq!(Some(true), boolean.into_bool());
    let boolean = SparqlResults::Boolean(true);
    assert!(boolean.into_solutions().is_none());
}

fn fact_row(code: RdfTerm, item: &str, label: &str, what: &str) -> SparqlSolution {
    SparqlSolution {
        bindings: vec![
            ("code_fantoir".to_string(), code),
            ("item".to_string(), RdfTerm::NamedNode(format!("http://www.wikidata.org/entity/{}", item))),
            ("itemLabel".to_string(), RdfTerm::Literal(label.to_string())),
            ("what".to_string(), RdfTerm::NamedNode(format!("http://www.wikidata.org/entity/{}", what))),
        ],
    }
}

#[test]
fn test_group_classification_facts() {
    let rows = vec![
        fact_row(RdfTerm::Literal("97231_B026".to_string()), "Q1", "one", "Q79007"),
        fact_row(RdfTerm::BlankNode, "Q2", "two", "Q54114"),
        fact_row(RdfTerm::Literal("97231_B026".to_string()), "Q1", "one", "Q54114"),
    ];
    let groups = group_classification_facts(&rows).unwrap();
    assert_eq!(1, groups.len());
    assert_eq!("97231_B026", &groups[0].0.code_fantoir_wikidata);
    assert_eq!("Q1", &groups[0].0.item);
    assert_eq!("one", &groups[0].0.item_label);
    assert_eq!(vec!["Q79007".to_string(), "Q54114".to_string()], groups[0].1);
}

#[test]
fn test_group_classification_facts_excludes_empty_code_terms() {
    let rows = vec![fact_row(RdfTerm::BlankNode, "Q2", "two", "Q54114")];
    let groups = group_classification_facts(&rows).unwrap();
    assert!(groups.is_empty());
}

#[test]
fn test_group_classification_facts_refuses_a_malformed_row() {
    let rows = vec![SparqlSolution { bindings: Vec::new() }];
    assert!(group_classification_facts(&rows).is_err());
}

#[test]
fn test_wikidata_entry_key_parse() {
    let row = fact_row(RdfTerm::Literal("97231_B026".to_string()), "Q1", "one", "Q79007");
    let key = WikidataEntryKey::parse(&row).unwrap();
    assert_eq!("97231_B026", &key.code_fantoir_wikidata);
    assert_eq!("Q1", &key.item);
    assert_eq!("one", &key.item_label);
}

fn key(code: &str) -> WikidataEntryKey {
    WikidataEntryKey {
        code_fantoir_wikidata: code.to_string(),
        item: "Q1".to_string(),
        item_label: "one".to_string(),
    }
}

#[test]
fn test_consolidate_set_with_computed_code() {
    let candidates = vec!["Q79007".to_string(), "Q54114".to_string()];
    let entry = WikidataEntry::consolidate_set(&key("97231_B026"), &candidates, None).unwrap();
    assert_eq!("972231B026U", &entry.code_fantoir);
    assert_eq!("97231_B026", &entry.code_fantoir_wikidata);
    assert_eq!("Q54114", &entry.what);
}

#[test]
fn test_consolidate_set_with_searched_code() {
    let candidates = vec!["Q79007".to_string()];
    let entry = WikidataEntry::consolidate_set(
        &key("92002_5130"),
        &candidates,
        Some("920025130X".to_string()),
    )
    .unwrap();
    assert_eq!("920025130X", &entry.code_fantoir);

    assert!(WikidataEntry::consolidate_set(&key("92002_5130"), &candidates, None).is_none());
}

#[test]
fn test_classify_persistence_failure() {
    assert_eq!(
        Some(FailureCategory::DuplicateCanonicalCode),
        classify_persistence_failure(Some("index_fantoir_wikidata_pk"), None)
    );
    assert_eq!(
        Some(FailureCategory::CodeNotInReferenceTable),
        classify_persistence_failure(Some("fantoir_wikidata_code_fantoir_fk"), None)
    );
    assert_eq!(
        Some(FailureCategory::CodeTooLong),
        classify_persistence_failure(None, Some("22001"))
    );
    assert_eq!(None, classify_persistence_failure(Some("some_new_constraint"), None));
    assert_eq!(None, classify_persistence_failure(None, Some("40001")));
    assert_eq!(None, classify_persistence_failure(None, None));
}

#[test]
fn test_report_sections_are_sorted_by_code() {
    let mut report = MaintenanceReport::new();
    update_report(&mut report, key("92002_5130"), FailureCategory::UnresolvableCode);
    update_report(&mut report, key("13001_0042"), FailureCategory::UnresolvableCode);
    update_report(&mut report, key("755112P144L"), FailureCategory::DuplicateCanonicalCode);

    let sections = into_sections(report);
    assert_eq!(4, sections.len());
    assert_eq!("Duplicate FANTOIR code", &sections[0].0);
    assert_eq!(1, sections[0].1.len());
    assert_eq!("Can't resolve FANTOIR code", &sections[3].0);
    assert_eq!(
        vec!["13001_0042".to_string(), "92002_5130".to_string()],
        sections[3].1.iter().map(|k| k.code_fantoir_wikidata.clone()).collect::<Vec<_>>()
    );
}
