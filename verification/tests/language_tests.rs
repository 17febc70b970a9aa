use fantoir_datasource::language::Language;

fn language_fixture() -> Language {
    let liquids = vec!["Water".to_string(), "Air".to_string()];

    Language {
        fields: vec![
            ("Liquid".to_string(), liquids),
            ("Model".to_string(), vec!["Newtonian".to_string()]),
        ],
    }
}

#[test]
pub fn test_format() {
    let language = language_fixture();

    assert_eq!(
        "Water or Air use Newtonian physic.",
        &language.format("%%Liquid%% use %%Model%% physic.", " or ")
    );

    assert_eq!(
        "Water or Air use Newtonian physic.",
        &language.format("%%Liquid%% use %%Prefix%%%%Model%% physic.", " or ")
    );

    assert_eq!("", &language.format("", ""));
}

#[test]
fn test_get_field() {
    let language = language_fixture();
    assert_eq!(Some("Water / Air".to_string()), language.get_field("Liquid", " / "));
    assert_eq!(None, language.get_field("Solid", " / "));
}

#[test]
fn test_parse_entry() {
    let entry = "Type: language\nSubtag: aa\nDescription: Afar\nDescription: Qafar\nAdded: 2005-10-16";
    let language = Language::parse_entry(entry);
    assert_eq!(Some("aa".to_string()), language.get_id());
    assert_eq!(Some("Afar / Qafar".to_string()), language.get_field("Description", " / "));
}

#[test]
fn test_parse_entry_with_multiline_value() {
    let entry = "Type: language\nSubtag: zz\nComments: first part\n  second part";
    let language = Language::parse_entry(entry);
    assert_eq!(
        Some("first part second part".to_string()),
        language.get_field("Comments", " / ")
    );
}

#[test]
fn test_parse_document() {
    let document = "File-Date: 2022-11-01\n%%\nType: language\nSubtag: aa\nDescription: Afar\n%%\nType: script\nSubtag: Adlm\nDescription: Adlam";
    let all = Language::parse_document(document, false);
    assert_eq!(2, all.len());

    let languages_only = Language::parse_document(document, true);
    assert_eq!(1, languages_only.len());
    assert_eq!(Some("aa".to_string()), languages_only[0].get_id());
}

#[test]
fn test_get_id_falls_back_to_tag() {
    let entry = "Type: redundant\nTag: zh-Hans\nDescription: simplified Chinese";
    let language = Language::parse_entry(entry);
    assert_eq!(Some("zh-Hans".to_string()), language.get_id());
}

#[test]
fn test_build_full_description() {
    let entry = "Type: language\nSubtag: in\nDescription: Indonesian\nDeprecated: 1989-01-01\nPreferred-Value: id\nComments: see id";
    let language = Language::parse_entry(entry);
    assert_eq!(
        "Indonesian [deprecated]; preferred value: id; see id",
        &language.build_full_description(" / ")
    );
}

#[test]
fn test_build_full_description_without_description() {
    let entry = "Type: language\nSubtag: zz";
    let language = Language::parse_entry(entry);
    assert_eq!("<no description in IANA registry>", &language.build_full_description(" / "));
}
