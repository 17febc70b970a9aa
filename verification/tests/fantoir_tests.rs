use fantoir_datasource::calendar::CalendarDate;
use fantoir_datasource::fantoir::DateParseError;
use fantoir_datasource::fantoir::FantoirDecodeError;
use fantoir_datasource::fantoir::FantoirEntry;
use fantoir_datasource::fantoir::FixedFantoirCode;
use fantoir_datasource::fantoir::RivoliKeyError;
use fantoir_datasource::fantoir::compute_rivoli_key;
use fantoir_datasource::fantoir::fix_fantoir_code;
use fantoir_datasource::fantoir::looks_like_canonical_fantoir_code;
use fantoir_datasource::fantoir::parse_fantoir_date;
use fantoir_datasource::fantoir::parse_optional_string;
use fantoir_datasource::fantoir::rivoli_key_checked;
use fantoir_datasource::fantoir::uses_specific_code_direction;

#[test]
fn fantoir_test_parse_fantoir_date() {
    let expected = CalendarDate::from_ymd_opt(1987, 1, 1).unwrap();
    let actual = parse_fantoir_date("1987001").unwrap().unwrap();
    assert_eq!(expected, actual);
}

#[test]
fn test_parse_fantoir_date_no_date_sentinel() {
    assert_eq!(Ok(None), parse_fantoir_date("0000000"));
}

#[test]
fn test_parse_fantoir_date_invalid_ordinal() {
    assert_eq!(Err(DateParseError::InvalidOrdinalDate), parse_fantoir_date("1987366"));
    assert!(parse_fantoir_date("1988366").is_ok());
    assert_eq!(Err(DateParseError::NotNumeric), parse_fantoir_date("19x7001"));
}

#[test]
fn test_parse_optional_string() {
    assert_eq!(Some(String::from("quux")), parse_optional_string("quux"));
}

#[test]
fn test_parse_optional_string_with_trailing_spaces() {
    assert_eq!(Some(String::from("quux")), parse_optional_string("quux    "));
}

#[test]
fn test_parse_optional_string_when_empty() {
    assert_eq!(true, parse_optional_string("").is_none());
}

#[test]
fn test_parse_optional_string_when_only_spaces() {
    assert_eq!(true, parse_optional_string("    ").is_none());
}

#[test]
pub fn test_fix_fantoir_code() {
    assert_eq!(
        FixedFantoirCode::Computed("755112P144L".to_string()),
        fix_fantoir_code("755112P144L")
    );
    assert_eq!(
        FixedFantoirCode::Computed("972231B026U".to_string()),
        fix_fantoir_code("97231_B026")
    );
    assert_eq!(
        FixedFantoirCode::Computed("4401090516U".to_string()),
        fix_fantoir_code("441090516U")
    );
    assert_eq!(
        FixedFantoirCode::Computed("972222B305L".to_string()),
        fix_fantoir_code("972222B305")
    );
}

#[test]
pub fn test_fix_fantoir_code_when_it_cannot_be_computed() {
    let expected = FixedFantoirCode::ToSearch {
        code_insee: "92002".to_string(),
        identifiant_communal_voie: "5130".to_string(),
    };

    assert_eq!(
        expected,
        fix_fantoir_code("920025130X"),
        "As code direction can't be computed, this code should be to search"
    );
    assert_eq!(
        expected,
        fix_fantoir_code("92002_5130"),
        "As code direction can't be computed, this code should be to search"
    );
}

#[test]
fn test_fix_fantoir_code_with_separator_and_default_direction() {
    // The zero direction digit goes in after the two-digit department,
    // and the Rivoli key is then computed over the rebuilt code.
    assert_eq!(
        FixedFantoirCode::Computed("4401090516U".to_string()),
        fix_fantoir_code("44109_0516")
    );
}

#[test]
fn test_fix_fantoir_code_is_idempotent_on_computed_codes() {
    for code in ["755112P144L", "97231_B026", "441090516U", "972222B305"] {
        match fix_fantoir_code(code) {
            FixedFantoirCode::Computed(canonical) => {
                assert_eq!(
                    FixedFantoirCode::Computed(canonical.clone()),
                    fix_fantoir_code(&canonical)
                );
            }
            FixedFantoirCode::ToSearch { .. } => panic!("Expected a computed FANTOIR code"),
        }
    }
}

#[test]
pub fn test_compute_rivoli_key() {
    assert_eq!('W', compute_rivoli_key("380003B001"));
    assert_eq!('U', compute_rivoli_key("972231B026"));
}

#[test]
pub fn test_compute_rivoli_key_with_type_voie_zero() {
    assert_eq!('C', compute_rivoli_key("9722230261"));
}

#[test]
fn test_rivoli_key_checked() {
    assert_eq!(Ok('W'), rivoli_key_checked("380003B001"));
    assert_eq!(
        Err(RivoliKeyError::UnsupportedDepartmentEncoding),
        rivoli_key_checked("2A00010001")
    );
    assert_eq!(Err(RivoliKeyError::MalformedCode), rivoli_key_checked("quux"));
    assert_eq!(Err(RivoliKeyError::MalformedCode), rivoli_key_checked("38000xB001"));
}

#[test]
fn test_uses_specific_code_direction() {
    assert!(uses_specific_code_direction("920025130X"));
    assert!(uses_specific_code_direction("13001"));
    assert!(uses_specific_code_direction("59350"));
    assert!(uses_specific_code_direction("75056"));
    assert!(uses_specific_code_direction("97231"));
    assert!(!uses_specific_code_direction("380003B001"));
    assert!(!uses_specific_code_direction("4"));
}

#[test]
fn test_looks_like_canonical_fantoir_code() {
    assert!(looks_like_canonical_fantoir_code("755112P144L"));
    assert!(!looks_like_canonical_fantoir_code("97231_B026"));
    assert!(!looks_like_canonical_fantoir_code("380003B001"));
}

static LINE: &str = "380003B001WRUE DES LILAS                   R 3  0*         00000420000007 00000001987001               123451   LILAS";

#[test]
fn test_parse_line() {
    let entry = FantoirEntry::parse_line(LINE).expect("the line should decode");
    assert_eq!("380003B001W", &entry.code_fantoir);
    assert_eq!("38", &entry.departement);
    assert_eq!(3, entry.code_commune);
    assert_eq!("38003", &entry.code_insee);
    assert_eq!(Some("R".to_string()), entry.type_commune);
    assert!(entry.is_pseudo_recensee);
    assert_eq!("B001", &entry.identifiant_communal_voie);
    assert_eq!("W", &entry.cle_rivoli);
    assert_eq!(Some("RUE".to_string()), entry.code_nature_voie);
    assert_eq!("DES LILAS", &entry.libelle_voie);
    assert_eq!(1, entry.type_voie);
    assert!(entry.is_public);
    assert!(entry.is_large);
    assert_eq!(42, entry.population_a_part);
    assert_eq!(7, entry.population_fictive);
    assert!(!entry.is_cancelled);
    assert_eq!(None, entry.cancel_date);
    assert_eq!(CalendarDate::from_ymd_opt(1987, 1, 1), entry.creation_date);
    assert_eq!(12345, entry.code_majic);
    assert_eq!("LILAS", &entry.last_alpha_word);
}

#[test]
fn test_parse_line_overseas_department() {
    let mut full = String::from(LINE);
    full.replace_range(0..11, "972231B026U");
    let entry = FantoirEntry::parse_line(&full).expect("the line should decode");
    assert_eq!("972", &entry.departement);
    assert_eq!("97231", &entry.code_insee);
}

#[test]
fn test_parse_line_rejects_bad_numeric_field() {
    let mut line = String::from(LINE);
    line.replace_range(3..6, "zzz");
    assert_eq!(
        Err(FantoirDecodeError::FieldParse { field: "code_commune".to_string() }),
        FantoirEntry::parse_line(&line)
    );
}

#[test]
fn test_parse_line_rejects_invalid_ordinal_date() {
    let mut line = String::from(LINE);
    line.replace_range(81..88, "1987366");
    assert_eq!(Err(FantoirDecodeError::InvalidOrdinalDate), FantoirEntry::parse_line(&line));
}
