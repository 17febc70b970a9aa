use fantoir_datasource::calendar::CalendarDate;
use fantoir_datasource::fetch::FantoirFile;
use fantoir_datasource::fetch::find_extracted_file;
use fantoir_datasource::fetch::latest_fantoir_file;
use fantoir_datasource::fetch::parse_fantoir_date;
use fantoir_datasource::fetch::parse_french_month_long_name;
use fantoir_datasource::fetch::suggest_fantoir_table;
use fantoir_datasource::schema::Attachment;
use fantoir_datasource::schema::AttachmentProperties;

#[test]
fn test_suggest_fantoir_table() {
    assert_eq!("fantoir_202210", &suggest_fantoir_table("FANTOIR1022"))
}

#[test]
fn test_suggest_fantoir_table_pads_the_month() {
    assert_eq!("fantoir_202503", &suggest_fantoir_table("FANTOIR0325"))
}

#[test]
fn fantoir_file_test_parse_fantoir_date() {
    let expected = CalendarDate::from_ymd_opt(2022, 11, 1).unwrap();
    assert_eq!(Some(expected), parse_fantoir_date("novembre_2022"));
}

#[test]
fn test_parse_fantoir_date_rejects_other_shapes() {
    assert_eq!(None, parse_fantoir_date("novembre"));
    assert_eq!(None, parse_fantoir_date("brumaire_2022"));
    assert_eq!(None, parse_fantoir_date("novembre_MMXXII"));
}

#[test]
fn test_parse_french_month_long_name() {
    assert_eq!(Some(1), parse_french_month_long_name("janvier"));
    assert_eq!(Some(12), parse_french_month_long_name("decembre"));
    assert_eq!(None, parse_french_month_long_name("thermidor"));
}

#[test]
fn test_get_file_candidates() {
    let file = FantoirFile {
        url: "foo/fichier_national_fantoir_situation_novembre_2022_zip".to_string(),
        date: CalendarDate::from_ymd_opt(2022, 11, 1).unwrap(),
    };

    let expected = vec!["FANTOIR1022".to_string(), "FANTOIR1122".to_string()];
    assert_eq!(expected, file.get_file_candidates());
}

fn attachment(title: &str, id: &str, href: &str) -> Attachment {
    Attachment {
        href: href.to_string(),
        metas: AttachmentProperties {
            mime_type: None,
            title: title.to_string(),
            url: String::new(),
            id: id.to_string(),
        },
    }
}

#[test]
fn test_fantoir_file_from_attachment() {
    let a = attachment(
        "Fichier national FANTOIR (situation novembre 2022)",
        "fichier_national_fantoir_situation_novembre_2022_zip",
        "https://example.org/fantoir.zip",
    );
    let file = FantoirFile::from(&a).unwrap();
    assert_eq!("https://example.org/fantoir.zip", &file.url);
    assert_eq!(CalendarDate::from_ymd_opt(2022, 11, 1).unwrap(), file.date);
}

#[test]
fn test_latest_fantoir_file() {
    let attachments = vec![
        attachment(
            "Fichier national FANTOIR (situation octobre 2022)",
            "fichier_national_fantoir_situation_octobre_2022_zip",
            "https://example.org/october.zip",
        ),
        attachment("Read me", "read_me_txt", "https://example.org/readme.txt"),
        attachment(
            "Fichier national FANTOIR (situation novembre 2022)",
            "fichier_national_fantoir_situation_novembre_2022_zip",
            "https://example.org/november.zip",
        ),
    ];
    let latest = latest_fantoir_file(&attachments).unwrap();
    assert_eq!("https://example.org/november.zip", &latest.url);

    let none: Vec<Attachment> = vec![attachment("Read me", "read_me_txt", "x")];
    assert!(latest_fantoir_file(&none).is_none());
}

#[test]
fn test_find_extracted_file() {
    let output = "Archive:  fantoir.zip\n  inflating: FANTOIR1022\n";
    assert_eq!(Some("FANTOIR1022".to_string()), find_extracted_file(output));

    let output = "Archive:  fantoir.zip\n extracting: FANTOIR1122\n";
    assert_eq!(Some("FANTOIR1122".to_string()), find_extracted_file(output));

    assert_eq!(None, find_extracted_file("Archive:  fantoir.zip\n"));
}
