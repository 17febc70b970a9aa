use fantoir_datasource::rfc::Rfc;
use fantoir_datasource::rfc::zerofill;

#[test]
pub fn test_zerofill() {
    // Test case 1: number is smaller than width (usual case)
    assert_eq!(zerofill(42, 5), "00042");

    // Test case 2: number is equal to width
    assert_eq!(zerofill(12345, 5), "12345");

    // Test case 3: number is larger than width
    assert_eq!(zerofill(987654, 4), "987654");

    // Test case 4: number is zero
    assert_eq!(zerofill(0, 3), "000");

    // Test case 5: width is zero
    assert_eq!(zerofill(987, 0), "987");
}

#[test]
fn test_parse_block() {
    let block = "0001 Host Software. (Format: TXT, HTML) (Status: UNKNOWN) \n     (DOI: 10.17487/RFC0001) ";
    let rfc = Rfc::parse_block(block).unwrap();
    assert_eq!(1, rfc.id);
    assert_eq!("Host Software.", &rfc.description);
    assert_eq!(Some("UNKNOWN".to_string()), rfc.get_status());
    assert_eq!(
        vec![
            ("Format".to_string(), "TXT, HTML".to_string()),
            ("Status".to_string(), "UNKNOWN".to_string()),
            ("DOI".to_string(), "10.17487/RFC0001".to_string()),
        ],
        rfc.metadata
    );
    assert!(rfc.untagged_metadata.is_empty());
}

#[test]
fn test_parse_block_without_entry() {
    assert!(Rfc::parse_block("This block is prose without any entry.").is_none());
}

#[test]
fn test_parse_index_document() {
    let document = "RFC index\n=========\n\n0001 Host Software. (Status: UNKNOWN) \n\n0002 Host software. (Status: UNKNOWN) (Not online) ";
    let rfcs = Rfc::parse_document(document);
    assert_eq!(2, rfcs.len());
    assert_eq!(1, rfcs[0].id);
    assert_eq!(2, rfcs[1].id);
    assert_eq!(vec!["Not online".to_string()], rfcs[1].untagged_metadata);
}

#[test]
fn test_get_full_status_metadata() {
    let rfc = Rfc {
        id: 1,
        description: "Host Software.".to_string(),
        metadata: vec![
            ("Status".to_string(), "UNKNOWN".to_string()),
            ("DOI".to_string(), "10.17487/RFC0001".to_string()),
        ],
        untagged_metadata: vec!["Not online".to_string()],
    };
    assert_eq!(
        vec!["Not online.".to_string(), "Status: UNKNOWN.".to_string()],
        rfc.get_full_status_metadata()
    );
    assert_eq!("Not online. Status: UNKNOWN.", &rfc.get_full_status());
}

#[test]
fn test_format_placeholders() {
    let rfc = Rfc {
        id: 42,
        description: "Some memo".to_string(),
        metadata: vec![("Status".to_string(), "UNKNOWN".to_string())],
        untagged_metadata: Vec::new(),
    };
    assert_eq!(
        "RFC 42: Some memo [UNKNOWN]",
        &rfc.format("RFC %%id%%: %%description%% [%%status%%]")
    );
    assert_eq!("rfc00042.txt", &rfc.format("rfc%%5id%%.txt"));
    assert_eq!("Status: UNKNOWN.", &rfc.format("%%fullstatus%%"));
}
