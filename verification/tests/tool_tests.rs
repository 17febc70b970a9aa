use fantoir_datasource::calendar::CalendarDate;
use fantoir_datasource::db::TableInitializationArgs;
use fantoir_datasource::db::TableInitializationPlan;
use fantoir_datasource::db::plan_table_initialization;
use fantoir_datasource::db::split_queries;
use fantoir_datasource::http_client::get_user_agent;
use fantoir_datasource::query::FantoirVoieResult;
use fantoir_datasource::query::QueryArgs;
use fantoir_datasource::query::entry_matches_conditions;
use fantoir_datasource::query::pick_fantoir_code_from_args;

fn args(create_table: bool, overwrite_table: bool) -> TableInitializationArgs {
    TableInitializationArgs {
        table_name: "fantoir_202210".to_string(),
        create_table,
        overwrite_table,
    }
}

#[test]
fn test_plan_table_initialization() {
    assert_eq!(
        TableInitializationPlan::UseExistingTable,
        plan_table_initialization(true, true, &args(false, false))
    );
    assert_eq!(
        TableInitializationPlan::TruncateTable,
        plan_table_initialization(true, false, &args(false, true))
    );
    assert_eq!(
        TableInitializationPlan::RefuseExistingRows,
        plan_table_initialization(true, false, &args(true, false))
    );
    assert_eq!(
        TableInitializationPlan::CreateTable,
        plan_table_initialization(false, false, &args(true, false))
    );
    assert_eq!(
        TableInitializationPlan::RefuseMissingTable,
        plan_table_initialization(false, true, &args(false, true))
    );
}

#[test]
fn test_split_queries() {
    let queries = "CREATE TABLE a (x int);\n\n\nCREATE TABLE b (y int);";
    assert_eq!(
        vec![
            "CREATE TABLE a (x int);".to_string(),
            "CREATE TABLE b (y int);".to_string(),
        ],
        split_queries(queries)
    );
    assert_eq!(vec!["SELECT 1;".to_string()], split_queries("SELECT 1;"));
}

fn voie(code_nature_voie: Option<&str>) -> FantoirVoieResult {
    FantoirVoieResult {
        code_fantoir: "380003B001W".to_string(),
        code_insee: "38003".to_string(),
        identifiant_communal_voie: "B001".to_string(),
        code_nature_voie: code_nature_voie.map(|s| s.to_string()),
        libelle_voie: "DES LILAS".to_string(),
    }
}

#[test]
fn test_get_name() {
    assert_eq!("RUE DES LILAS", &voie(Some("RUE")).get_name());
    assert_eq!("DES LILAS", &voie(None).get_name());
    assert_eq!("DES LILAS", &voie(Some("")).get_name());
}

#[test]
fn test_format_line() {
    assert_eq!("380003B001W\t38003 B001\tRUE DES LILAS", &voie(Some("RUE")).format_line());
}

#[test]
fn test_entry_matches_conditions() {
    let with_filter = QueryArgs {
        code_insee: Some("38003".to_string()),
        code_voie: None,
        expression: Vec::new(),
    };
    let other_commune = QueryArgs {
        code_insee: Some("75056".to_string()),
        code_voie: None,
        expression: Vec::new(),
    };
    let no_filter = QueryArgs { code_insee: None, code_voie: None, expression: Vec::new() };
    assert!(entry_matches_conditions(&voie(None), &with_filter));
    assert!(!entry_matches_conditions(&voie(None), &other_commune));
    assert!(entry_matches_conditions(&voie(None), &no_filter));
}

#[test]
fn test_pick_fantoir_code_from_args() {
    assert_eq!(
        Some("755112P144L".to_string()),
        pick_fantoir_code_from_args(&vec!["755112P144L".to_string()])
    );
    assert_eq!(None, pick_fantoir_code_from_args(&vec!["LILAS".to_string()]));
    assert_eq!(
        None,
        pick_fantoir_code_from_args(&vec!["755112P144L".to_string(), "LILAS".to_string()])
    );
}

#[test]
fn test_get_user_agent() {
    assert!(get_user_agent().starts_with("fantoir-datasource/"));
}

#[test]
fn test_calendar_from_yo_opt() {
    assert_eq!(CalendarDate::from_ymd_opt(2024, 12, 31), CalendarDate::from_yo_opt(2024, 366));
    assert_eq!(None, CalendarDate::from_yo_opt(2023, 366));
    assert_eq!(CalendarDate::from_ymd_opt(2023, 3, 1), CalendarDate::from_yo_opt(2023, 60));
    assert_eq!(CalendarDate::from_ymd_opt(2024, 2, 29), CalendarDate::from_yo_opt(2024, 60));
    assert_eq!(None, CalendarDate::from_yo_opt(2024, 0));
    assert_eq!(None, CalendarDate::from_ymd_opt(2023, 2, 29));
}
