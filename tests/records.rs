use csv::StringRecord;
use csv_pager::dataframe::{DataFrame, Record, MISSING_NUMBER};

fn survey_row(year: &str, value: &str) -> StringRecord {
    StringRecord::from(vec![
        year,
        "Level 1",
        "99999",
        "All industries",
        "Dollars (millions)",
        "H01",
        "Total income",
        "Financial performance",
        value,
        "ANZSIC06 divisions A-S",
    ])
}

#[test]
fn record_from_fields() {
    let r = Record::from(survey_row("2024", "979594"));
    assert_eq!(r.year, 2024);
    assert_eq!(r.agg_nzsioc, "Level 1");
    assert_eq!(r.code_nzsioc, "99999");
    assert_eq!(r.name_nzsioc, "All industries");
    assert_eq!(r.units, "Dollars (millions)");
    assert_eq!(r.var_code, "H01");
    assert_eq!(r.var_name, "Total income");
    assert_eq!(r.var_category, "Financial performance");
    assert_eq!(r.value, 979594);
    assert_eq!(r.code_anzsic06, "ANZSIC06 divisions A-S");
}

#[test]
fn numbers_that_do_not_parse_become_missing() {
    let r = Record::from(survey_row("C", "-12"));
    assert_eq!(r.year, MISSING_NUMBER);
    assert_eq!(r.value, -12);
    let r = Record::from(survey_row("+7", " 5"));
    assert_eq!(r.year, 7);
    assert_eq!(r.value, MISSING_NUMBER);
    let r = Record::from(survey_row("2147483648", "-2147483648"));
    assert_eq!(r.year, MISSING_NUMBER);
    assert_eq!(r.value, i32::MIN);
    let r = Record::from(survey_row("", "-"));
    assert_eq!(r.year, MISSING_NUMBER);
    assert_eq!(r.value, MISSING_NUMBER);
}

#[test]
fn data_frame_from_records() {
    let header = StringRecord::from(vec![
        "Year", "Industry_aggregation_NZSIOC", "Industry_code_NZSIOC", "Industry_name_NZSIOC",
        "Units", "Variable_code", "Variable_name", "Variable_category", "Value",
        "Industry_code_ANZSIC06",
    ]);
    let rows = vec![survey_row("2024", "1"), survey_row("2023", "2")];
    let df = DataFrame::from_string_records(&header, rows).unwrap();
    assert_eq!(df.header.len(), 10);
    assert_eq!(df.header[0], "Year");
    assert_eq!(df.header[9], "Industry_code_ANZSIC06");
    assert_eq!(df.row_count(), 2);
    assert_eq!(df.data[1].year, 2023);
    assert_eq!(df.data[1].value, 2);
}

#[test]
fn short_record_is_refused() {
    let header = StringRecord::from(vec!["a", "b"]);
    let rows = vec![survey_row("2024", "1"), StringRecord::from(vec!["x", "y"])];
    assert!(DataFrame::from_string_records(&header, rows).is_none());
    let empty = DataFrame::from_string_records(&header, vec![]).unwrap();
    assert_eq!(empty.row_count(), 0);
    assert_eq!(empty.header, vec!["a".to_string(), "b".to_string()]);
}
