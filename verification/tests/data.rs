use daplot::data::{
    default_x_column, format_for_extension, infer_column, load_csv, table_from_records,
    ColumnData, ColumnKind, FileFormat, LoadError, PlotValue, Table,
};
use daplot::datetime::Timestamp;

fn strings(vals: &[&str]) -> Vec<String> {
    vals.iter().map(|s| s.to_string()).collect()
}

fn text_col(name: &str, vals: &[&str]) -> ColumnData {
    ColumnData { name: name.to_string(), kind: ColumnKind::Text(strings(vals)) }
}

fn sample() -> Table {
    Table {
        columns: vec![
            text_col("label", &["b", "a", "b", "c", "a"]),
            ColumnData {
                name: "when".to_string(),
                kind: ColumnKind::DateTime(vec![
                    Some(Timestamp::from_seconds(0)),
                    None,
                    Some(Timestamp::from_seconds(60)),
                    None,
                    None,
                ]),
            },
            ColumnData {
                name: "value".to_string(),
                kind: ColumnKind::Numeric(vec![
                    Some("1".to_string()),
                    None,
                    Some("2.5".to_string()),
                    Some("-3".to_string()),
                    None,
                ]),
            },
            ColumnData {
                name: "when".to_string(),
                kind: ColumnKind::DateTime(vec![None; 5]),
            },
        ],
        row_count: 5,
    }
}

#[test]
fn questions_about_columns() {
    let t = sample();
    assert_eq!(t.column_names(), strings(&["label", "when", "value", "when"]));
    assert_eq!(t.column_index("when"), Some(1));
    assert_eq!(t.column_index("value"), Some(2));
    assert_eq!(t.column_index("nope"), None);
    assert!(t.is_datetime(1));
    assert!(!t.is_datetime(2));
    assert!(t.is_numeric(2));
    assert!(!t.is_numeric(0));
    assert_eq!(t.plottable_y_columns(), strings(&["when", "value", "when"]));
    assert_eq!(t.first_datetime_column(), Some("when".to_string()));
    assert_eq!(t.columns[0].type_label(), "text");
    assert_eq!(t.columns[1].type_label(), "datetime");
    assert_eq!(t.columns[2].type_label(), "number");
}

#[test]
fn no_datetime_column() {
    let t = Table { columns: vec![text_col("a", &["x"])], row_count: 1 };
    assert_eq!(t.first_datetime_column(), None);
    assert!(t.plottable_y_columns().is_empty());
    let empty = Table::default();
    assert_eq!(empty.row_count, 0);
    assert!(empty.column_names().is_empty());
}

fn as_numbers(vals: &[PlotValue]) -> Vec<f64> {
    vals.iter()
        .map(|v| match v {
            PlotValue::Missing => f64::NAN,
            PlotValue::Number(s) => s.parse::<f64>().unwrap(),
            PlotValue::Instant(t) => t.nanos as f64 / 1e9,
            PlotValue::Category(i) => *i as f64,
        })
        .collect()
}

#[test]
fn categories_follow_first_appearance() {
    let t = sample();
    assert_eq!(as_numbers(&t.as_f64(0)), vec![0.0, 1.0, 0.0, 2.0, 1.0]);
    let labels = t.text_labels(0).unwrap();
    assert_eq!(labels, strings(&["b", "a", "c"]));
    // each category index points back at its label
    for (i, v) in t.as_f64(0).iter().enumerate() {
        match v {
            PlotValue::Category(c) => match &t.columns[0].kind {
                ColumnKind::Text(vals) => assert_eq!(labels[*c], vals[i]),
                _ => unreachable!(),
            },
            _ => panic!("not a category"),
        }
    }
    assert_eq!(t.text_labels(1), None);
    assert_eq!(t.text_labels(2), None);
}

#[test]
fn numbers_and_instants_as_plot_values() {
    let t = sample();
    let nums = as_numbers(&t.as_f64(2));
    assert_eq!(nums[0], 1.0);
    assert!(nums[1].is_nan());
    assert_eq!(nums[2], 2.5);
    assert_eq!(nums[3], -3.0);
    let times = as_numbers(&t.as_f64(1));
    assert_eq!(times[0], 0.0);
    assert!(times[1].is_nan());
    assert_eq!(times[2], 60.0);
}

/// The reference classification: which kind a column of raw values gets.
fn kind_name(k: &ColumnKind) -> &'static str {
    match k {
        ColumnKind::Numeric(_) => "number",
        ColumnKind::DateTime(_) => "datetime",
        ColumnKind::Text(_) => "text",
    }
}

#[test]
fn inference_picks_the_narrowest_kind() {
    assert_eq!(kind_name(&infer_column(&strings(&["1", " 2.5 ", "", "-3e2"]))), "number");
    assert_eq!(kind_name(&infer_column(&strings(&["2024-01-01", "", "2024-01-02 10:00:00"]))), "datetime");
    assert_eq!(kind_name(&infer_column(&strings(&["1", "x"]))), "text");
    assert_eq!(kind_name(&infer_column(&strings(&["", "  "]))), "text");
    assert_eq!(kind_name(&infer_column(&[])), "text");
    // numbers win over dates when both readings work
    assert_eq!(kind_name(&infer_column(&strings(&["2024"]))), "number");
}

#[test]
fn inferred_values() {
    match infer_column(&strings(&[" 1 ", "", "nan", "inf"])) {
        ColumnKind::Numeric(v) => assert_eq!(
            v,
            vec![Some("1".to_string()), None, Some("nan".to_string()), Some("inf".to_string())]
        ),
        _ => panic!("expected numbers"),
    }
    match infer_column(&strings(&["1970-01-02", " "])) {
        ColumnKind::DateTime(v) => {
            assert_eq!(v, vec![Some(Timestamp::from_days(1)), None])
        }
        _ => panic!("expected datetimes"),
    }
    match infer_column(&strings(&[" a ", ""])) {
        ColumnKind::Text(v) => assert_eq!(v, strings(&[" a ", ""])),
        _ => panic!("expected text"),
    }
}

#[test]
fn csv_bytes_into_a_table() {
    let data = b" time , value,name\n2024-01-01,1,a\n2024-01-02,,b,extra\n2024-01-03\n";
    let t = load_csv(data, b',').unwrap();
    assert_eq!(t.row_count, 3);
    assert_eq!(t.column_names(), strings(&["time", "value", "name"]));
    assert!(t.is_datetime(0));
    assert!(t.is_numeric(1));
    match &t.columns[1].kind {
        ColumnKind::Numeric(v) => assert_eq!(v, &vec![Some("1".to_string()), None, None]),
        _ => unreachable!(),
    }
    match &t.columns[2].kind {
        ColumnKind::Text(v) => assert_eq!(v, &strings(&["a", "b", ""])),
        _ => unreachable!(),
    }
}

#[test]
fn tab_separated_and_empty_input() {
    let t = load_csv(b"a\tb\n1\t2\n", b'\t').unwrap();
    assert_eq!(t.column_names(), strings(&["a", "b"]));
    assert_eq!(t.row_count, 1);
    let e = load_csv(b"", b',').unwrap();
    assert_eq!(e.row_count, 0);
    assert!(e.columns.is_empty());
}

#[test]
fn invalid_utf8_header_is_an_error() {
    match load_csv(b"\xff\xfe\n1\n", b',') {
        Err(LoadError::CsvHeader(m)) => assert!(!m.is_empty()),
        other => panic!("unexpected {:?}", other.map(|t| t.row_count)),
    }
    match load_csv(b"a\n\xff\n", b',') {
        Err(e @ LoadError::CsvRow(_)) => assert!(e.message().starts_with("reading CSV row: ")),
        other => panic!("unexpected {:?}", other.map(|t| t.row_count)),
    }
}

#[test]
fn records_without_headers_have_no_rows() {
    let t = table_from_records(&[], &[strings(&["1"])]);
    assert_eq!(t.row_count, 0);
    assert!(t.columns.is_empty());
}

#[test]
fn extensions_pick_the_format() {
    assert_eq!(format_for_extension("csv").unwrap(), FileFormat::Csv { delimiter: b',' });
    assert_eq!(format_for_extension("TXT").unwrap(), FileFormat::Csv { delimiter: b',' });
    assert_eq!(format_for_extension("Tsv").unwrap(), FileFormat::Csv { delimiter: b'\t' });
    assert_eq!(format_for_extension("parquet").unwrap(), FileFormat::Parquet);
    assert_eq!(format_for_extension("PQ").unwrap(), FileFormat::Parquet);
    match format_for_extension("XLSX") {
        Err(e) => assert_eq!(
            e.message(),
            "Unsupported file extension: .xlsx (expected .csv, .tsv or .parquet)"
        ),
        Ok(f) => panic!("unexpected {:?}", f),
    }
    match format_for_extension("") {
        Err(e) => assert_eq!(
            e.message(),
            "Unsupported file extension: . (expected .csv, .tsv or .parquet)"
        ),
        Ok(f) => panic!("unexpected {:?}", f),
    }
}

#[test]
fn error_messages() {
    assert_eq!(LoadError::CsvHeader("bad".to_string()).message(), "reading CSV header row: bad");
    assert_eq!(LoadError::CsvRow("bad".to_string()).message(), "reading CSV row: bad");
}

#[test]
fn default_x_prefers_the_filter_column() {
    let t = sample();
    assert_eq!(default_x_column(&Some("when".to_string()), &t), Some("when".to_string()));
    assert_eq!(default_x_column(&None, &t), Some("label".to_string()));
    assert_eq!(default_x_column(&None, &Table::default()), None);
}

#[test]
fn datetime_column_names_in_order() {
    let t = sample();
    assert_eq!(t.datetime_column_names(), strings(&["when", "when"]));
    assert!(Table::default().datetime_column_names().is_empty());
}

#[test]
fn many_distinct_labels_are_categorised_quickly() {
    let n = 50_000;
    let vals: Vec<String> = (0..n).map(|i| format!("id-{}", i % 20_000)).collect();
    let t = Table {
        columns: vec![ColumnData { name: "id".to_string(), kind: ColumnKind::Text(vals.clone()) }],
        row_count: n,
    };
    let labels = t.text_labels(0).unwrap();
    assert_eq!(labels.len(), 20_000);
    assert_eq!(labels[0], "id-0");
    assert_eq!(labels[19_999], "id-19999");
    let cats = t.as_f64(0);
    match &cats[25_000] {
        PlotValue::Category(c) => assert_eq!(labels[*c], vals[25_000]),
        _ => panic!("not a category"),
    }
}

/// The text of the first error csv reports for `bytes`, read as `load_csv`
/// reads them.
fn csv_first_error(bytes: &[u8]) -> Option<String> {
    let mut rdr = csv::ReaderBuilder::new().has_headers(true).flexible(true).from_reader(bytes);
    if let Err(e) = rdr.headers() {
        return Some(e.to_string());
    }
    for rec in rdr.records() {
        if let Err(e) = rec {
            return Some(e.to_string());
        }
    }
    None
}

#[test]
fn csv_errors_carry_the_csv_text() {
    let header_bad: &[u8] = b"\xff\xfe\n1\n";
    match load_csv(header_bad, b',') {
        Err(LoadError::CsvHeader(m)) => assert_eq!(Some(m), csv_first_error(header_bad)),
        other => panic!("unexpected {:?}", other.map(|t| t.row_count)),
    }
    let row_bad: &[u8] = b"a\n\xff\n";
    match load_csv(row_bad, b',') {
        Err(e @ LoadError::CsvRow(_)) => {
            let expected = format!("reading CSV row: {}", csv_first_error(row_bad).unwrap());
            assert_eq!(e.message(), expected);
        }
        other => panic!("unexpected {:?}", other.map(|t| t.row_count)),
    }
}
