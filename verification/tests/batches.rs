use daplot::batches::{classify_arrow_type, ArrowType, ColumnAccumulator, ColumnClass};
use daplot::data::ColumnKind;
use daplot::datetime::Timestamp;

#[test]
fn arrow_types_are_classified() {
    for t in [ArrowType::Int8, ArrowType::UInt64, ArrowType::Float32, ArrowType::Boolean, ArrowType::Decimal256] {
        assert_eq!(classify_arrow_type(t), ColumnClass::Numeric);
    }
    for t in [ArrowType::Date32, ArrowType::Date64, ArrowType::Timestamp] {
        assert_eq!(classify_arrow_type(t), ColumnClass::DateTime);
    }
    assert_eq!(classify_arrow_type(ArrowType::Other), ColumnClass::Text);
}

#[test]
fn the_first_batch_fixes_the_kind() {
    let mut acc = ColumnAccumulator::new(vec!["x".to_string(), "t".to_string()]);
    assert!(acc.is_complete());
    // first batch: x numeric, t a timestamp
    acc.add_rows(2);
    assert!(!acc.is_complete());
    assert_eq!(acc.class_for(0, ArrowType::Int32), ColumnClass::Numeric);
    acc.append_numeric(0, vec![Some("1".to_string()), None]);
    assert_eq!(acc.class_for(1, ArrowType::Timestamp), ColumnClass::DateTime);
    assert_eq!(acc.column_len(1), 0);
    acc.append_datetime(1, vec![Some(Timestamp::from_millis(5)), None]);
    assert_eq!(acc.column_len(1), 2);
    assert!(acc.is_complete());
    // second batch: x now arrives as strings, but stays numeric
    acc.add_rows(1);
    assert_eq!(acc.class_for(0, ArrowType::Other), ColumnClass::Numeric);
    acc.append_numeric(0, vec![Some("7".to_string())]);
    assert!(!acc.is_complete());
    assert_eq!(acc.class_for(1, ArrowType::Other), ColumnClass::DateTime);
    acc.append_datetime(1, vec![None]);
    assert!(acc.is_complete());
    let t = acc.finish();
    assert_eq!(t.row_count, 3);
    assert_eq!(t.column_names(), vec!["x".to_string(), "t".to_string()]);
    match &t.columns[0].kind {
        ColumnKind::Numeric(v) => {
            assert_eq!(v, &vec![Some("1".to_string()), None, Some("7".to_string())])
        }
        _ => panic!("expected numbers"),
    }
    match &t.columns[1].kind {
        ColumnKind::DateTime(v) => {
            assert_eq!(v, &vec![Some(Timestamp { nanos: 5_000_000 }), None, None])
        }
        _ => panic!("expected datetimes"),
    }
}

#[test]
fn columns_without_batches_are_empty_text() {
    let acc = ColumnAccumulator::new(vec!["a".to_string(), "b".to_string()]);
    assert!(acc.is_complete());
    assert_eq!(acc.column_len(0), 0);
    let t = acc.finish();
    assert_eq!(t.row_count, 0);
    for c in &t.columns {
        match &c.kind {
            ColumnKind::Text(v) => assert!(v.is_empty()),
            _ => panic!("expected text"),
        }
    }
}

#[test]
fn text_columns_gather_strings() {
    let mut acc = ColumnAccumulator::new(vec!["s".to_string()]);
    acc.add_rows(2);
    assert_eq!(acc.class_for(0, ArrowType::Other), ColumnClass::Text);
    acc.append_text(0, vec!["a".to_string(), String::new()]);
    let t = acc.finish();
    assert_eq!(t.text_labels(0), Some(vec!["a".to_string(), String::new()]));
}
