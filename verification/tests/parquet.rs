use std::sync::Arc;

use arrow::array::{
    ArrayRef, BooleanArray, Date32Array, Decimal128Array, Float64Array, Int32Array, StringArray,
    TimestampMillisecondArray, TimestampSecondArray,
};
use arrow::record_batch::RecordBatch;
use daplot::batches::ArrowType;
use daplot::data::{ColumnKind, LoadError};
use daplot::datetime::{TimeEncoding, Timestamp};
use daplot::parquet::{arrow_type_of, has_prefix, load_parquet, time_encoding_of};

/// The bytes of a Parquet file holding `batches`.
fn parquet_bytes(batches: &[RecordBatch]) -> Vec<u8> {
    let mut buf = Vec::new();
    let mut w = parquet::arrow::ArrowWriter::try_new(&mut buf, batches[0].schema(), None).unwrap();
    for b in batches {
        w.write(b).unwrap();
    }
    w.close().unwrap();
    buf
}

fn numbers(kind: &ColumnKind) -> Vec<Option<f64>> {
    match kind {
        ColumnKind::Numeric(v) => v.iter().map(|s| s.as_ref().map(|t| t.parse::<f64>().unwrap())).collect(),
        _ => panic!("expected numbers"),
    }
}

fn sample() -> RecordBatch {
    RecordBatch::try_from_iter(vec![
        ("i", Arc::new(Int32Array::from(vec![Some(1), None, Some(-3)])) as ArrayRef),
        ("f", Arc::new(Float64Array::from(vec![Some(0.1), Some(1e20), None])) as ArrayRef),
        ("b", Arc::new(BooleanArray::from(vec![Some(true), Some(false), None])) as ArrayRef),
        (
            "d",
            Arc::new(
                Decimal128Array::from(vec![Some(150), None, Some(-5)])
                    .with_precision_and_scale(10, 2)
                    .unwrap(),
            ) as ArrayRef,
        ),
        ("day", Arc::new(Date32Array::from(vec![Some(1), None, Some(-1)])) as ArrayRef),
        (
            "ms",
            Arc::new(TimestampMillisecondArray::from(vec![Some(1_500), Some(-1), None])) as ArrayRef,
        ),
        (
            "utc",
            Arc::new(TimestampSecondArray::from(vec![Some(7), None, Some(0)]).with_timezone("UTC"))
                as ArrayRef,
        ),
        ("s", Arc::new(StringArray::from(vec![Some("a"), None, Some("")])) as ArrayRef),
    ])
    .unwrap()
}

#[test]
fn parquet_columns_are_read_by_their_arrow_types() {
    let t = load_parquet(&parquet_bytes(&[sample()])).unwrap();
    assert_eq!(t.row_count, 3);
    assert_eq!(
        t.column_names(),
        vec!["i", "f", "b", "d", "day", "ms", "utc", "s"].into_iter().map(String::from).collect::<Vec<_>>()
    );
    assert_eq!(numbers(&t.columns[0].kind), vec![Some(1.0), None, Some(-3.0)]);
    assert_eq!(numbers(&t.columns[1].kind), vec![Some(0.1), Some(1e20), None]);
    assert_eq!(numbers(&t.columns[2].kind), vec![Some(1.0), Some(0.0), None]);
    assert_eq!(numbers(&t.columns[3].kind), vec![Some(1.5), None, Some(-0.05)]);
    let stamp = |n: i128| Some(Timestamp { nanos: n });
    match &t.columns[4].kind {
        ColumnKind::DateTime(v) => {
            assert_eq!(v, &vec![stamp(86_400_000_000_000), None, stamp(-86_400_000_000_000)])
        }
        _ => panic!("expected dates"),
    }
    match &t.columns[5].kind {
        ColumnKind::DateTime(v) => assert_eq!(v, &vec![stamp(1_500_000_000), stamp(-1_000_000), None]),
        _ => panic!("expected timestamps"),
    }
    match &t.columns[6].kind {
        ColumnKind::DateTime(v) => assert_eq!(v, &vec![stamp(7_000_000_000), None, stamp(0)]),
        _ => panic!("expected timestamps"),
    }
    match &t.columns[7].kind {
        ColumnKind::Text(v) => assert_eq!(v, &vec!["a".to_string(), String::new(), String::new()]),
        _ => panic!("expected text"),
    }
}

#[test]
fn parquet_batches_are_gathered() {
    let b1 = RecordBatch::try_from_iter(vec![(
        "x",
        Arc::new(Int32Array::from((0..1500).collect::<Vec<i32>>())) as ArrayRef,
    )])
    .unwrap();
    let b2 = RecordBatch::try_from_iter(vec![(
        "x",
        Arc::new(Int32Array::from((1500..2000).collect::<Vec<i32>>())) as ArrayRef,
    )])
    .unwrap();
    let t = load_parquet(&parquet_bytes(&[b1, b2])).unwrap();
    assert_eq!(t.row_count, 2000);
    let v = numbers(&t.columns[0].kind);
    assert_eq!(v.len(), 2000);
    for (i, x) in v.iter().enumerate() {
        assert_eq!(*x, Some(i as f64));
    }
}

#[test]
fn parquet_without_rows_gives_empty_text_columns() {
    let empty = RecordBatch::try_from_iter(vec![(
        "x",
        Arc::new(Int32Array::from(Vec::<i32>::new())) as ArrayRef,
    )])
    .unwrap();
    let t = load_parquet(&parquet_bytes(&[empty])).unwrap();
    assert_eq!(t.row_count, 0);
    assert_eq!(t.column_names(), vec!["x".to_string()]);
    // the reader yields no batch, so no batch fixes the column's kind
    match &t.columns[0].kind {
        ColumnKind::Text(v) => assert!(v.is_empty()),
        _ => panic!("expected text"),
    }
}

#[test]
fn parquet_garbage_is_a_metadata_error() {
    match load_parquet(b"not a parquet file") {
        Err(e @ LoadError::ParquetMetadata(_)) => {
            assert!(e.message().starts_with("reading parquet metadata: "))
        }
        other => panic!("unexpected {:?}", other.map(|t| t.row_count)),
    }
}

#[test]
fn arrow_type_names_are_recognised() {
    assert_eq!(arrow_type_of("Int8"), ArrowType::Int8);
    assert_eq!(arrow_type_of("UInt64"), ArrowType::UInt64);
    assert_eq!(arrow_type_of("Float64"), ArrowType::Float64);
    assert_eq!(arrow_type_of("Boolean"), ArrowType::Boolean);
    assert_eq!(arrow_type_of("Decimal128(10, 2)"), ArrowType::Decimal128);
    assert_eq!(arrow_type_of("Decimal256(76, 0)"), ArrowType::Decimal256);
    assert_eq!(arrow_type_of("Date32"), ArrowType::Date32);
    assert_eq!(arrow_type_of("Timestamp(ms, \"UTC\")"), ArrowType::Timestamp);
    assert_eq!(arrow_type_of("Utf8"), ArrowType::Other);
    assert_eq!(arrow_type_of("Int8 "), ArrowType::Other);
    assert_eq!(time_encoding_of("Date32"), Some(TimeEncoding::Date32Days));
    assert_eq!(time_encoding_of("Date64"), Some(TimeEncoding::Date64Millis));
    assert_eq!(time_encoding_of("Timestamp(s)"), Some(TimeEncoding::Seconds));
    assert_eq!(time_encoding_of("Timestamp(ms, \"+01:00\")"), Some(TimeEncoding::Millis));
    assert_eq!(time_encoding_of("Timestamp(µs)"), Some(TimeEncoding::Micros));
    assert_eq!(time_encoding_of("Timestamp(ns, \"UTC\")"), Some(TimeEncoding::Nanos));
    assert_eq!(time_encoding_of("Timestamp(sx)"), None);
    assert_eq!(time_encoding_of("Int64"), None);
    assert!(has_prefix("Timestamp(ms)", "Timestamp("));
    assert!(!has_prefix("Time", "Timestamp("));
}
