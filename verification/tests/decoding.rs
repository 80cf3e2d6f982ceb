use csv_align::aligner::AligningState;
use csv_align::batch::RowBatch;
use csv_align::config::FormatSettings;
use csv_align::decoder::ColumnBuilder;
use csv_align::decoder::ColumnKind;
use csv_align::decoder::ColumnValues;
use csv_align::error::CsvError;
use csv_align::error::FieldErrorKind;
use csv_align::InputFormatCSV;

fn settings(empty_as_default: bool) -> FormatSettings {
    InputFormatCSV::get_format_settings(&Vec::new(), &Vec::new(), &vec![b'"'], empty_as_default)
        .unwrap()
}

/// Aligns one complete input into a single batch.
fn batch_of(input: &[u8], nf: usize, empty_as_default: bool) -> RowBatch {
    let s = settings(empty_as_default);
    let mut state = AligningState::create(&s, "t.csv".to_string(), nf, 0).unwrap();
    let mut batches = InputFormatCSV::align(&mut state, input).unwrap();
    assert_eq!(batches.len(), 1);
    batches.remove(0)
}

fn int_column(name: &str) -> ColumnBuilder {
    ColumnBuilder::new(name.to_string(), ColumnKind::Int64)
}

fn ints_of(b: &ColumnBuilder) -> (Vec<i64>, Vec<bool>) {
    match &b.values {
        ColumnValues::Int64(v) => (v.clone(), b.validity.clone()),
        _ => panic!("not an integer column"),
    }
}

#[test]
fn decodes_plain_integers() {
    let batch = batch_of(b"1,2\n-7, 30 \n", 2, true);
    let mut builders = vec![int_column("a"), int_column("b")];
    InputFormatCSV::deserialize(&mut builders, &batch, &settings(true)).unwrap();
    assert_eq!(ints_of(&builders[0]), (vec![1, -7], vec![true, true]));
    assert_eq!(ints_of(&builders[1]), (vec![2, 30], vec![true, true]));
}

#[test]
fn null_marker_gives_null() {
    let batch = batch_of(b"\\N,5\n", 2, true);
    let mut builders = vec![int_column("a"), int_column("b")];
    InputFormatCSV::deserialize(&mut builders, &batch, &settings(true)).unwrap();
    let (values, validity) = ints_of(&builders[0]);
    assert_eq!(validity, vec![false]);
    assert_eq!(values, vec![0]);
    assert_eq!(ints_of(&builders[1]), (vec![5], vec![true]));
}

#[test]
fn empty_field_gives_default_when_configured() {
    let batch = batch_of(b"1,\n", 2, true);
    let mut builders = vec![int_column("a"), int_column("b")];
    InputFormatCSV::deserialize(&mut builders, &batch, &settings(true)).unwrap();
    assert_eq!(ints_of(&builders[1]), (vec![0], vec![true]));
}

#[test]
fn empty_field_fails_without_default() {
    let batch = batch_of(b"1,\n", 2, false);
    let mut builders = vec![int_column("a"), int_column("b")];
    match InputFormatCSV::deserialize(&mut builders, &batch, &settings(false)) {
        Err(CsvError::MalformedField { column, kind, .. }) => {
            assert_eq!(column, 1);
            assert_eq!(kind, FieldErrorKind::Parse);
        }
        other => panic!("expected a malformed field, got {:?}", other),
    }
}

#[test]
fn unparsable_integer_carries_raw_bytes() {
    let batch = batch_of(b"1,2\nabc,3\n", 2, true);
    let mut builders = vec![int_column("x"), int_column("y")];
    match InputFormatCSV::deserialize(&mut builders, &batch, &settings(true)) {
        Err(CsvError::MalformedField { path, row, column, column_name, raw, kind }) => {
            assert_eq!(path, "t.csv".to_string());
            assert_eq!(row, 1);
            assert_eq!(column, 0);
            assert_eq!(column_name, "x".to_string());
            assert_eq!(raw, b"abc".to_vec());
            assert_eq!(kind, FieldErrorKind::Parse);
        }
        other => panic!("expected a malformed field, got {:?}", other),
    }
}

#[test]
fn trailing_bytes_after_value_fail() {
    let batch = batch_of(b"12 3,0\n", 2, true);
    let mut builders = vec![int_column("a"), int_column("b")];
    match InputFormatCSV::deserialize(&mut builders, &batch, &settings(true)) {
        Err(CsvError::MalformedField { column, kind, raw, .. }) => {
            assert_eq!(column, 0);
            assert_eq!(kind, FieldErrorKind::TrailingBytes);
            assert_eq!(raw, b"12 3".to_vec());
        }
        other => panic!("expected a malformed field, got {:?}", other),
    }
}

#[test]
fn integer_bounds_parse_exactly() {
    let batch = batch_of(b"9223372036854775807\n-9223372036854775808\n+5\n", 1, true);
    let mut builders = vec![int_column("a")];
    InputFormatCSV::deserialize(&mut builders, &batch, &settings(true)).unwrap();
    assert_eq!(
        ints_of(&builders[0]).0,
        vec![i64::MAX, i64::MIN, 5]
    );
}

#[test]
fn integer_overflow_is_rejected() {
    let batch = batch_of(b"9223372036854775808\n", 1, true);
    let mut builders = vec![int_column("a")];
    match InputFormatCSV::deserialize(&mut builders, &batch, &settings(true)) {
        Err(CsvError::MalformedField { kind, .. }) => {
            assert_eq!(kind, FieldErrorKind::Parse);
        }
        other => panic!("expected a malformed field, got {:?}", other),
    }
}

#[test]
fn booleans_parse_trimmed() {
    let batch = batch_of(b"true, false \n", 2, true);
    let mut builders = vec![
        ColumnBuilder::new("p".to_string(), ColumnKind::Boolean),
        ColumnBuilder::new("q".to_string(), ColumnKind::Boolean),
    ];
    InputFormatCSV::deserialize(&mut builders, &batch, &settings(true)).unwrap();
    match (&builders[0].values, &builders[1].values) {
        (ColumnValues::Boolean(p), ColumnValues::Boolean(q)) => {
            assert_eq!(p, &vec![true]);
            assert_eq!(q, &vec![false]);
        }
        _ => panic!("not boolean columns"),
    }
}

#[test]
fn boolean_case_sensitive() {
    let batch = batch_of(b"TRUE\n", 1, true);
    let mut builders = vec![ColumnBuilder::new("p".to_string(), ColumnKind::Boolean)];
    match InputFormatCSV::deserialize(&mut builders, &batch, &settings(true)) {
        Err(CsvError::MalformedField { kind, .. }) => {
            assert_eq!(kind, FieldErrorKind::Parse);
        }
        other => panic!("expected a malformed field, got {:?}", other),
    }
}

#[test]
fn utf8_column_keeps_trimmed_bytes() {
    let batch = batch_of(b"  hello world ,x\n", 2, true);
    let mut builders = vec![
        ColumnBuilder::new("s".to_string(), ColumnKind::Utf8),
        ColumnBuilder::new("t".to_string(), ColumnKind::Utf8),
    ];
    InputFormatCSV::deserialize(&mut builders, &batch, &settings(true)).unwrap();
    match &builders[0].values {
        ColumnValues::Utf8(v) => assert_eq!(v[0], b"hello world".to_vec()),
        _ => panic!("not a string column"),
    }
}

#[test]
fn read_row_decodes_one_row() {
    let batch = batch_of(b"1,2\n3,4\n", 2, true);
    let mut builders = vec![int_column("a"), int_column("b")];
    InputFormatCSV::read_row(&batch, 1, &mut builders, &settings(true)).unwrap();
    assert_eq!(ints_of(&builders[0]).0, vec![3]);
    assert_eq!(ints_of(&builders[1]).0, vec![4]);
}
