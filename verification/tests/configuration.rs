use csv_align::aligner::validate_field_count;
use csv_align::aligner::AligningState;
use csv_align::config::RecordDelimiter;
use csv_align::error::ConfigErrorKind;
use csv_align::error::CsvError;
use csv_align::error::RowErrorKind;
use csv_align::InputFormatCSV;

#[test]
fn default_settings() {
    let s = InputFormatCSV::get_format_settings(&Vec::new(), &Vec::new(), &vec![b'"'], true)
        .unwrap();
    assert_eq!(s.field_delimiter, b',');
    assert_eq!(s.record_delimiter, RecordDelimiter::Crlf);
    assert_eq!(s.quote_char, b'"');
    assert_eq!(s.null_bytes, b"\\N".to_vec());
    assert!(s.empty_as_default);
}

#[test]
fn multi_byte_quote_is_rejected() {
    match InputFormatCSV::get_format_settings(&Vec::new(), &Vec::new(), &vec![b'"', b'"'], true) {
        Err(CsvError::Configuration { kind }) => {
            assert_eq!(kind, ConfigErrorKind::QuoteNotSingleByte { len: 2 });
        }
        other => panic!("expected a configuration error, got {:?}", other),
    }
}

#[test]
fn crlf_record_delimiter_bytes() {
    let s = InputFormatCSV::get_format_settings(&Vec::new(), &b"\r\n".to_vec(), &vec![b'"'], true)
        .unwrap();
    assert_eq!(s.record_delimiter, RecordDelimiter::Crlf);
    let s = InputFormatCSV::get_format_settings(&Vec::new(), &vec![b'|'], &vec![b'"'], true)
        .unwrap();
    assert_eq!(s.record_delimiter, RecordDelimiter::Any(b'|'));
}

#[test]
fn custom_field_delimiter() {
    let s = InputFormatCSV::get_format_settings(&vec![b'\t'], &Vec::new(), &vec![b'"'], false)
        .unwrap();
    assert_eq!(s.field_delimiter, b'\t');
    assert!(!s.empty_as_default);
}

#[test]
fn default_field_delimiter_is_comma() {
    assert_eq!(InputFormatCSV::default_field_delimiter(), b',');
}

#[test]
fn zero_fields_cannot_open() {
    let s = InputFormatCSV::get_format_settings(&Vec::new(), &Vec::new(), &vec![b'"'], true)
        .unwrap();
    match AligningState::create(&s, "t.csv".to_string(), 0, 0) {
        Err(CsvError::Configuration { kind }) => {
            assert_eq!(kind, ConfigErrorKind::NoFields);
        }
        other => panic!("expected a configuration error, got {:?}", other),
    }
}

#[test]
fn field_count_policy() {
    let ends = vec![1usize, 2, 2, 5];
    assert!(validate_field_count(&ends, 2, 2).is_ok());
    // one extra field end, but empty: a trailing delimiter, tolerated
    assert!(validate_field_count(&ends, 3, 2).is_ok());
    assert_eq!(
        validate_field_count(&ends, 1, 2),
        Err(RowErrorKind::TooFewFields { expected: 2, found: 1 })
    );
    assert_eq!(
        validate_field_count(&ends, 4, 2),
        Err(RowErrorKind::TooManyFields { expected: 2, found: 4 })
    );
    // the extra end differs from the previous one: data after the delimiter
    let ends = vec![1usize, 2, 4];
    assert_eq!(
        validate_field_count(&ends, 3, 2),
        Err(RowErrorKind::DataAfterTrailingDelimiter)
    );
}
