use csv_align::aligner::AligningState;
use csv_align::batch::RowBatch;
use csv_align::config::FormatSettings;
use csv_align::error::CsvError;
use csv_align::error::RowErrorKind;
use csv_align::InputFormatCSV;

fn settings() -> FormatSettings {
    InputFormatCSV::get_format_settings(&Vec::new(), &Vec::new(), &vec![b'"'], true).unwrap()
}

fn open_stream(num_fields: usize, rows_to_skip: usize) -> AligningState {
    AligningState::create(&settings(), "t.csv".to_string(), num_fields, rows_to_skip).unwrap()
}

/// The fields of every row of a batch, as byte vectors.
fn rows_of(batch: &RowBatch, nf: usize) -> Vec<Vec<Vec<u8>>> {
    let mut res = Vec::new();
    let mut start = 0usize;
    for i in 0..batch.row_ends.len() {
        let end = batch.row_ends[i];
        let row = &batch.data[start..end];
        let mut fields = Vec::new();
        let mut fs = 0usize;
        for c in 0..nf {
            let fe = batch.field_ends[i * nf + c];
            fields.push(row[fs..fe].to_vec());
            fs = fe;
        }
        res.push(fields);
        start = end;
    }
    res
}

/// Runs the whole input through one aligner, chunked as given, and collects
/// every row of every batch along with the first batch's start row.
fn run_chunks(input: &[u8], chunk_len: usize, nf: usize, skip: usize) -> Vec<Vec<Vec<u8>>> {
    let mut state = open_stream(nf, skip);
    let mut rows = Vec::new();
    let mut pos = 0usize;
    while pos < input.len() {
        let end = std::cmp::min(pos + chunk_len, input.len());
        let batches = InputFormatCSV::align(&mut state, &input[pos..end]).unwrap();
        for b in batches.iter() {
            rows.extend(rows_of(b, nf));
        }
        pos = end;
    }
    InputFormatCSV::close(&mut state).unwrap();
    rows
}

#[test]
fn single_chunk_two_rows() {
    let mut state = open_stream(2, 0);
    let batches = InputFormatCSV::align(&mut state, b"a,b\n1,2\n").unwrap();
    assert_eq!(batches.len(), 1);
    let b = &batches[0];
    assert_eq!(b.start_row, 0);
    assert_eq!(b.batch_id, 0);
    assert_eq!(b.data, b"ab12".to_vec());
    assert_eq!(b.row_ends, vec![2, 4]);
    assert_eq!(b.field_ends, vec![1, 2, 1, 2]);
    assert!(InputFormatCSV::close(&mut state).is_ok());
}

#[test]
fn trailing_delimiter_tolerated() {
    let mut state = open_stream(2, 0);
    let batches = InputFormatCSV::align(&mut state, b"a,b,\n").unwrap();
    assert_eq!(batches.len(), 1);
    let rows = rows_of(&batches[0], 2);
    assert_eq!(rows, vec![vec![b"a".to_vec(), b"b".to_vec()]]);
}

#[test]
fn data_after_trailing_delimiter_rejected() {
    let mut state = open_stream(2, 0);
    match InputFormatCSV::align(&mut state, b"a,b,c\n") {
        Err(CsvError::MalformedRow { row, kind, .. }) => {
            assert_eq!(row, 0);
            assert_eq!(kind, RowErrorKind::DataAfterTrailingDelimiter);
        }
        other => panic!("expected a malformed row, got {:?}", other),
    }
}

#[test]
fn too_few_fields_rejected() {
    let mut state = open_stream(2, 0);
    match InputFormatCSV::align(&mut state, b"a\n") {
        Err(CsvError::MalformedRow { kind, .. }) => {
            assert_eq!(kind, RowErrorKind::TooFewFields { expected: 2, found: 1 });
        }
        other => panic!("expected a malformed row, got {:?}", other),
    }
}

#[test]
fn too_many_fields_rejected() {
    let mut state = open_stream(2, 0);
    match InputFormatCSV::align(&mut state, b"a,b,c,d\n") {
        Err(CsvError::MalformedRow { kind, .. }) => {
            assert_eq!(kind, RowErrorKind::TooManyFields { expected: 2, found: 4 });
        }
        other => panic!("expected a malformed row, got {:?}", other),
    }
}

#[test]
fn header_skip_one_row() {
    let mut state = open_stream(2, 1);
    let batches = InputFormatCSV::align(&mut state, b"h1,h2\n1,2\n").unwrap();
    assert_eq!(batches.len(), 1);
    let b = &batches[0];
    assert_eq!(b.start_row, 1);
    assert_eq!(rows_of(b, 2), vec![vec![b"1".to_vec(), b"2".to_vec()]]);
}

#[test]
fn header_malformed_is_rejected() {
    let mut state = open_stream(2, 1);
    match InputFormatCSV::align(&mut state, b"h1,h2,x,y\n") {
        Err(CsvError::MalformedRow { kind, .. }) => {
            assert_eq!(kind, RowErrorKind::TooManyFields { expected: 2, found: 4 });
        }
        other => panic!("expected a malformed row, got {:?}", other),
    }
}

#[test]
fn row_numbering_continuity() {
    let mut state = open_stream(2, 1);
    let b1 = InputFormatCSV::align(&mut state, b"h,h\na,b\nc,d\n").unwrap();
    assert_eq!(b1.len(), 1);
    assert_eq!(b1[0].start_row, 1);
    assert_eq!(b1[0].batch_id, 0);
    let b2 = InputFormatCSV::align(&mut state, b"e,f\n").unwrap();
    assert_eq!(b2.len(), 1);
    // one header skipped, then two rows: the next batch starts at their sum
    assert_eq!(b2[0].start_row, 1 + 2);
    assert_eq!(b2[0].batch_id, 1);
}

#[test]
fn quoted_fields_are_unescaped() {
    let mut state = open_stream(2, 0);
    let batches = InputFormatCSV::align(&mut state, b"\"a\"\"b\",c\n").unwrap();
    let rows = rows_of(&batches[0], 2);
    assert_eq!(rows, vec![vec![b"a\"b".to_vec(), b"c".to_vec()]]);
}

#[test]
fn partial_record_carries_to_next_chunk() {
    let mut state = open_stream(2, 0);
    let none = InputFormatCSV::align(&mut state, b"x,y").unwrap();
    assert!(none.is_empty());
    let batches = InputFormatCSV::align(&mut state, b"z\nq,r\n").unwrap();
    assert_eq!(batches.len(), 1);
    assert_eq!(batches[0].start_row, 0);
    let rows = rows_of(&batches[0], 2);
    assert_eq!(
        rows,
        vec![
            vec![b"x".to_vec(), b"yz".to_vec()],
            vec![b"q".to_vec(), b"r".to_vec()],
        ]
    );
}

#[test]
fn chunk_split_independence() {
    let input: &[u8] = b"aa,\"b,b\"\r\ncc c, dd\nee,\"f\r\nf\"\r\n";
    let whole = run_chunks(input, input.len(), 2, 0);
    for chunk_len in 1..input.len() {
        let split = run_chunks(input, chunk_len, 2, 0);
        assert_eq!(split, whole, "chunk length {}", chunk_len);
    }
}

#[test]
fn chunk_split_independence_with_header() {
    let input: &[u8] = b"ha,hb\n1,2\n3,4\n";
    let whole = run_chunks(input, input.len(), 2, 1);
    for chunk_len in 1..input.len() {
        let split = run_chunks(input, chunk_len, 2, 1);
        assert_eq!(split, whole, "chunk length {}", chunk_len);
    }
}

#[test]
fn empty_chunk_produces_nothing() {
    let mut state = open_stream(2, 0);
    let batches = InputFormatCSV::align(&mut state, b"").unwrap();
    assert!(batches.is_empty());
    let batches = InputFormatCSV::align(&mut state, b"a,b\n").unwrap();
    assert_eq!(batches[0].start_row, 0);
}

#[test]
fn close_on_unterminated_record_fails() {
    let mut state = open_stream(2, 0);
    let _ = InputFormatCSV::align(&mut state, b"a,b\nc,").unwrap();
    match InputFormatCSV::close(&mut state) {
        Err(CsvError::MalformedRow { kind, .. }) => {
            assert_eq!(kind, RowErrorKind::UnexpectedEndOfInput);
        }
        other => panic!("expected a malformed row, got {:?}", other),
    }
}

#[test]
fn close_at_record_boundary_succeeds() {
    let mut state = open_stream(2, 0);
    let _ = InputFormatCSV::align(&mut state, b"a,b\n").unwrap();
    assert!(InputFormatCSV::close(&mut state).is_ok());
}

#[test]
fn all_empty_fields_row() {
    let mut state = open_stream(3, 0);
    let batches = InputFormatCSV::align(&mut state, b",,\n").unwrap();
    let rows = rows_of(&batches[0], 3);
    assert_eq!(rows, vec![vec![Vec::new(), Vec::new(), Vec::new()]]);
}

#[test]
fn custom_record_delimiter() {
    let s = InputFormatCSV::get_format_settings(&Vec::new(), &vec![b';'], &vec![b'"'], true)
        .unwrap();
    let mut state = AligningState::create(&s, "t.csv".to_string(), 2, 0).unwrap();
    let batches = InputFormatCSV::align(&mut state, b"a,b;c,d;").unwrap();
    assert_eq!(rows_of(&batches[0], 2).len(), 2);
}

#[test]
fn field_end_scratch_exhaustion() {
    // capacity is the expected field count plus slack; a record with more
    // field ends than that fails before it even completes
    let mut state = open_stream(1, 0);
    match InputFormatCSV::align(&mut state, b"a,b,c,d,e,f,g,h,i,j\n") {
        Err(CsvError::MalformedRow { kind, .. }) => {
            assert_eq!(kind, RowErrorKind::FieldEndsOverflow { expected: 1, capacity: 7 });
        }
        other => panic!("expected a malformed row, got {:?}", other),
    }
}
