//! Round trips and codec behaviour over the delimited text and
//! columnar binary formats.

use colflow::ColumnData;
use colflow::Config;
use colflow::CsvFormat;
use colflow::DataType;
use colflow::ErrorKind;
use colflow::Field;
use colflow::ReaderState;
use colflow::StreamingParquetReader;
use colflow::FormatStream;
use colflow::ParquetFormat;
use colflow::RecordBatch;
use colflow::Schema;

fn schema_ins(fields: Vec<(&str, DataType)>) -> Schema {
    Schema::new(
        fields
            .into_iter()
            .map(|(n, dt)| Field::new(n.as_bytes().to_vec(), dt, true))
            .collect(),
    )
}

fn sample_batch() -> RecordBatch {
    let schema = schema_ins(vec![
        ("id", DataType::Int64),
        ("name", DataType::Utf8),
        ("score", DataType::Float64),
    ]);
    let cols = vec![
        ColumnData::Int64(vec![Some(1), Some(2)]),
        ColumnData::Utf8(vec![Some(b"alice".to_vec()), Some(b"bob".to_vec())]),
        ColumnData::Float64(vec![Some(b"9.5".to_vec()), Some(b"7.0".to_vec())]),
    ];
    RecordBatch::new(schema, 2, cols).expect("well-formed batch")
}

fn batch_cell(b: &RecordBatch, c: usize, r: usize) -> String {
    match &b.columns[c] {
        ColumnData::Int64(v) => format!("{:?}", v[r]),
        ColumnData::Utf8(v) => format!("{:?}", v[r].as_ref().map(|x| String::from_utf8_lossy(x).into_owned())),
        ColumnData::Float64(v) => format!("{:?}", v[r].as_ref().map(|x| String::from_utf8_lossy(x).into_owned())),
        ColumnData::Boolean(v) => format!("{:?}", v[r]),
        ColumnData::Timestamp(v) => format!("{:?}", v[r]),
    }
}

fn assert_batches_equal(a: &RecordBatch, b: &RecordBatch) {
    assert!(a.schema.matches(&b.schema), "schemas differ");
    assert_eq!(a.num_rows, b.num_rows);
    for c in 0..a.columns.len() {
        for r in 0..a.num_rows {
            assert_eq!(batch_cell(a, c, r), batch_cell(b, c, r));
        }
    }
}

#[test]
fn csv_round_trip_identity() {
    let batch = sample_batch();
    let codec = CsvFormat::new(true, 1024);
    let text = codec.write_batches(&vec![batch]).expect("encode");
    assert_eq!(
        String::from_utf8(text.clone()).unwrap(),
        "id,name,score\n1,alice,9.5\n2,bob,7.0\n"
    );
    let reread = CsvFormat::with_schema(
        sample_batch().schema,
        true,
        1024,
    );
    let batches = reread.read_batches(&text).expect("decode");
    assert_eq!(batches.len(), 1);
    assert_batches_equal(&batches[0], &sample_batch());
}

#[test]
fn csv_inferred_schema_matches_sample() {
    let text = b"id,name,score\n1,alice,9.5\n2,bob,7.0\n".to_vec();
    let codec = CsvFormat::new(true, 1024);
    let schema = codec.infer_schema(&text).expect("infer");
    assert_eq!(schema.fields.len(), 3);
    assert_eq!(schema.fields[0].name, b"id".to_vec());
    assert_eq!(schema.fields[0].data_type, DataType::Int64);
    assert_eq!(schema.fields[1].name, b"name".to_vec());
    assert_eq!(schema.fields[1].data_type, DataType::Utf8);
    assert_eq!(schema.fields[2].name, b"score".to_vec());
    assert_eq!(schema.fields[2].data_type, DataType::Float64);
    // No sampled value is empty, so every inferred field is non-null.
    assert!(!schema.fields[0].nullable);
    assert!(!schema.fields[1].nullable);
    assert!(!schema.fields[2].nullable);
}

#[test]
fn csv_inference_marks_columns_with_empty_values_nullable() {
    let text = b"a,b\n1,\n2,y\n".to_vec();
    let codec = CsvFormat::new(true, 16);
    let schema = codec.infer_schema(&text).expect("infer");
    assert!(!schema.fields[0].nullable);
    assert!(schema.fields[1].nullable);
}

#[test]
fn csv_inference_is_deterministic() {
    let text = b"a,b\n1,x\n2,y\n".to_vec();
    let codec = CsvFormat::new(true, 16);
    let s1 = codec.infer_schema(&text).expect("first");
    let s2 = codec.infer_schema(&text).expect("second");
    assert!(s1.matches(&s2));
}

#[test]
fn csv_headerless_names_are_synthesized() {
    let text = b"1,x\n2,y\n".to_vec();
    let codec = CsvFormat::new(false, 1024);
    let schema = codec.infer_schema(&text).expect("infer");
    assert_eq!(schema.fields[0].name, b"column_0".to_vec());
    assert_eq!(schema.fields[1].name, b"column_1".to_vec());
    let batches = codec.read_batches(&text).expect("decode");
    assert_eq!(batches[0].num_rows, 2);
}

#[test]
fn csv_quoted_delimiter_round_trips() {
    let schema = schema_ins(vec![("text", DataType::Utf8)]);
    let cols = vec![ColumnData::Utf8(vec![
        Some(b"a,b".to_vec()),
        Some(b"say \"hi\"".to_vec()),
        Some(b"line\nbreak".to_vec()),
    ])];
    let batch = RecordBatch::new(schema, 3, cols).expect("batch");
    let codec = CsvFormat::new(true, 1024);
    let text = codec.write_batches(&vec![batch]).expect("encode");
    assert_eq!(
        String::from_utf8(text.clone()).unwrap(),
        "text\n\"a,b\"\n\"say \"\"hi\"\"\"\n\"line\nbreak\"\n"
    );
    let reread = CsvFormat::new(true, 1024);
    let batches = reread.read_batches(&text).expect("decode");
    assert_eq!(batches[0].num_rows, 3);
    match &batches[0].columns[0] {
        ColumnData::Utf8(v) => {
            assert_eq!(v[0], Some(b"a,b".to_vec()));
            assert_eq!(v[1], Some(b"say \"hi\"".to_vec()));
            assert_eq!(v[2], Some(b"line\nbreak".to_vec()));
        }
        _ => panic!("expected a string column"),
    }
}

#[test]
fn csv_empty_input_round_trips() {
    let schema = schema_ins(vec![("only", DataType::Int64)]);
    let batch = RecordBatch::new(schema, 0, vec![ColumnData::Int64(vec![])]).expect("batch");
    let codec = CsvFormat::new(true, 8);
    let text = codec.write_batches(&vec![batch]).expect("encode");
    assert_eq!(String::from_utf8(text.clone()).unwrap(), "only\n");
    let reread = CsvFormat::with_schema(
        schema_ins(vec![("only", DataType::Int64)]),
        true,
        8,
    );
    let batches = reread.read_batches(&text).expect("decode");
    assert_eq!(batches.len(), 1);
    assert_eq!(batches[0].num_rows, 0);
    // The decoded empty stream encodes again, closing the round trip.
    let again = reread.write_batches(&batches).expect("re-encode");
    assert_eq!(again, text);
}

#[test]
fn parquet_empty_input_round_trips() {
    let schema = schema_ins(vec![("only", DataType::Int64)]);
    let batch = RecordBatch::new(schema, 0, vec![ColumnData::Int64(vec![])]).expect("batch");
    let config = Config::default();
    let codec = ParquetFormat::new(&config.formats.parquet);
    let bytes = codec.write_batches(&vec![batch]).expect("encode");
    let batches = codec.read_batches(&bytes).expect("decode");
    assert_eq!(batches.len(), 1);
    assert_eq!(batches[0].num_rows, 0);
    assert!(codec.write_batches(&batches).is_ok());
}

#[test]
fn csv_bad_cell_is_a_decode_error() {
    let codec = CsvFormat::with_schema(
        schema_ins(vec![("n", DataType::Int64)]),
        false,
        8,
    );
    let text = b"12\nnot_a_number\n".to_vec();
    let err = codec.read_batches(&text).unwrap_err();
    assert_eq!(err.kind(), ErrorKind::Decode);
}

#[test]
fn csv_row_width_drift_is_a_schema_error() {
    let codec = CsvFormat::with_schema(
        schema_ins(vec![("a", DataType::Int64), ("b", DataType::Int64)]),
        false,
        8,
    );
    let text = b"1,2\n3\n".to_vec();
    let err = codec.read_batches(&text).unwrap_err();
    assert_eq!(err.kind(), ErrorKind::Schema);
}

#[test]
fn csv_batching_respects_batch_size() {
    let codec = CsvFormat::new(false, 2);
    let text = b"1\n2\n3\n4\n5\n".to_vec();
    let batches = codec.read_batches(&text).expect("decode");
    assert_eq!(batches.len(), 3);
    assert_eq!(batches[0].num_rows, 2);
    assert_eq!(batches[1].num_rows, 2);
    assert_eq!(batches[2].num_rows, 1);
}

#[test]
fn parquet_round_trip_identity() {
    let batch = sample_batch();
    let config = Config::default();
    let codec = ParquetFormat::new(&config.formats.parquet);
    let bytes = codec.write_batches(&vec![batch]).expect("encode");
    let batches = codec.read_batches(&bytes).expect("decode");
    let total: usize = batches.iter().map(|b| b.num_rows).sum();
    assert_eq!(total, 2);
    assert!(batches[0].schema.matches(&sample_batch().schema));
    assert_batches_equal(&batches[0], &sample_batch());
}

#[test]
fn csv_to_parquet_to_csv_is_identity() {
    let input = b"id,name,score\n1,alice,9.5\n2,bob,7.0\n".to_vec();
    let csv = CsvFormat::new(true, 1024);
    let decoded = csv.read_batches(&input).expect("decode csv");
    let config = Config::default();
    let parquet = ParquetFormat::new(&config.formats.parquet);
    let bytes = parquet.write_batches(&decoded).expect("encode parquet");
    let reread = parquet.read_batches(&bytes).expect("decode parquet");
    let text = csv.write_batches(&reread).expect("encode csv");
    assert_eq!(
        String::from_utf8(text).unwrap().trim_end_matches('\n'),
        String::from_utf8(input).unwrap().trim_end_matches('\n')
    );
}

#[test]
fn parquet_short_sample_needs_more_data() {
    let batch = sample_batch();
    let config = Config::default();
    let codec = ParquetFormat::new(&config.formats.parquet);
    let bytes = codec.write_batches(&vec![batch]).expect("encode");
    let short = bytes[..bytes.len() / 2].to_vec();
    let err = codec.infer_schema(&short).unwrap_err();
    assert_eq!(err.kind(), ErrorKind::Decode);
}

#[test]
fn parquet_multiple_row_groups_decode() {
    let schema = schema_ins(vec![("n", DataType::Int64)]);
    let vals: Vec<Option<i64>> = (0..100).map(Some).collect();
    let batch = RecordBatch::new(schema, 100, vec![ColumnData::Int64(vals)]).expect("batch");
    let config = Config::default();
    let mut settings = config.formats.parquet.clone();
    settings.row_group_size = 10;
    let codec = ParquetFormat::new(&settings);
    let bytes = codec.write_batches(&vec![batch]).expect("encode");
    let batches = codec.read_batches(&bytes).expect("decode");
    let total: usize = batches.iter().map(|b| b.num_rows).sum();
    assert_eq!(total, 100);
}

#[test]
fn schema_drift_mid_stream_is_a_schema_error() {
    let one = sample_batch();
    let other = RecordBatch::new(
        schema_ins(vec![("only", DataType::Int64)]),
        1,
        vec![ColumnData::Int64(vec![Some(7)])],
    )
    .expect("batch");
    let csv = CsvFormat::new(true, 1024);
    let err = csv.write_batches(&vec![one, other]).unwrap_err();
    assert_eq!(err.kind(), ErrorKind::Schema);
    let one = sample_batch();
    let other = RecordBatch::new(
        schema_ins(vec![("only", DataType::Int64)]),
        1,
        vec![ColumnData::Int64(vec![Some(7)])],
    )
    .expect("batch");
    let config = Config::default();
    let parquet = ParquetFormat::new(&config.formats.parquet);
    let err = parquet.write_batches(&vec![one, other]).unwrap_err();
    assert_eq!(err.kind(), ErrorKind::Schema);
}

#[test]
fn parquet_to_csv_with_projection_and_limit() {
    let schema = schema_ins(vec![
        ("a", DataType::Int64),
        ("b", DataType::Int64),
        ("c", DataType::Utf8),
    ]);
    let cols = vec![
        ColumnData::Int64(vec![Some(1), Some(2), Some(3)]),
        ColumnData::Int64(vec![Some(10), Some(20), Some(30)]),
        ColumnData::Utf8(vec![
            Some(b"x".to_vec()),
            Some(b"y".to_vec()),
            Some(b"z".to_vec()),
        ]),
    ];
    let batch = RecordBatch::new(schema, 3, cols).expect("batch");
    let config = Config::default();
    let parquet = ParquetFormat::new(&config.formats.parquet);
    let bytes = parquet.write_batches(&vec![batch]).expect("encode");
    let decoded = parquet.read_batches(&bytes).expect("decode");

    let mut stream = FormatStream::new(decoded[0].schema.clone(), Some(vec![0, 2]), Some(2));
    let mut out: Vec<RecordBatch> = Vec::new();
    for b in &decoded {
        if let Some(piece) = stream.process_batch(b, &vec![]).expect("process") {
            out.push(piece);
        }
    }
    let csv = CsvFormat::new(true, 1024);
    let text = csv.write_batches(&out).expect("encode csv");
    assert_eq!(String::from_utf8(text).unwrap(), "a,c\n1,x\n2,y\n");
}

#[test]
fn csv_filtered_projection_emits_matching_rows() {
    let input = b"id,name,score\n1,alice,9.5\n2,bob,7.0\n".to_vec();
    let csv = CsvFormat::new(true, 1024);
    let decoded = csv.read_batches(&input).expect("decode");
    // The predicate `score > 8`, evaluated over the decoded batch.
    let mut out: Vec<RecordBatch> = Vec::new();
    let mut stream = FormatStream::new(decoded[0].schema.clone(), Some(vec![0, 1]), None);
    for b in &decoded {
        let mask: Vec<Option<bool>> = match &b.columns[2] {
            ColumnData::Float64(v) => v
                .iter()
                .map(|o| {
                    o.as_ref().map(|t| {
                        String::from_utf8_lossy(t).parse::<f64>().unwrap() > 8.0
                    })
                })
                .collect(),
            _ => panic!("expected the score column"),
        };
        let masks = vec![ColumnData::Boolean(mask)];
        if let Some(piece) = stream.process_batch(b, &masks).expect("process") {
            out.push(piece);
        }
    }
    let text = csv.write_batches(&out).expect("encode");
    assert_eq!(String::from_utf8(text).unwrap(), "id,name\n1,alice\n");
}

#[test]
fn limit_bounds_total_output_rows() {
    let schema = schema_ins(vec![("n", DataType::Int64)]);
    let vals: Vec<Option<i64>> = (0..10).map(Some).collect();
    let batch = RecordBatch::new(schema, 10, vec![ColumnData::Int64(vals)]).expect("batch");
    let mut stream = FormatStream::new(batch.schema.clone(), None, Some(3));
    let mut emitted: usize = 0;
    for _ in 0..4 {
        if let Some(piece) = stream.process_batch(&batch, &vec![]).expect("process") {
            emitted += piece.num_rows;
        }
    }
    assert_eq!(emitted, 3);
}

#[test]
fn projection_composes() {
    let batch = sample_batch();
    let step1 = batch.project(&vec![2, 1, 0]).expect("first projection");
    let step2 = step1.project(&vec![2, 0]).expect("second projection");
    let composed = batch.project(&vec![0, 2]).expect("composed projection");
    assert_batches_equal(&step2, &composed);
}

#[test]
fn filter_drops_false_and_null_rows() {
    let schema = schema_ins(vec![("n", DataType::Int64)]);
    let batch = RecordBatch::new(
        schema,
        4,
        vec![ColumnData::Int64(vec![Some(1), Some(2), Some(3), Some(4)])],
    )
    .expect("batch");
    let mask = ColumnData::Boolean(vec![Some(true), Some(false), None, Some(true)]);
    let filtered = batch.filter(&mask).expect("filter");
    assert_eq!(filtered.num_rows, 2);
    match &filtered.columns[0] {
        ColumnData::Int64(v) => assert_eq!(v, &vec![Some(1), Some(4)]),
        _ => panic!("expected an int column"),
    }
    let wrong = ColumnData::Int64(vec![Some(1)]);
    let err = batch.filter(&wrong).unwrap_err();
    assert_eq!(err.kind(), ErrorKind::Schema);
}

#[test]
fn execute_rejects_nonzero_partition() {
    let plan = colflow::FormatExecPlan::new(
        schema_ins(vec![("n", DataType::Int64)]),
        None,
        None,
    );
    let err = plan.execute(1).unwrap_err();
    assert_eq!(err.kind(), ErrorKind::Internal);
    assert!(plan.execute(0).is_ok());
}

#[test]
fn empty_batch_stream_is_an_encode_error() {
    let csv = CsvFormat::new(true, 8);
    let err = csv.write_batches(&vec![]).unwrap_err();
    assert_eq!(err.kind(), ErrorKind::Encode);
    assert_eq!(err.exit_code(), 5);
    let config = Config::default();
    let parquet = ParquetFormat::new(&config.formats.parquet);
    let err = parquet.write_batches(&vec![]).unwrap_err();
    assert_eq!(err.kind(), ErrorKind::Encode);
}

#[test]
fn carriage_return_line_endings_decode() {
    let codec = CsvFormat::with_schema(
        schema_ins(vec![("a", DataType::Int64), ("b", DataType::Utf8)]),
        true,
        8,
    );
    let text = b"a,b\r\n1,x\r\n2,y\r\n".to_vec();
    let batches = codec.read_batches(&text).expect("decode");
    assert_eq!(batches[0].num_rows, 2);
    match &batches[0].columns[1] {
        ColumnData::Utf8(v) => {
            assert_eq!(v[0], Some(b"x".to_vec()));
            assert_eq!(v[1], Some(b"y".to_vec()));
        }
        _ => panic!("expected a string column"),
    }
}

#[test]
fn streaming_decode_matches_whole_buffer_decode() {
    let schema = schema_ins(vec![("n", DataType::Int64), ("t", DataType::Utf8)]);
    let vals: Vec<Option<i64>> = (0..40).map(Some).collect();
    let texts: Vec<Option<Vec<u8>>> = (0..40).map(|i| Some(format!("row{}", i).into_bytes())).collect();
    let batch = RecordBatch::new(
        schema,
        40,
        vec![ColumnData::Int64(vals), ColumnData::Utf8(texts)],
    )
    .expect("batch");
    let config = Config::default();
    let mut settings = config.formats.parquet.clone();
    settings.row_group_size = 16;
    let codec = ParquetFormat::new(&settings);
    let bytes = codec.write_batches(&vec![batch]).expect("encode");

    // Whole-buffer decode.
    let whole = codec.read_batches(&bytes).expect("decode");

    // Streaming decode, fed in small chunks.
    let mut reader = StreamingParquetReader::new(settings.batch_size);
    let mut chunks = bytes.chunks(7);
    while reader.state() == ReaderState::NeedFooter {
        match chunks.next() {
            Some(chunk) => {
                reader.push_chunk(&chunk.to_vec());
                reader.try_start().expect("metadata");
            }
            None => panic!("the stream ended before the footer"),
        }
    }
    let schema = codec.infer_schema(&reader.buffer).expect("schema");
    let mut streamed: Vec<RecordBatch> = Vec::new();
    while reader.state() == ReaderState::Ready {
        if let Some(mut group) = reader.next_row_group(&schema).expect("group") {
            streamed.append(&mut group);
        }
    }
    assert_eq!(reader.state(), ReaderState::Done);

    // Both paths yield the same rows in the same order.
    let flatten = |bs: &Vec<RecordBatch>| -> Vec<String> {
        let mut rows = Vec::new();
        for b in bs {
            for r in 0..b.num_rows {
                let mut row = Vec::new();
                for c in 0..b.columns.len() {
                    row.push(batch_cell(b, c, r));
                }
                rows.push(row.join("|"));
            }
        }
        rows
    };
    assert_eq!(flatten(&whole), flatten(&streamed));
    assert_eq!(flatten(&whole).len(), 40);
}
