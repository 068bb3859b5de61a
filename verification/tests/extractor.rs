use std::collections::HashMap;
use std::sync::Arc;

use arrow_array::builder::{BooleanBuilder, FixedSizeListBuilder, Float32Builder, UInt64Builder};
use arrow_array::{
    Array, ArrayRef, BooleanArray, FixedSizeListArray, Float32Array, RecordBatch, UInt64Array,
};
use arrow_schema::{DataType, Field, Schema};

use hnsw_toolbox::error::{CorruptIndexError, ExtractError};
use hnsw_toolbox::extractor::{
    RecordBatcher,
    extract_index_with_header, parse_label, parse_vector, ExtractOptions,
    ExtractedRecord, Extraction, OutputFormat,
};
use hnsw_toolbox::header::{HeaderWordSize, PersistentHeader};
use hnsw_toolbox::metadata::{join_metadata, MetadataEntry};

#[derive(Clone)]
struct FixtureRecord {
    label: u64,
    vector: Vec<f32>,
    deleted: bool,
}

struct Fixture {
    header: Vec<u8>,
    data: Vec<u8>,
}

fn write_fixture(records: &[FixtureRecord]) -> Fixture {
    write_fixture_with_capacity(records, records.len())
}

fn write_fixture_with_capacity(records: &[FixtureRecord], max_elements: usize) -> Fixture {
    let dim = records[0].vector.len();
    let max_m0: u64 = 16;
    let size_links_level0 = max_m0 * 4 + 4;
    let offset_data = size_links_level0;
    let label_offset = offset_data + (dim as u64 * 4);
    let size_data_per_element = label_offset + 8;
    let cur_elements = records.len() as u64;

    let mut header = Vec::new();
    header.extend_from_slice(&1_i32.to_le_bytes());
    header.extend_from_slice(&0_u64.to_le_bytes());
    header.extend_from_slice(&(max_elements as u64).to_le_bytes());
    header.extend_from_slice(&cur_elements.to_le_bytes());
    header.extend_from_slice(&size_data_per_element.to_le_bytes());
    header.extend_from_slice(&label_offset.to_le_bytes());
    header.extend_from_slice(&offset_data.to_le_bytes());
    header.extend_from_slice(&0_i32.to_le_bytes());
    header.extend_from_slice(&0_u32.to_le_bytes());
    header.extend_from_slice(&8_u64.to_le_bytes());
    header.extend_from_slice(&max_m0.to_le_bytes());
    header.extend_from_slice(&4_u64.to_le_bytes());
    header.extend_from_slice(&1.0_f64.to_le_bytes());
    header.extend_from_slice(&100_u64.to_le_bytes());

    let mut data = Vec::new();
    for i in 0..max_elements {
        let mut row = vec![0_u8; size_data_per_element as usize];
        if let Some(record) = records.get(i) {
            if record.deleted {
                row[2] |= 0x01;
            }
            let mut offset = offset_data as usize;
            for value in &record.vector {
                row[offset..offset + 4].copy_from_slice(&value.to_le_bytes());
                offset += 4;
            }
            row[label_offset as usize..label_offset as usize + 8]
                .copy_from_slice(&record.label.to_le_bytes());
        }
        data.extend_from_slice(&row);
    }
    Fixture { header, data }
}

fn extract(fixture: &Fixture, options: &ExtractOptions) -> (hnsw_toolbox::ExtractSummary, Vec<ExtractedRecord>) {
    let header = PersistentHeader::parse(&fixture.header).expect("header");
    extract_index_with_header(&header, &fixture.data, options).expect("extract")
}

fn f32_bits(values: &[f32]) -> Vec<u32> {
    values.iter().map(|v| v.to_bits()).collect()
}

#[test]
fn extract_skips_deleted_by_default() {
    let records = vec![
        FixtureRecord { label: 10, vector: vec![1.0, 2.0, 3.0], deleted: false },
        FixtureRecord { label: 20, vector: vec![4.0, 5.0, 6.0], deleted: true },
        FixtureRecord { label: 30, vector: vec![7.0, 8.0, 9.0], deleted: false },
    ];
    let fixture = write_fixture(&records);

    let (summary, out) = extract(&fixture, &ExtractOptions::default());

    assert_eq!(summary.scanned, 3);
    assert_eq!(summary.emitted, 2);
    assert_eq!(summary.deleted_skipped, 1);
    assert_eq!(summary.dimension, 3);
    assert_eq!(summary.index_properties.m, 4);
    assert_eq!(summary.index_properties.ef_construction, 100);
    assert_eq!(summary.index_properties.cur_element_count, 3);
    assert_eq!(summary.index_properties.max_elements, 3);
    assert_eq!(summary.index_properties.persisted_version, 1);
    assert_eq!(summary.index_properties.word_size_bytes, 8);
    assert_eq!(out.len(), 2);
    assert_eq!(out[0].label, 10);
    assert_eq!(out[1].label, 30);
}

#[test]
fn extract_includes_deleted_when_enabled() {
    let records = vec![
        FixtureRecord { label: 1, vector: vec![1.0, 1.0], deleted: false },
        FixtureRecord { label: 2, vector: vec![2.0, 2.0], deleted: true },
    ];
    let fixture = write_fixture(&records);

    let (summary, out) = extract(
        &fixture,
        &ExtractOptions { include_deleted: true, metadata: None },
    );

    assert_eq!(summary.scanned, 2);
    assert_eq!(summary.emitted, 2);
    assert_eq!(summary.deleted_skipped, 0);
    assert_eq!(out.len(), 2);
    assert!(out[1].deleted);
}

#[test]
fn extract_joins_metadata() {
    let records = vec![
        FixtureRecord { label: 101, vector: vec![1.0, 2.0], deleted: false },
        FixtureRecord { label: 202, vector: vec![3.0, 4.0], deleted: false },
    ];
    let fixture = write_fixture(&records);
    let metadata = join_metadata(
        HashMap::from([(101, "doc-101".to_string()), (202, "doc-202".to_string())]),
        vec![("doc-101".to_string(), 11), ("doc-202".to_string(), 22)],
    );

    let (_, out) = extract(
        &fixture,
        &ExtractOptions { include_deleted: false, metadata: Some(metadata) },
    );

    assert_eq!(out[0].user_id.as_deref(), Some("doc-101"));
    assert_eq!(out[0].seq_id, Some(11));
    assert_eq!(out[1].user_id.as_deref(), Some("doc-202"));
    assert_eq!(out[1].seq_id, Some(22));
}

/// Writes extracted records as an Arrow IPC file in memory and reads them back.
fn arrow_ipc_round_trip(records: &[ExtractedRecord], dim: usize) -> Vec<(u64, u64, bool, Vec<u32>)> {
    let mut internal_id = UInt64Builder::new();
    let mut label = UInt64Builder::new();
    let mut deleted = BooleanBuilder::new();
    let mut vector = FixedSizeListBuilder::new(Float32Builder::new(), dim as i32);
    for record in records {
        internal_id.append_value(record.internal_id);
        label.append_value(record.label);
        deleted.append_value(record.deleted);
        let lanes: Vec<f32> = record.vector_bits.iter().map(|b| f32::from_bits(*b)).collect();
        vector.values().append_slice(&lanes);
        vector.append(true);
    }
    let schema = Arc::new(Schema::new(vec![
        Field::new("internal_id", DataType::UInt64, false),
        Field::new("label", DataType::UInt64, false),
        Field::new("deleted", DataType::Boolean, false),
        Field::new(
            "vector",
            DataType::FixedSizeList(Arc::new(Field::new("item", DataType::Float32, true)), dim as i32),
            false,
        ),
    ]));
    let batch = RecordBatch::try_new(
        schema.clone(),
        vec![
            Arc::new(internal_id.finish()) as ArrayRef,
            Arc::new(label.finish()) as ArrayRef,
            Arc::new(deleted.finish()) as ArrayRef,
            Arc::new(vector.finish()) as ArrayRef,
        ],
    )
    .expect("batch");

    let mut bytes = Vec::new();
    {
        let mut writer = arrow_ipc::writer::FileWriter::try_new(&mut bytes, &schema).expect("writer");
        writer.write(&batch).expect("write");
        writer.finish().expect("finish");
    }
    let reader = arrow_ipc::reader::FileReader::try_new(std::io::Cursor::new(bytes), None).expect("reader");
    let mut rows = Vec::new();
    for batch in reader {
        let batch = batch.expect("read batch");
        let ids = batch.column(0).as_any().downcast_ref::<UInt64Array>().expect("ids");
        let labels = batch.column(1).as_any().downcast_ref::<UInt64Array>().expect("labels");
        let deleted = batch.column(2).as_any().downcast_ref::<BooleanArray>().expect("deleted");
        let vectors = batch.column(3).as_any().downcast_ref::<FixedSizeListArray>().expect("vectors");
        for row in 0..batch.num_rows() {
            let lanes = vectors.value(row);
            let lanes = lanes.as_any().downcast_ref::<Float32Array>().expect("lanes");
            rows.push((
                ids.value(row),
                labels.value(row),
                deleted.value(row),
                (0..lanes.len()).map(|i| lanes.value(i).to_bits()).collect(),
            ));
        }
    }
    rows
}

/// The extracted lanes are the persisted `f32` bit patterns, and they survive an Arrow IPC
/// file unchanged.
#[test]
fn columnar_exports_preserve_f32_bits_verbatim() {
    let records = vec![
        FixtureRecord {
            label: 10,
            vector: vec![
                f32::from_bits(0x8000_0000),
                f32::from_bits(0x0000_0001),
                f32::from_bits(0x7f80_0000),
                f32::from_bits(0xff80_0000),
                f32::from_bits(0x7fc0_0001),
            ],
            deleted: false,
        },
        FixtureRecord {
            label: 20,
            vector: vec![
                f32::from_bits(0x3f80_0000),
                f32::from_bits(0xbf80_0000),
                f32::from_bits(0x7f7f_ffff),
                f32::from_bits(0x0080_0000),
                f32::from_bits(0x7fa0_0001),
            ],
            deleted: true,
        },
    ];
    let fixture = write_fixture(&records);

    let (_, rows) = extract(&fixture, &ExtractOptions { include_deleted: true, metadata: None });
    let arrow_rows = arrow_ipc_round_trip(&rows, 5);

    assert_eq!(rows.len(), records.len());
    assert_eq!(arrow_rows.len(), records.len());
    for (idx, source) in records.iter().enumerate() {
        let row = &rows[idx];
        assert_eq!(row.internal_id, idx as u64);
        assert_eq!(row.label, source.label);
        assert_eq!(row.deleted, source.deleted);
        assert_eq!(row.vector_bits, f32_bits(&source.vector));

        let arrow = &arrow_rows[idx];
        assert_eq!(arrow.0, idx as u64);
        assert_eq!(arrow.1, source.label);
        assert_eq!(arrow.2, source.deleted);
        assert_eq!(arrow.3, f32_bits(&source.vector));
    }
}

#[test]
fn header_placing_label_outside_record_is_refused_once_a_record_is_emitted() {
    let records = vec![
        FixtureRecord { label: 1, vector: vec![1.0, 2.0], deleted: true },
        FixtureRecord { label: 2, vector: vec![3.0, 4.0], deleted: false },
    ];
    let fixture = write_fixture(&records);
    let mut header = PersistentHeader::parse(&fixture.header).expect("header");
    header.label_offset = header.size_data_per_element - 4;
    let err = extract_index_with_header(&header, &fixture.data, &ExtractOptions::default())
        .unwrap_err();
    assert!(matches!(err, ExtractError::CorruptIndex(CorruptIndexError::LabelOutOfRecord)));

    header.cur_element_count = 1;
    let (summary, out) =
        extract_index_with_header(&header, &fixture.data, &ExtractOptions::default()).expect("only deleted");
    assert_eq!(summary.deleted_skipped, 1);
    assert!(out.is_empty());
}

/// A small deterministic generator, so that the property below sees varied inputs.
fn next(state: &mut u64) -> u64 {
    *state = state.wrapping_mul(6364136223846793005).wrapping_add(1442695040888963407);
    *state >> 33
}

#[test]
fn property_exports_match_persisted_vectors_and_tombstones() {
    let mut seed = 7_u64;
    for _case in 0..40 {
        let count = 1 + (next(&mut seed) % 47) as usize;
        let extra_capacity = (next(&mut seed) % 16) as usize;
        let dimension = 1 + (next(&mut seed) % 16) as usize;
        let fixture_records: Vec<FixtureRecord> = (0..count)
            .map(|idx| FixtureRecord {
                label: idx as u64 + 1,
                vector: (0..dimension).map(|_| f32::from_bits(next(&mut seed) as u32)).collect(),
                deleted: next(&mut seed) % 2 == 0,
            })
            .collect();
        let capacity = count + extra_capacity;
        let fixture = write_fixture_with_capacity(&fixture_records, capacity);

        let (summary, exported) = extract(&fixture, &ExtractOptions::default());
        let expected_non_deleted = fixture_records.iter().filter(|r| !r.deleted).count() as u64;
        assert_eq!(summary.scanned, count as u64);
        assert_eq!(summary.emitted, expected_non_deleted);
        assert_eq!(summary.deleted_skipped, count as u64 - expected_non_deleted);
        assert_eq!(summary.index_properties.m, 4);
        assert_eq!(summary.index_properties.ef_construction, 100);
        assert_eq!(summary.index_properties.cur_element_count, count as u64);
        assert_eq!(summary.index_properties.max_elements, capacity as u64);
        assert_eq!(summary.index_properties.persisted_version, 1);
        assert_eq!(summary.index_properties.word_size_bytes, 8);
        for record in &exported {
            let source = &fixture_records[record.internal_id as usize];
            assert!(!source.deleted);
            assert!(!record.deleted);
            assert_eq!(record.label, source.label);
            assert_eq!(record.vector_bits, f32_bits(&source.vector));
        }

        let (summary, exported) =
            extract(&fixture, &ExtractOptions { include_deleted: true, metadata: None });
        assert_eq!(summary.scanned, count as u64);
        assert_eq!(summary.emitted, count as u64);
        assert_eq!(summary.deleted_skipped, 0);
        for (idx, record) in exported.iter().enumerate() {
            let source = &fixture_records[idx];
            assert_eq!(record.internal_id, idx as u64);
            assert_eq!(record.label, source.label);
            assert_eq!(record.deleted, source.deleted);
            assert_eq!(record.vector_bits, f32_bits(&source.vector));
        }
    }
}

#[test]
fn streaming_walk_matches_whole_extraction() {
    let records = vec![
        FixtureRecord { label: 5, vector: vec![0.5, -0.5], deleted: true },
        FixtureRecord { label: 6, vector: vec![1.5, -1.5], deleted: false },
        FixtureRecord { label: 7, vector: vec![2.5, -2.5], deleted: false },
    ];
    let fixture = write_fixture(&records);
    let header = PersistentHeader::parse(&fixture.header).expect("header");
    let options = ExtractOptions::default();

    let mut walk = Extraction::new(&header).expect("walk");
    walk.check_data_len(fixture.data.len() as u64).expect("length");
    let mut streamed = Vec::new();
    let mut offset = 0;
    while walk.has_next() {
        let raw = &fixture.data[offset..offset + walk.record_size];
        offset += walk.record_size;
        if let Some(record) = walk.step(raw, &options).expect("step") {
            streamed.push(record);
        }
    }
    let (summary, whole) = extract_index_with_header(&header, &fixture.data, &options).expect("extract");
    assert_eq!(walk.summary(), summary);
    assert_eq!(streamed.len(), whole.len());
    for (a, b) in streamed.iter().zip(whole.iter()) {
        assert_eq!(a.internal_id, b.internal_id);
        assert_eq!(a.label, b.label);
        assert_eq!(a.vector_bits, b.vector_bits);
    }
    assert_eq!(summary.deleted_skipped, 1);
    assert_eq!(streamed[0].internal_id, 1);
}

#[test]
fn data_too_small_is_refused() {
    let records = vec![
        FixtureRecord { label: 1, vector: vec![1.0], deleted: false },
        FixtureRecord { label: 2, vector: vec![2.0], deleted: false },
    ];
    let fixture = write_fixture(&records);
    let header = PersistentHeader::parse(&fixture.header).expect("header");
    let short = &fixture.data[..fixture.data.len() - 1];
    let err = extract_index_with_header(&header, short, &ExtractOptions::default()).unwrap_err();
    let record_size = header.size_data_per_element;
    match err {
        ExtractError::CorruptIndex(CorruptIndexError::DataTooSmall { available, needed }) => {
            assert_eq!(needed, 2 * record_size);
            assert_eq!(available, 2 * record_size - 1);
        }
        other => panic!("unexpected error {other:?}"),
    }
}

#[test]
fn element_bytes_overflow_is_refused() {
    let records = vec![FixtureRecord { label: 1, vector: vec![1.0], deleted: false }];
    let fixture = write_fixture(&records);
    let mut header = PersistentHeader::parse(&fixture.header).expect("header");
    header.max_elements = u64::MAX;
    header.cur_element_count = u64::MAX / 2;
    let err = extract_index_with_header(&header, &fixture.data, &ExtractOptions::default())
        .unwrap_err();
    assert!(matches!(
        err,
        ExtractError::CorruptIndex(CorruptIndexError::ElementBytesOverflow)
    ));
}

#[test]
fn empty_index_extracts_nothing() {
    let records = vec![FixtureRecord { label: 1, vector: vec![1.0, 2.0], deleted: false }];
    let fixture = write_fixture(&records);
    let mut header = PersistentHeader::parse(&fixture.header).expect("header");
    header.cur_element_count = 0;
    let (summary, out) =
        extract_index_with_header(&header, &[], &ExtractOptions::default()).expect("extract");
    assert_eq!(summary.scanned, 0);
    assert_eq!(summary.emitted, 0);
    assert_eq!(summary.dimension, 2);
    assert!(out.is_empty());
}

#[test]
fn metadata_missing_for_label_leaves_fields_empty() {
    let records = vec![FixtureRecord { label: 9, vector: vec![1.0], deleted: false }];
    let fixture = write_fixture(&records);
    let mut metadata = HashMap::new();
    metadata.insert(8_u64, MetadataEntry { user_id: "other".to_string(), seq_id: Some(1) });
    let (_, out) = extract(&fixture, &ExtractOptions { include_deleted: false, metadata: Some(metadata) });
    assert_eq!(out[0].user_id, None);
    assert_eq!(out[0].seq_id, None);
}

#[test]
fn parse_label_reads_both_widths() {
    let raw = [0xAA, 0x01, 0x02, 0x03, 0x04, 0x05, 0x06, 0x07, 0x08];
    assert_eq!(parse_label(&raw, 1, HeaderWordSize::U32).unwrap(), 0x0403_0201);
    assert_eq!(parse_label(&raw, 1, HeaderWordSize::U64).unwrap(), 0x0807_0605_0403_0201);
    assert!(matches!(
        parse_label(&raw, 2, HeaderWordSize::U64),
        Err(ExtractError::CorruptIndex(CorruptIndexError::LabelOutOfRecord))
    ));
    assert!(matches!(
        parse_label(&raw, 100, HeaderWordSize::U32),
        Err(ExtractError::CorruptIndex(CorruptIndexError::LabelOutOfRecord))
    ));
}

#[test]
fn parse_vector_reads_lanes_and_refuses_bad_ranges() {
    let mut raw = vec![0xFF];
    raw.extend_from_slice(&1.0_f32.to_le_bytes());
    raw.extend_from_slice(&(-2.5_f32).to_le_bytes());
    assert_eq!(
        parse_vector(&raw, 1, 9).unwrap(),
        vec![1.0_f32.to_bits(), (-2.5_f32).to_bits()]
    );
    assert!(parse_vector(&raw, 1, 1).unwrap().is_empty());
    assert!(matches!(
        parse_vector(&raw, 1, 10),
        Err(ExtractError::CorruptIndex(CorruptIndexError::VectorOutOfRecord))
    ));
    assert!(matches!(
        parse_vector(&raw, 5, 4),
        Err(ExtractError::CorruptIndex(CorruptIndexError::VectorOutOfRecord))
    ));
    assert!(matches!(
        parse_vector(&raw, 1, 8),
        Err(ExtractError::CorruptIndex(CorruptIndexError::VectorBytesNotAligned { len: 7 }))
    ));
}

fn record(internal_id: u64, lanes: usize) -> ExtractedRecord {
    ExtractedRecord {
        internal_id,
        label: internal_id,
        deleted: false,
        vector_bits: vec![0; lanes],
        user_id: None,
        seq_id: None,
    }
}

#[test]
fn record_batches_come_out_full_and_in_order() {
    let mut batcher = RecordBatcher::new(3, 2);
    assert!(batcher.push(record(0, 3)).unwrap().is_none());
    assert!(matches!(
        batcher.push(record(9, 4)),
        Err(ExtractError::CorruptIndex(CorruptIndexError::VectorDimensionMismatch {
            found: 4,
            expected: 3
        }))
    ));
    let batch = batcher.push(record(1, 3)).unwrap().expect("full batch");
    assert_eq!(batch.iter().map(|r| r.internal_id).collect::<Vec<_>>(), vec![0, 1]);
    assert!(batcher.push(record(2, 3)).unwrap().is_none());
    let last = batcher.finish().expect("last batch");
    assert_eq!(last.iter().map(|r| r.internal_id).collect::<Vec<_>>(), vec![2]);

    let empty = RecordBatcher::new(1, 0);
    assert_eq!(empty.batch_size, 1);
    assert!(empty.finish().is_none());
}

#[test]
fn output_format_defaults_to_parquet() {
    assert_eq!(OutputFormat::default(), OutputFormat::Parquet);
    let options = ExtractOptions::default();
    assert!(!options.include_deleted);
    assert!(options.metadata.is_none());
}
