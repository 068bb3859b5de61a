use hnsw_toolbox::error::{ExtractError, InputError, IntColumn};
use hnsw_toolbox::importer::{
    read_deleted, read_u64, read_unsigned, read_vector, resolve_batch_columns, resolve_label,
    validate_options, BatchColumns, BuildOptions, BuildState, BuildSummary, DeletedCell,
    DistanceMetric, InputFormat, IntegerCell, RowCells, VectorCell,
};
use hnsw_toolbox::request::{blank, last_error_text, BuildRequest, ExtractRequest, MissingField};
use hnsw_toolbox::OutputFormat;

fn input_error(r: Result<impl std::fmt::Debug, ExtractError>) -> InputError {
    match r {
        Err(ExtractError::InvalidInput(e)) => e,
        other => panic!("expected invalid input, got {other:?}"),
    }
}

fn lanes(values: &[f32]) -> Vec<Option<u32>> {
    values.iter().map(|v| Some(v.to_bits())).collect()
}

#[test]
fn default_options_are_valid() {
    let options = BuildOptions::default();
    assert_eq!(options.m, 16);
    assert_eq!(options.ef_construction, 200);
    assert_eq!(options.batch_size, 1024);
    assert_eq!(options.input_format, InputFormat::Parquet);
    assert_eq!(options.metric, DistanceMetric::Euclidean);
    assert!(validate_options(&options).is_ok());
}

#[test]
fn each_option_rule_is_checked() {
    let base = BuildOptions::default();
    assert_eq!(
        input_error(validate_options(&BuildOptions { m: 1, ..base })),
        InputError::MTooSmall { m: 1 }
    );
    assert_eq!(
        input_error(validate_options(&BuildOptions { m0: Some(1), ..base })),
        InputError::M0TooSmall { m0: 1 }
    );
    assert_eq!(
        input_error(validate_options(&BuildOptions { ef_construction: 15, ..base })),
        InputError::EfConstructionBelowM { ef_construction: 15, m: 16 }
    );
    assert_eq!(
        input_error(validate_options(&BuildOptions { batch_size: 0, ..base })),
        InputError::ZeroBatchSize
    );
    assert!(validate_options(&BuildOptions { m: 2, m0: Some(2), ef_construction: 2, ..base }).is_ok());
}

#[test]
fn integer_cells_are_read_as_unsigned() {
    assert_eq!(read_u64(&IntegerCell::Unsigned(7), 0, IntColumn::Label).unwrap(), 7);
    assert_eq!(read_u64(&IntegerCell::Signed(9), 0, IntColumn::Label).unwrap(), 9);
    assert_eq!(
        input_error(read_u64(&IntegerCell::Signed(-3), 4, IntColumn::InternalId)),
        InputError::NegativeValue { column: IntColumn::InternalId, row: 4, value: -3 }
    );
    assert_eq!(
        input_error(read_u64(&IntegerCell::Null, 2, IntColumn::Label)),
        InputError::NullValue { column: IntColumn::Label, row: 2 }
    );
    assert_eq!(
        input_error(read_u64(&IntegerCell::NotInteger("Utf8".to_string()), 0, IntColumn::Label)),
        InputError::NotInteger { column: IntColumn::Label, data_type: "Utf8".to_string() }
    );
    assert_eq!(read_unsigned(false, 5, 0, IntColumn::Label).unwrap(), 5);
    assert_eq!(
        input_error(read_unsigned(true, 5, 1, IntColumn::Deleted)),
        InputError::NullValue { column: IntColumn::Deleted, row: 1 }
    );
}

#[test]
fn deleted_flags() {
    assert!(!read_deleted(None, 0).unwrap());
    assert!(read_deleted(Some(&DeletedCell::Boolean(Some(true))), 0).unwrap());
    assert!(!read_deleted(Some(&DeletedCell::Other(IntegerCell::Unsigned(0))), 0).unwrap());
    assert!(read_deleted(Some(&DeletedCell::Other(IntegerCell::Signed(2))), 0).unwrap());
    assert_eq!(
        input_error(read_deleted(Some(&DeletedCell::Boolean(None)), 3)),
        InputError::NullValue { column: IntColumn::Deleted, row: 3 }
    );
}

#[test]
fn labels_fall_back_to_internal_id_then_row() {
    let label = IntegerCell::Unsigned(100);
    let internal_id = IntegerCell::Unsigned(1);
    assert_eq!(resolve_label(Some(&label), Some(&internal_id), 0, 9).unwrap(), 100);
    assert_eq!(resolve_label(None, Some(&internal_id), 0, 9).unwrap(), 1);
    assert_eq!(resolve_label(None, None, 0, 9).unwrap(), 9);
}

#[test]
fn vectors_fix_the_dimension() {
    let mut dim = None;
    let v = read_vector(&VectorCell::Values(lanes(&[1.0, 0.0])), 0, &mut dim).unwrap();
    assert_eq!(v, vec![1.0_f32.to_bits(), 0.0_f32.to_bits()]);
    assert_eq!(dim, Some(2));
    assert_eq!(
        input_error(read_vector(&VectorCell::Values(lanes(&[1.0])), 1, &mut dim)),
        InputError::VectorDimensionMismatch { row: 1, found: 1, expected: 2 }
    );
    assert_eq!(dim, Some(2));
    assert_eq!(
        input_error(read_vector(&VectorCell::Values(vec![]), 2, &mut dim)),
        InputError::VectorEmpty { row: 2 }
    );
    assert_eq!(
        input_error(read_vector(&VectorCell::Values(vec![Some(1), None, None]), 3, &mut dim)),
        InputError::VectorNullElement { row: 3, position: 1 }
    );
    assert_eq!(
        input_error(read_vector(&VectorCell::Null, 4, &mut dim)),
        InputError::VectorNull { row: 4 }
    );
    assert_eq!(
        input_error(read_vector(&VectorCell::UnsupportedValues("Int32".to_string()), 5, &mut dim)),
        InputError::VectorValueType { row: 5, data_type: "Int32".to_string() }
    );
    assert_eq!(
        input_error(read_vector(&VectorCell::UnsupportedColumn("Utf8".to_string()), 6, &mut dim)),
        InputError::VectorColumnType { data_type: "Utf8".to_string() }
    );
}

#[test]
fn batch_columns_are_found_by_name() {
    let names: Vec<String> = ["internal_id", "label", "deleted", "vector"]
        .iter()
        .map(|s| s.to_string())
        .collect();
    assert_eq!(
        resolve_batch_columns(&names).unwrap(),
        BatchColumns { vector: 3, label: Some(1), internal_id: Some(0), deleted: Some(2) }
    );
    let names: Vec<String> = ["vector", "vector"].iter().map(|s| s.to_string()).collect();
    assert_eq!(
        resolve_batch_columns(&names).unwrap(),
        BatchColumns { vector: 0, label: None, internal_id: None, deleted: None }
    );
    let names: Vec<String> = ["label"].iter().map(|s| s.to_string()).collect();
    assert_eq!(input_error(resolve_batch_columns(&names)), InputError::MissingVectorColumn);
}

fn fixture_rows() -> Vec<(u64, u64, bool, Vec<f32>)> {
    vec![
        (0, 100, false, vec![1.0, 0.0]),
        (1, 200, true, vec![0.0, 1.0]),
        (2, 300, false, vec![0.8, 0.2]),
    ]
}

fn ingest(options: &BuildOptions, with_label: bool) -> (BuildSummary, Vec<(Vec<u32>, u64)>) {
    let mut state = BuildState::default();
    let mut inserted = Vec::new();
    for (row, (internal_id, label, deleted, vector)) in fixture_rows().into_iter().enumerate() {
        let label = IntegerCell::Unsigned(label);
        let internal_id = IntegerCell::Unsigned(internal_id);
        let deleted = DeletedCell::Boolean(Some(deleted));
        let out = state
            .ingest_row(
                options,
                &VectorCell::Values(lanes(&vector)),
                Some(&deleted),
                if with_label { Some(&label) } else { None },
                Some(&internal_id),
                row,
            )
            .expect("row");
        if let Some(entry) = out {
            inserted.push(entry);
        }
    }
    (state.into_summary(), inserted)
}

#[test]
fn ingest_skips_deleted_rows() {
    let options = BuildOptions { m: 8, m0: Some(16), ef_construction: 32, batch_size: 2, ..BuildOptions::default() };
    let (summary, inserted) = ingest(&options, true);
    assert_eq!(summary.scanned, 3);
    assert_eq!(summary.inserted, 2);
    assert_eq!(summary.deleted_skipped, 1);
    assert_eq!(summary.dimension, 2);
    assert_eq!(inserted[0].1, 100);
    assert_eq!(inserted[1].1, 300);
}

#[test]
fn ingest_includes_deleted_rows_when_asked() {
    let options = BuildOptions { include_deleted: true, ..BuildOptions::default() };
    let (summary, inserted) = ingest(&options, true);
    assert_eq!(summary.scanned, 3);
    assert_eq!(summary.inserted, 3);
    assert_eq!(summary.deleted_skipped, 0);
    assert_eq!(inserted[1].1, 200);
}

#[test]
fn ingest_falls_back_to_internal_id() {
    let options = BuildOptions { include_deleted: true, ..BuildOptions::default() };
    let (_, inserted) = ingest(&options, false);
    let labels: Vec<u64> = inserted.iter().map(|e| e.1).collect();
    assert_eq!(labels, vec![0, 1, 2]);
}

#[test]
fn empty_build_has_dimension_zero() {
    let summary = BuildState::default().into_summary();
    assert_eq!(summary, BuildSummary { scanned: 0, inserted: 0, deleted_skipped: 0, dimension: 0 });
}

#[test]
fn request_defaults() {
    let request = BuildRequest {
        input_path: "in.parquet".to_string(),
        output_path: "out.hnsw".to_string(),
        input_format: None,
        metric: Some(DistanceMetric::Cosine),
        include_deleted: None,
        m: None,
        m0: Some(24),
        ef_construction: None,
        batch_size: None,
        capacity: Some(10),
        seed: None,
    };
    let options = request.options();
    assert_eq!(options.metric, DistanceMetric::Cosine);
    assert_eq!(options.input_format, InputFormat::Parquet);
    assert_eq!(options.m, 16);
    assert_eq!(options.m0, Some(24));
    assert_eq!(options.ef_construction, 200);
    assert_eq!(options.batch_size, 1024);
    assert_eq!(options.capacity, Some(10));
    assert!(!options.include_deleted);

    let request = ExtractRequest {
        index_dir: "dir".to_string(),
        output_path: "out.arrow".to_string(),
        output_format: Some(OutputFormat::ArrowIpc),
        metadata_path: None,
        include_deleted: None,
        batch_size: Some(7),
    };
    let settings = request.settings();
    assert_eq!(settings.output_format, OutputFormat::ArrowIpc);
    assert!(!settings.include_deleted);
    assert_eq!(settings.batch_size, 7);
}

#[test]
fn blank_paths_are_reported() {
    assert!(blank(""));
    assert!(blank(" \t\n\u{3000}"));
    assert!(!blank(" a "));
    let mut request = BuildRequest {
        input_path: "  ".to_string(),
        output_path: "".to_string(),
        input_format: None,
        metric: None,
        include_deleted: None,
        m: None,
        m0: None,
        ef_construction: None,
        batch_size: None,
        capacity: None,
        seed: None,
    };
    assert_eq!(request.missing_field(), Some(MissingField::InputPath));
    request.input_path = "in".to_string();
    assert_eq!(request.missing_field(), Some(MissingField::OutputPath));
    request.output_path = "out".to_string();
    assert_eq!(request.missing_field(), None);

    let request = ExtractRequest {
        index_dir: "\t".to_string(),
        output_path: "out".to_string(),
        output_format: None,
        metadata_path: None,
        include_deleted: None,
        batch_size: None,
    };
    assert_eq!(request.missing_field(), Some(MissingField::IndexDir));
}

fn row_cells(deleted: bool, vector: &[f32], label: Option<u64>) -> RowCells {
    RowCells {
        vector: VectorCell::Values(lanes(vector)),
        deleted: Some(DeletedCell::Boolean(Some(deleted))),
        label: label.map(IntegerCell::Unsigned),
        internal_id: None,
    }
}

#[test]
fn batches_insert_rows_in_order_with_running_row_ids() {
    let options = BuildOptions { include_deleted: true, ..BuildOptions::default() };
    let mut state = BuildState::default();
    let first = vec![row_cells(false, &[1.0, 0.0], None), row_cells(true, &[0.0, 1.0], None)];
    let second = vec![row_cells(false, &[0.8, 0.2], None)];
    let a = state.ingest_rows(&options, &first).expect("first batch");
    let b = state.ingest_rows(&options, &second).expect("second batch");
    let labels: Vec<u64> = a.iter().chain(b.iter()).map(|e| e.1).collect();
    assert_eq!(labels, vec![0, 1, 2]);
    assert_eq!(b[0].0, lanes(&[0.8, 0.2]).into_iter().map(|v| v.unwrap()).collect::<Vec<_>>());
    let summary = state.into_summary();
    assert_eq!(summary, BuildSummary { scanned: 3, inserted: 3, deleted_skipped: 0, dimension: 2 });
}

#[test]
fn batch_skips_deleted_rows_and_stops_at_first_error() {
    let options = BuildOptions::default();
    let mut state = BuildState::default();
    let rows = vec![
        row_cells(false, &[1.0], Some(100)),
        row_cells(true, &[2.0], Some(200)),
        row_cells(false, &[3.0], Some(300)),
    ];
    let inserted = state.ingest_rows(&options, &rows).expect("batch");
    assert_eq!(inserted.iter().map(|e| e.1).collect::<Vec<_>>(), vec![100, 300]);
    assert_eq!(state.deleted_skipped, 1);

    let bad = vec![row_cells(false, &[1.0], Some(1)), row_cells(false, &[1.0, 2.0], Some(2))];
    assert_eq!(
        input_error(state.ingest_rows(&options, &bad)),
        InputError::VectorDimensionMismatch { row: 1, found: 2, expected: 1 }
    );
}

#[test]
fn last_error_text_escapes_nuls() {
    assert_eq!(last_error_text(""), "unknown error");
    assert_eq!(last_error_text("bad\0path"), "bad\\0path");
    assert_eq!(last_error_text("plain é"), "plain é");
}
