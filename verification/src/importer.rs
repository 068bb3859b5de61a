//! The decisions of building a new index from a columnar export: which options are
//! accepted, how each input row's cells are read, and which rows are inserted.
//!
//! The cells reach this module as plain values: integer cells as [`IntegerCell`],
//! deleted flags as [`DeletedCell`], and vectors as [`VectorCell`], whose lanes are the
//! bit patterns of `f32` values.
use vstd::prelude::*;

use crate::error::{ExtractError, InputError, IntColumn};

verus! {

/// The columnar file format that a build reads.
#[derive(Debug, Clone, Copy, PartialEq, Eq, Structural)]
pub enum InputFormat {
    ArrowIpc,
    Parquet,
}

impl Default for InputFormat {
    fn default() -> (r: Self)
        ensures
            r == InputFormat::Parquet,
    {
        InputFormat::Parquet
    }
}

/// The distance by which the built index compares vectors.
#[derive(Debug, Clone, Copy, PartialEq, Eq, Structural)]
pub enum DistanceMetric {
    Euclidean,
    SquaredEuclidean,
    Cosine,
    DotProduct,
    Manhattan,
}

impl Default for DistanceMetric {
    fn default() -> (r: Self)
        ensures
            r == DistanceMetric::Euclidean,
    {
        DistanceMetric::Euclidean
    }
}

/// The counts of a build.
#[derive(Debug, Clone, Copy, PartialEq, Eq)]
pub struct BuildSummary {
    pub scanned: u64,
    pub inserted: u64,
    pub deleted_skipped: u64,
    pub dimension: usize,
}

/// How an index is built.
#[derive(Debug, Clone, Copy, PartialEq, Eq)]
pub struct BuildOptions {
    pub include_deleted: bool,
    pub input_format: InputFormat,
    pub metric: DistanceMetric,
    pub m: usize,
    pub m0: Option<usize>,
    pub ef_construction: usize,
    pub batch_size: usize,
    pub capacity: Option<usize>,
    pub seed: Option<u64>,
}

impl Default for BuildOptions {
    fn default() -> (r: Self)
        ensures
            r == (BuildOptions {
                include_deleted: false,
                input_format: InputFormat::Parquet,
                metric: DistanceMetric::Euclidean,
                m: 16,
                m0: None,
                ef_construction: 200,
                batch_size: 1024,
                capacity: None,
                seed: None,
            }),
    {
        BuildOptions {
            include_deleted: false,
            input_format: InputFormat::Parquet,
            metric: DistanceMetric::Euclidean,
            m: 16,
            m0: None,
            ef_construction: 200,
            batch_size: 1024,
            capacity: None,
            seed: None,
        }
    }
}

/// The first rule that `options` breaks, in the order in which they are checked.
pub open spec fn options_issue(options: BuildOptions) -> Option<InputError> {
    if options.m < 2 {
        Some(InputError::MTooSmall { m: options.m })
    } else if options.m0 matches Some(m0) && m0 < 2 {
        Some(InputError::M0TooSmall { m0: options.m0->0 })
    } else if options.ef_construction < options.m {
        Some(
            InputError::EfConstructionBelowM {
                ef_construction: options.ef_construction,
                m: options.m,
            },
        )
    } else if options.batch_size == 0 {
        Some(InputError::ZeroBatchSize)
    } else {
        None
    }
}

/// Checks the build options: `m >= 2`, `m0 >= 2` where given, `ef_construction >= m`
/// and `batch_size >= 1`.
pub fn validate_options(options: &BuildOptions) -> (r: Result<(), ExtractError>)
    ensures
        match options_issue(*options) {
            Some(e) => r == Err::<(), ExtractError>(ExtractError::InvalidInput(e)),
            None => r is Ok,
        },
        r is Ok <==> {
            &&& options.m >= 2
            &&& (options.m0 is None || options.m0->0 >= 2)
            &&& options.ef_construction >= options.m
            &&& options.batch_size >= 1
        },
{
    proof {
        lemma_options_accepted(*options);
    }
    if options.m < 2 {
        return Err(ExtractError::InvalidInput(InputError::MTooSmall { m: options.m }));
    }
    if let Some(m0) = options.m0 {
        if m0 < 2 {
            return Err(ExtractError::InvalidInput(InputError::M0TooSmall { m0 }));
        }
    }
    if options.ef_construction < options.m {
        return Err(
            ExtractError::InvalidInput(
                InputError::EfConstructionBelowM {
                    ef_construction: options.ef_construction,
                    m: options.m,
                },
            ),
        );
    }
    if options.batch_size == 0 {
        return Err(ExtractError::InvalidInput(InputError::ZeroBatchSize));
    }
    Ok(())
}

/// One cell of an integer column.
#[derive(Debug, Clone, PartialEq, Eq)]
pub enum IntegerCell {
    /// The cell is null.
    Null,
    /// A cell of an unsigned column (8 to 64 bits), widened.
    Unsigned(u64),
    /// A cell of a signed column (8 to 64 bits), widened.
    Signed(i64),
    /// The column is not an integer column; its data type, as text.
    NotInteger(String),
}

/// One cell of the `deleted` column.
#[derive(Debug, Clone, PartialEq, Eq)]
pub enum DeletedCell {
    /// A cell of a boolean column; `None` where it is null.
    Boolean(Option<bool>),
    /// A cell of any other column, read as an integer.
    Other(IntegerCell),
}

/// One cell of the `vector` column.
#[derive(Debug, Clone, PartialEq, Eq)]
pub enum VectorCell {
    /// The column is not a (fixed-size, plain or large) list; its data type, as text.
    UnsupportedColumn(String),
    /// The cell is null.
    Null,
    /// The list holds neither `f32` nor `f64` values; their data type, as text.
    UnsupportedValues(String),
    /// The values as `f32` bit patterns (an `f64` rounded to `f32`), `None` where null.
    Values(Vec<Option<u32>>),
}

/// The result of reading an unsigned value from a cell that may be null.
pub open spec fn unsigned_result(is_null: bool, value: u64, row: usize, column: IntColumn) -> Result<u64, ExtractError> {
    if is_null {
        Err(ExtractError::InvalidInput(InputError::NullValue { column, row }))
    } else {
        Ok(value)
    }
}

/// The result of reading row `row` of the integer column `column` as a `u64`.
pub open spec fn u64_result(cell: IntegerCell, row: usize, column: IntColumn) -> Result<u64, ExtractError> {
    match cell {
        IntegerCell::Null => Err(ExtractError::InvalidInput(InputError::NullValue { column, row })),
        IntegerCell::Unsigned(v) => Ok(v),
        IntegerCell::Signed(v) => if v < 0 {
            Err(ExtractError::InvalidInput(InputError::NegativeValue { column, row, value: v }))
        } else {
            Ok(v as u64)
        },
        IntegerCell::NotInteger(t) => Err(
            ExtractError::InvalidInput(InputError::NotInteger { column, data_type: t }),
        ),
    }
}

/// The result of reading the deleted flag of row `row`; with no `deleted` column no row
/// is deleted, and an integer flag is set where it is non-zero.
pub open spec fn deleted_result(col: Option<&DeletedCell>, row: usize) -> Result<bool, ExtractError> {
    match col {
        None => Ok(false),
        Some(DeletedCell::Boolean(None)) => Err(
            ExtractError::InvalidInput(InputError::NullValue { column: IntColumn::Deleted, row }),
        ),
        Some(DeletedCell::Boolean(Some(b))) => Ok(*b),
        Some(DeletedCell::Other(c)) => match u64_result(*c, row, IntColumn::Deleted) {
            Ok(v) => Ok(v != 0),
            Err(e) => Err(e),
        },
    }
}

/// The result of reading the label of row `row`: the `label` column where there is one,
/// else the `internal_id` column, else the row's position in the input.
pub open spec fn label_result(
    label_col: Option<&IntegerCell>,
    internal_id_col: Option<&IntegerCell>,
    row: usize,
    fallback_row_id: u64,
) -> Result<u64, ExtractError> {
    match label_col {
        Some(c) => u64_result(*c, row, IntColumn::Label),
        None => match internal_id_col {
            Some(c) => u64_result(*c, row, IntColumn::InternalId),
            None => Ok(fallback_row_id),
        },
    }
}

/// Whether `k` is the first position of `values` that is null.
pub open spec fn first_null(values: Seq<Option<u32>>, k: int) -> bool {
    &&& 0 <= k < values.len()
    &&& values[k] is None
    &&& forall|j: int| 0 <= j < k ==> values[j] is Some
}

/// The lanes of a vector none of whose values is null.
pub open spec fn lanes_of(values: Seq<Option<u32>>) -> Seq<u32> {
    values.map_values(|v: Option<u32>| v->0)
}

/// The result of reading the vector of row `row` when the vectors read before have
/// dimension `expected`, if any: lanes, or the error, and the dimension after it.
pub open spec fn vector_result(cell: VectorCell, row: usize, expected: Option<usize>) -> Result<
    Seq<u32>,
    ExtractError,
> {
    match cell {
        VectorCell::UnsupportedColumn(t) => Err(
            ExtractError::InvalidInput(InputError::VectorColumnType { data_type: t }),
        ),
        VectorCell::Null => Err(ExtractError::InvalidInput(InputError::VectorNull { row })),
        VectorCell::UnsupportedValues(t) => Err(
            ExtractError::InvalidInput(InputError::VectorValueType { row, data_type: t }),
        ),
        VectorCell::Values(v) => if exists|k: int| first_null(v@, k) {
            Err(
                ExtractError::InvalidInput(
                    InputError::VectorNullElement {
                        row,
                        position: (choose|k: int| first_null(v@, k)) as usize,
                    },
                ),
            )
        } else if v@.len() == 0 {
            Err(ExtractError::InvalidInput(InputError::VectorEmpty { row }))
        } else if expected matches Some(d) && d != v@.len() {
            Err(
                ExtractError::InvalidInput(
                    InputError::VectorDimensionMismatch {
                        row,
                        found: v@.len() as usize,
                        expected: expected->0,
                    },
                ),
            )
        } else {
            Ok(lanes_of(v@))
        },
    }
}

/// Reads a value of an unsigned column.
pub fn read_unsigned(is_null: bool, value: u64, row: usize, column: IntColumn) -> (r: Result<
    u64,
    ExtractError,
>)
    ensures
        r == unsigned_result(is_null, value, row, column),
{
    if is_null {
        return Err(ExtractError::InvalidInput(InputError::NullValue { column, row }));
    }
    Ok(value)
}

/// Reads row `row` of the integer column `column` as a non-negative `u64`.
pub fn read_u64(col: &IntegerCell, row: usize, column: IntColumn) -> (r: Result<u64, ExtractError>)
    ensures
        r == u64_result(*col, row, column),
        *col matches IntegerCell::Unsigned(v) ==> r == Ok::<u64, ExtractError>(v),
        *col matches IntegerCell::Signed(v) ==> {
            &&& v >= 0 ==> r == Ok::<u64, ExtractError>(v as u64)
            &&& v < 0 ==> r == Err::<u64, ExtractError>(
                ExtractError::InvalidInput(InputError::NegativeValue { column, row, value: v }),
            )
        },
        *col is Null ==> r == Err::<u64, ExtractError>(
            ExtractError::InvalidInput(InputError::NullValue { column, row }),
        ),
        r matches Err(ExtractError::InvalidInput(InputError::NegativeValue { value, .. })) ==> {
            &&& value < 0
            &&& *col == IntegerCell::Signed(value)
        },
{
    proof {
        lemma_integer_cell_values(*col, row, column);
    }
    match col {
        IntegerCell::Null => read_unsigned(true, 0, row, column),
        IntegerCell::Unsigned(v) => read_unsigned(false, *v, row, column),
        IntegerCell::Signed(v) => {
            if *v < 0 {
                return Err(
                    ExtractError::InvalidInput(
                        InputError::NegativeValue { column, row, value: *v },
                    ),
                );
            }
            Ok(*v as u64)
        },
        IntegerCell::NotInteger(t) => Err(
            ExtractError::InvalidInput(InputError::NotInteger { column, data_type: t.clone() }),
        ),
    }
}

/// Reads the deleted flag of row `row`.
pub fn read_deleted(col: Option<&DeletedCell>, row: usize) -> (r: Result<bool, ExtractError>)
    ensures
        r == deleted_result(col, row),
        col is None ==> r == Ok::<bool, ExtractError>(false),
        col matches Some(DeletedCell::Boolean(Some(b))) ==> r == Ok::<bool, ExtractError>(*b),
        col matches Some(DeletedCell::Other(IntegerCell::Unsigned(v))) ==> r == Ok::<
            bool,
            ExtractError,
        >(*v != 0),
        col matches Some(DeletedCell::Other(IntegerCell::Signed(v))) ==> (*v >= 0 ==> r == Ok::<
            bool,
            ExtractError,
        >(*v != 0)),
{
    proof {
        lemma_integer_deleted_flag(col, row);
    }
    let col = match col {
        Some(c) => c,
        None => {
            return Ok(false);
        },
    };
    match col {
        DeletedCell::Boolean(None) => Err(
            ExtractError::InvalidInput(InputError::NullValue { column: IntColumn::Deleted, row }),
        ),
        DeletedCell::Boolean(Some(b)) => Ok(*b),
        DeletedCell::Other(c) => {
            let numeric = read_u64(c, row, IntColumn::Deleted)?;
            Ok(numeric != 0)
        },
    }
}

/// The build options are accepted exactly when `m` is at least 2, `m0`, where it is
/// given, is at least 2 (a larger `m0`, such as twice `m`, is accepted), `ef_construction`
/// is at least `m` and the batch size is at least 1.
pub proof fn lemma_options_accepted(options: BuildOptions)
    ensures
        options_issue(options) is None <==> {
            &&& options.m >= 2
            &&& (options.m0 is None || options.m0->0 >= 2)
            &&& options.ef_construction >= options.m
            &&& options.batch_size >= 1
        },
        options_issue(options) matches Some(InputError::M0TooSmall { m0 }) ==> {
            &&& options.m0 == Some(m0)
            &&& m0 < 2
        },
{
}

/// An integer cell reads as its own value where it holds an unsigned value or a signed
/// value that is not negative (zero included); only a negative signed value is refused
/// as negative, and a null cell is refused as null.
pub proof fn lemma_integer_cell_values(cell: IntegerCell, row: usize, column: IntColumn)
    ensures
        cell matches IntegerCell::Unsigned(v) ==> u64_result(cell, row, column) == Ok::<
            u64,
            ExtractError,
        >(v),
        cell matches IntegerCell::Signed(v) ==> {
            &&& v >= 0 ==> u64_result(cell, row, column) == Ok::<u64, ExtractError>(v as u64)
            &&& v < 0 ==> u64_result(cell, row, column) == Err::<u64, ExtractError>(
                ExtractError::InvalidInput(InputError::NegativeValue { column, row, value: v }),
            )
        },
        cell is Null ==> u64_result(cell, row, column) == Err::<u64, ExtractError>(
            ExtractError::InvalidInput(InputError::NullValue { column, row }),
        ),
        u64_result(cell, row, column) matches Err(
            ExtractError::InvalidInput(InputError::NegativeValue { value, .. }),
        ) ==> {
            &&& value < 0
            &&& cell == IntegerCell::Signed(value)
        },
{
}

/// A `deleted` cell of an integer column marks its row deleted exactly when its value is
/// not zero (so 1 is deleted and 0 is not); a boolean cell is the flag itself, and with no
/// `deleted` column no row is deleted.
pub proof fn lemma_integer_deleted_flag(col: Option<&DeletedCell>, row: usize)
    ensures
        col is None ==> deleted_result(col, row) == Ok::<bool, ExtractError>(false),
        col matches Some(DeletedCell::Boolean(Some(b))) ==> deleted_result(col, row) == Ok::<
            bool,
            ExtractError,
        >(*b),
        col matches Some(DeletedCell::Other(IntegerCell::Unsigned(v))) ==> deleted_result(
            col,
            row,
        ) == Ok::<bool, ExtractError>(*v != 0),
        col matches Some(DeletedCell::Other(IntegerCell::Signed(v))) ==> (*v >= 0
            ==> deleted_result(col, row) == Ok::<bool, ExtractError>(*v != 0)),
{
}

/// Reads the label of row `row`, whose position in the input is `fallback_row_id`.
pub fn resolve_label(
    label_col: Option<&IntegerCell>,
    internal_id_col: Option<&IntegerCell>,
    row: usize,
    fallback_row_id: u64,
) -> (r: Result<u64, ExtractError>)
    ensures
        r == label_result(label_col, internal_id_col, row, fallback_row_id),
{
    if let Some(col) = label_col {
        return read_u64(col, row, IntColumn::Label);
    }
    if let Some(col) = internal_id_col {
        return read_u64(col, row, IntColumn::InternalId);
    }
    Ok(fallback_row_id)
}

/// Reads the vector of row `row`; the first vector read fixes the dimension that every
/// later one must have.
pub fn read_vector(col: &VectorCell, row: usize, expected_dim: &mut Option<usize>) -> (r: Result<
    Vec<u32>,
    ExtractError,
>)
    ensures
        match vector_result(*col, row, *old(expected_dim)) {
            Ok(lanes) => {
                &&& r matches Ok(v)
                &&& v@ == lanes
                &&& *final(expected_dim) == Some(lanes.len() as usize)
            },
            Err(e) => r == Err::<Vec<u32>, ExtractError>(e) && *final(expected_dim) == *old(
                expected_dim,
            ),
        },
{
    let values = match col {
        VectorCell::UnsupportedColumn(t) => {
            return Err(
                ExtractError::InvalidInput(InputError::VectorColumnType { data_type: t.clone() }),
            );
        },
        VectorCell::Null => {
            return Err(ExtractError::InvalidInput(InputError::VectorNull { row }));
        },
        VectorCell::UnsupportedValues(t) => {
            return Err(
                ExtractError::InvalidInput(
                    InputError::VectorValueType { row, data_type: t.clone() },
                ),
            );
        },
        VectorCell::Values(v) => v,
    };
    let n = values.len();
    let mut vector: Vec<u32> = Vec::with_capacity(n);
    for i in 0..n
        invariant
            n == values@.len(),
            *col == VectorCell::Values(*values),
            *expected_dim == *old(expected_dim),
            forall|j: int| 0 <= j < i ==> values@[j] is Some,
            vector@ =~= lanes_of(values@.take(i as int)),
    {
        match values[i] {
            Some(lane) => {
                vector.push(lane);
            },
            None => {
                assert(first_null(values@, i as int));
                proof {
                    assert forall|k: int| first_null(values@, k) implies k == i by {
                        if k > i {
                            assert(values@[i as int] is Some);
                        }
                    }
                    assert(exists|k: int| first_null(values@, k));
                    assert((choose|k: int| first_null(values@, k)) == i);
                }
                return Err(
                    ExtractError::InvalidInput(InputError::VectorNullElement { row, position: i }),
                );
            },
        }
    }
    assert(values@.take(n as int) =~= values@);
    assert(!exists|k: int| first_null(values@, k));

    if vector.len() == 0 {
        return Err(ExtractError::InvalidInput(InputError::VectorEmpty { row }));
    }
    match *expected_dim {
        Some(dim) => {
            if dim != vector.len() {
                return Err(
                    ExtractError::InvalidInput(
                        InputError::VectorDimensionMismatch {
                            row,
                            found: vector.len(),
                            expected: dim,
                        },
                    ),
                );
            }
        },
        None => {
            *expected_dim = Some(vector.len());
        },
    }
    Ok(vector)
}

/// The position of the first of `names` that is `name`, as a schema's `index_of` gives it.
pub open spec fn position_of(names: Seq<String>, name: Seq<char>) -> Option<usize> {
    if exists|k: int| 0 <= k < names.len() && names[k]@ == name {
        Some(
            (choose|k: int|
                0 <= k < names.len() && names[k]@ == name && forall|j: int|
                    0 <= j < k ==> names[j]@ != name) as usize,
        )
    } else {
        None
    }
}

/// Where in a batch's columns the build finds each column it reads.
#[derive(Debug, Clone, Copy, PartialEq, Eq)]
pub struct BatchColumns {
    pub vector: usize,
    pub label: Option<usize>,
    pub internal_id: Option<usize>,
    pub deleted: Option<usize>,
}

/// The position of the first of `names` equal to `name`, if any.
fn index_of(names: &Vec<String>, name: &str) -> (r: Option<usize>)
    ensures
        r == position_of(names@, name@),
        r matches Some(k) ==> k < names@.len() && names@[k as int]@ == name@,
{
    let wanted = name.to_owned();
    let n = names.len();
    for i in 0..n
        invariant
            n == names@.len(),
            wanted@ == name@,
            forall|j: int| 0 <= j < i ==> names@[j]@ != name@,
    {
        if names[i] == wanted {
            let ghost k = choose|k: int|
                0 <= k < names@.len() && names@[k]@ == name@ && forall|j: int|
                    0 <= j < k ==> names@[j]@ != name@;
            assert(0 <= i < names@.len() && names@[i as int]@ == name@ && forall|j: int|
                0 <= j < i ==> names@[j]@ != name@);
            assert(k == i) by {
                if k < i {
                    assert(names@[k]@ != name@);
                } else if k > i {
                    assert(names@[i as int]@ != name@);
                }
            }
            return Some(i);
        }
    }
    None
}

/// Finds the columns of a batch by name: `vector` is required, `label`, `internal_id`
/// and `deleted` are read where present.
pub fn resolve_batch_columns(names: &Vec<String>) -> (r: Result<BatchColumns, ExtractError>)
    ensures
        position_of(names@, "vector"@) is None ==> r == Err::<BatchColumns, ExtractError>(
            ExtractError::InvalidInput(InputError::MissingVectorColumn),
        ),
        position_of(names@, "vector"@) is Some ==> r == Ok::<BatchColumns, ExtractError>(
            BatchColumns {
                vector: position_of(names@, "vector"@)->0,
                label: position_of(names@, "label"@),
                internal_id: position_of(names@, "internal_id"@),
                deleted: position_of(names@, "deleted"@),
            },
        ),
{
    let vector = match index_of(names, "vector") {
        Some(ix) => ix,
        None => {
            return Err(ExtractError::InvalidInput(InputError::MissingVectorColumn));
        },
    };
    Ok(
        BatchColumns {
            vector,
            label: index_of(names, "label"),
            internal_id: index_of(names, "internal_id"),
            deleted: index_of(names, "deleted"),
        },
    )
}

/// `x + 1`, or `x` where that would not fit.
pub open spec fn saturating_inc(x: u64) -> u64 {
    if x == u64::MAX {
        x
    } else {
        (x + 1) as u64
    }
}

/// The cells of one input row.
#[derive(Debug, Clone, PartialEq, Eq)]
pub struct RowCells {
    pub vector: VectorCell,
    pub deleted: Option<DeletedCell>,
    pub label: Option<IntegerCell>,
    pub internal_id: Option<IntegerCell>,
}

/// What the row at position `row` of its batch does to the build state `s`: the state
/// after it, and the vector and label to insert (`None` where it is skipped as deleted),
/// or the error that stops the build.
pub open spec fn row_step(
    s: BuildState,
    options: BuildOptions,
    vector: VectorCell,
    deleted: Option<&DeletedCell>,
    label: Option<&IntegerCell>,
    internal_id: Option<&IntegerCell>,
    row: usize,
) -> (BuildState, Result<Option<(Seq<u32>, u64)>, ExtractError>) {
    let vr = vector_result(vector, row, s.expected_dim);
    let dr = deleted_result(deleted, row);
    let lr = label_result(label, internal_id, row, s.row_index);
    let counted = BuildState {
        row_index: saturating_inc(s.row_index),
        scanned: saturating_inc(s.scanned),
        ..s
    };
    if vr is Err {
        (counted, Err(vr->Err_0))
    } else {
        let sized = BuildState { expected_dim: Some(vr->Ok_0.len() as usize), ..counted };
        if dr is Err {
            (sized, Err(dr->Err_0))
        } else if lr is Err {
            (sized, Err(lr->Err_0))
        } else if dr->Ok_0 && !options.include_deleted {
            (BuildState { deleted_skipped: saturating_inc(s.deleted_skipped), ..sized }, Ok(None))
        } else {
            (
                BuildState { inserted: saturating_inc(s.inserted), ..sized },
                Ok(Some((vr->Ok_0, lr->Ok_0))),
            )
        }
    }
}

/// [`row_step`] on the cells of `cells`.
pub open spec fn row_cells_step(s: BuildState, options: BuildOptions, cells: RowCells, row: usize) -> (
    BuildState,
    Result<Option<(Seq<u32>, u64)>, ExtractError>,
) {
    row_step(
        s,
        options,
        cells.vector,
        match cells.deleted {
            Some(d) => Some(&d),
            None => None,
        },
        match cells.label {
            Some(l) => Some(&l),
            None => None,
        },
        match cells.internal_id {
            Some(i) => Some(&i),
            None => None,
        },
        row,
    )
}

/// What the first `n` rows of a batch do to the build state `s0`: the state after them and
/// the inserts they ask for in row order, or the first error, after which no row is read.
pub open spec fn ingest_prefix(s0: BuildState, options: BuildOptions, rows: Seq<RowCells>, n: nat) -> (
    BuildState,
    Result<Seq<(Seq<u32>, u64)>, ExtractError>,
)
    decreases n,
{
    if n == 0 {
        (s0, Ok(Seq::empty()))
    } else {
        let (s, acc) = ingest_prefix(s0, options, rows, (n - 1) as nat);
        match acc {
            Err(e) => (s, Err(e)),
            Ok(inserts) => {
                let (s2, out) = row_cells_step(s, options, rows[n - 1], (n - 1) as usize);
                match out {
                    Err(e) => (s2, Err(e)),
                    Ok(None) => (s2, Ok(inserts)),
                    Ok(Some(x)) => (s2, Ok(inserts.push(x))),
                }
            },
        }
    }
}

/// The lanes of a vector cell that holds values.
pub open spec fn row_lanes(cell: VectorCell) -> Seq<u32> {
    match cell {
        VectorCell::Values(v) => lanes_of(v@),
        _ => Seq::empty(),
    }
}

/// The inserts that the first `n` rows of a batch ask for when every row reads cleanly:
/// each row that is not skipped as deleted, in row order, with its vector and its label,
/// whose fallback is the row's position in the whole input, `first_row_id` plus its
/// position in the batch.
pub open spec fn inserted_rows(first_row_id: int, options: BuildOptions, rows: Seq<RowCells>, n: nat) -> Seq<
    (Seq<u32>, u64),
>
    decreases n,
{
    if n == 0 {
        Seq::empty()
    } else {
        let before = inserted_rows(first_row_id, options, rows, (n - 1) as nat);
        let c = rows[n - 1];
        let r = (n - 1) as usize;
        let deleted = deleted_result(
            match c.deleted {
                Some(d) => Some(&d),
                None => None,
            },
            r,
        );
        if options.include_deleted || !deleted->Ok_0 {
            before.push(
                (
                    row_lanes(c.vector),
                    label_result(
                        match c.label {
                            Some(l) => Some(&l),
                            None => None,
                        },
                        match c.internal_id {
                            Some(i) => Some(&i),
                            None => None,
                        },
                        r,
                        (first_row_id + n - 1) as u64,
                    )->Ok_0,
                ),
            )
        } else {
            before
        }
    }
}

/// Once the rows of a batch have stopped on an error, later rows change nothing.
pub proof fn lemma_ingest_stops_at_error(
    s0: BuildState,
    options: BuildOptions,
    rows: Seq<RowCells>,
    k: nat,
    n: nat,
)
    requires
        k <= n,
        ingest_prefix(s0, options, rows, k).1 is Err,
    ensures
        ingest_prefix(s0, options, rows, n) == ingest_prefix(s0, options, rows, k),
    decreases n,
{
    if k < n {
        lemma_ingest_stops_at_error(s0, options, rows, k, (n - 1) as nat);
    }
}

/// A batch of `n` rows that reads cleanly, from a state whose counts do not reach
/// `u64::MAX` on the way: every row is scanned and given the next row id; each row is
/// either inserted or skipped as deleted; the inserts are exactly the rows that are not
/// skipped, in row order, each with its vector and its label, whose fallback is
/// `s0.row_index + r`; and the dimension is the one before, else the first row's.
pub proof fn lemma_ingest_rows(s0: BuildState, options: BuildOptions, rows: Seq<RowCells>, n: nat)
    requires
        n <= rows.len(),
        s0.scanned + n <= u64::MAX,
        s0.row_index + n <= u64::MAX,
        s0.inserted + n <= u64::MAX,
        s0.deleted_skipped + n <= u64::MAX,
        ingest_prefix(s0, options, rows, n).1 is Ok,
    ensures
        ({
            let (s, acc) = ingest_prefix(s0, options, rows, n);
            &&& s.scanned == s0.scanned + n
            &&& s.row_index == s0.row_index + n
            &&& s.inserted + s.deleted_skipped == s0.inserted + s0.deleted_skipped + n
            &&& acc->Ok_0.len() <= n
            &&& s.inserted == s0.inserted + acc->Ok_0.len()
            &&& s.deleted_skipped == s0.deleted_skipped + (n - acc->Ok_0.len())
            &&& acc->Ok_0 == inserted_rows(s0.row_index as int, options, rows, n)
            &&& s.expected_dim == if n == 0 || s0.expected_dim is Some {
                s0.expected_dim
            } else {
                Some(row_lanes(rows[0].vector).len() as usize)
            }
        }),
    decreases n,
{
    if n > 0 {
        let (s, acc) = ingest_prefix(s0, options, rows, (n - 1) as nat);
        if acc is Err {
            lemma_ingest_stops_at_error(s0, options, rows, (n - 1) as nat, n);
        }
        lemma_ingest_rows(s0, options, rows, (n - 1) as nat);
        let c = rows[n - 1];
        let vr = vector_result(c.vector, (n - 1) as usize, s.expected_dim);
        assert(vr is Ok);
        match c.vector {
            VectorCell::Values(v) => {
                assert(vr->Ok_0 == lanes_of(v@));
                assert(lanes_of(v@).len() == v@.len());
            },
            _ => {},
        }
    }
}

/// Two batches read one after the other: the second batch's fallback labels continue
/// from the first batch's row count, so row ids run across the whole input.
pub proof fn lemma_ingest_two_batches(
    s0: BuildState,
    options: BuildOptions,
    first: Seq<RowCells>,
    second: Seq<RowCells>,
)
    requires
        s0.scanned + first.len() + second.len() <= u64::MAX,
        s0.row_index + first.len() + second.len() <= u64::MAX,
        s0.inserted + first.len() + second.len() <= u64::MAX,
        s0.deleted_skipped + first.len() + second.len() <= u64::MAX,
        ingest_prefix(s0, options, first, first.len()).1 is Ok,
        ingest_prefix(ingest_prefix(s0, options, first, first.len()).0, options, second, second.len()).1 is Ok,
    ensures
        ({
            let s1 = ingest_prefix(s0, options, first, first.len()).0;
            let (s2, acc2) = ingest_prefix(s1, options, second, second.len());
            &&& s2.row_index == s0.row_index + first.len() + second.len()
            &&& s2.scanned == s0.scanned + first.len() + second.len()
            &&& acc2->Ok_0 == inserted_rows(s0.row_index + first.len(), options, second, second.len())
        }),
{
    lemma_ingest_rows(s0, options, first, first.len());
    let s1 = ingest_prefix(s0, options, first, first.len()).0;
    lemma_ingest_rows(s1, options, second, second.len());
}

/// The counts of a build in progress.
#[derive(Debug, Clone, Copy, PartialEq, Eq)]
pub struct BuildState {
    pub scanned: u64,
    pub inserted: u64,
    pub deleted_skipped: u64,
    pub expected_dim: Option<usize>,
    pub row_index: u64,
}

impl Default for BuildState {
    fn default() -> (r: Self)
        ensures
            r == (BuildState {
                scanned: 0,
                inserted: 0,
                deleted_skipped: 0,
                expected_dim: None,
                row_index: 0,
            }),
    {
        BuildState { scanned: 0, inserted: 0, deleted_skipped: 0, expected_dim: None, row_index: 0 }
    }
}

impl BuildState {
    /// The summary of the build so far; the dimension is 0 before any vector was read.
    pub fn into_summary(self) -> (s: BuildSummary)
        ensures
            s == (BuildSummary {
                scanned: self.scanned,
                inserted: self.inserted,
                deleted_skipped: self.deleted_skipped,
                dimension: match self.expected_dim {
                    Some(d) => d,
                    None => 0,
                },
            }),
    {
        BuildSummary {
            scanned: self.scanned,
            inserted: self.inserted,
            deleted_skipped: self.deleted_skipped,
            dimension: match self.expected_dim {
                Some(d) => d,
                None => 0,
            },
        }
    }

    /// Takes one input row: reads its vector, deleted flag and label, in that order, and
    /// returns the vector and label to insert, or `None` where the row is skipped as deleted.
    pub fn ingest_row(
        &mut self,
        options: &BuildOptions,
        vector: &VectorCell,
        deleted: Option<&DeletedCell>,
        label: Option<&IntegerCell>,
        internal_id: Option<&IntegerCell>,
        row: usize,
    ) -> (r: Result<Option<(Vec<u32>, u64)>, ExtractError>)
        ensures
            ({
                let (s, out) = row_step(
                    *old(self),
                    *options,
                    *vector,
                    deleted,
                    label,
                    internal_id,
                    row,
                );
                &&& *final(self) == s
                &&& match r {
                    Ok(None) => out == Ok::<Option<(Seq<u32>, u64)>, ExtractError>(None),
                    Ok(Some((v, l))) => out == Ok::<Option<(Seq<u32>, u64)>, ExtractError>(
                        Some((v@, l)),
                    ),
                    Err(e) => out == Err::<Option<(Seq<u32>, u64)>, ExtractError>(e),
                }
            }),
            final(self).row_index == saturating_inc(old(self).row_index),
            final(self).scanned == saturating_inc(old(self).scanned),
            old(self).inserted + old(self).deleted_skipped == old(self).scanned && old(self).scanned
                < u64::MAX && r is Ok ==> final(self).inserted + final(self).deleted_skipped
                == final(self).scanned,
            ({
                let vr = vector_result(*vector, row, old(self).expected_dim);
                let dr = deleted_result(deleted, row);
                let lr = label_result(label, internal_id, row, old(self).row_index);
                if vr is Err {
                    &&& r == Err::<Option<(Vec<u32>, u64)>, ExtractError>(vr->Err_0)
                    &&& final(self).inserted == old(self).inserted
                    &&& final(self).deleted_skipped == old(self).deleted_skipped
                    &&& final(self).expected_dim == old(self).expected_dim
                } else if dr is Err {
                    &&& r == Err::<Option<(Vec<u32>, u64)>, ExtractError>(dr->Err_0)
                    &&& final(self).inserted == old(self).inserted
                    &&& final(self).deleted_skipped == old(self).deleted_skipped
                    &&& final(self).expected_dim == Some(vr->Ok_0.len() as usize)
                } else if lr is Err {
                    &&& r == Err::<Option<(Vec<u32>, u64)>, ExtractError>(lr->Err_0)
                    &&& final(self).inserted == old(self).inserted
                    &&& final(self).deleted_skipped == old(self).deleted_skipped
                    &&& final(self).expected_dim == Some(vr->Ok_0.len() as usize)
                } else if dr->Ok_0 && !options.include_deleted {
                    &&& r matches Ok(None)
                    &&& final(self).deleted_skipped == saturating_inc(old(self).deleted_skipped)
                    &&& final(self).inserted == old(self).inserted
                    &&& final(self).expected_dim == Some(vr->Ok_0.len() as usize)
                } else {
                    &&& r matches Ok(Some((v, l)))
                    &&& v@ == vr->Ok_0
                    &&& l == lr->Ok_0
                    &&& final(self).inserted == saturating_inc(old(self).inserted)
                    &&& final(self).deleted_skipped == old(self).deleted_skipped
                    &&& final(self).expected_dim == Some(vr->Ok_0.len() as usize)
                }
            }),
    {
        let row_id = self.row_index;
        self.row_index = self.row_index.saturating_add(1);
        self.scanned = self.scanned.saturating_add(1);

        let vector = read_vector(vector, row, &mut self.expected_dim)?;
        let deleted = read_deleted(deleted, row)?;
        let label = resolve_label(label, internal_id, row, row_id)?;

        if deleted && !options.include_deleted {
            self.deleted_skipped = self.deleted_skipped.saturating_add(1);
            return Ok(None);
        }
        self.inserted = self.inserted.saturating_add(1);
        Ok(Some((vector, label)))
    }

    /// Takes the rows of one batch in order, as [`Self::ingest_row`] does each, and returns
    /// the vectors and labels to insert, in row order; the first error stops the batch.
    pub fn ingest_rows(&mut self, options: &BuildOptions, rows: &Vec<RowCells>) -> (r: Result<
        Vec<(Vec<u32>, u64)>,
        ExtractError,
    >)
        ensures
            ({
                let (s, acc) = ingest_prefix(*old(self), *options, rows@, rows@.len());
                &&& *final(self) == s
                &&& match r {
                    Ok(v) => acc == Ok::<Seq<(Seq<u32>, u64)>, ExtractError>(
                        v@.map_values(|p: (Vec<u32>, u64)| (p.0@, p.1)),
                    ),
                    Err(e) => acc == Err::<Seq<(Seq<u32>, u64)>, ExtractError>(e),
                }
            }),
    {
        let ghost s0 = *self;
        let mut inserts: Vec<(Vec<u32>, u64)> = Vec::new();
        let n = rows.len();
        assert(inserts@.map_values(|p: (Vec<u32>, u64)| (p.0@, p.1)) =~= Seq::empty());
        for i in 0..n
            invariant
                n == rows@.len(),
                s0 == *old(self),
                ({
                    let (s, acc) = ingest_prefix(s0, *options, rows@, i as nat);
                    &&& *self == s
                    &&& acc == Ok::<Seq<(Seq<u32>, u64)>, ExtractError>(
                        inserts@.map_values(|p: (Vec<u32>, u64)| (p.0@, p.1)),
                    )
                }),
        {
            let cells = &rows[i];
            let deleted = match &cells.deleted {
                Some(d) => Some(d),
                None => None,
            };
            let label = match &cells.label {
                Some(l) => Some(l),
                None => None,
            };
            let internal_id = match &cells.internal_id {
                Some(id) => Some(id),
                None => None,
            };
            let ghost before = *self;
            let out = self.ingest_row(options, &cells.vector, deleted, label, internal_id, i);
            assert(row_cells_step(before, *options, rows@[i as int], i) == row_step(
                before,
                *options,
                cells.vector,
                deleted,
                label,
                internal_id,
                i,
            ));
            match out {
                Ok(Some(entry)) => {
                    inserts.push(entry);
                    assert(inserts@.map_values(|p: (Vec<u32>, u64)| (p.0@, p.1)) =~= ingest_prefix(
                        s0,
                        *options,
                        rows@,
                        (i + 1) as nat,
                    ).1->Ok_0);
                },
                Ok(None) => {},
                Err(e) => {
                    proof {
                        assert(ingest_prefix(s0, *options, rows@, (i + 1) as nat) == (
                            *self,
                            Err::<Seq<(Seq<u32>, u64)>, ExtractError>(e),
                        ));
                        lemma_ingest_stops_at_error(s0, *options, rows@, (i + 1) as nat, n as nat);
                    }
                    return Err(e);
                },
            }
        }
        Ok(inserts)
    }
}

} // verus!
