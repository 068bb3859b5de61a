//! Walking the level-0 records of a persisted index and decoding each one.
//!
//! Every record of `data_level0.bin` is `size_data_per_element` bytes long. Within it,
//! the lowest bit of the byte two past `offset_level0` marks the element deleted, the
//! vector's `f32` lanes lie in `offset_data..label_offset`, and the label is a word at
//! `label_offset`.
use std::collections::HashMap;

use vstd::prelude::*;

use crate::error::{CorruptIndexError, ExtractError};
use crate::header::{
    le_u32_at, read_le_u32, read_le_u64, word_at, HeaderWordSize, PersistentHeader,
};
use crate::metadata::MetadataEntry;

verus! {

broadcast use vstd::std_specs::hash::group_hash_axioms;

/// The columnar file format that an export is written in.
#[derive(Debug, Clone, Copy, PartialEq, Eq, Structural)]
pub enum OutputFormat {
    ArrowIpc,
    Parquet,
}

impl Default for OutputFormat {
    fn default() -> (r: Self)
        ensures
            r == OutputFormat::Parquet,
    {
        OutputFormat::Parquet
    }
}

/// What an extraction emits and what it joins to each record.
#[derive(Debug, Clone)]
pub struct ExtractOptions {
    /// Emit the records marked deleted too.
    pub include_deleted: bool,
    /// Chroma metadata by label, joined to each emitted record.
    pub metadata: Option<HashMap<u64, MetadataEntry>>,
}

impl Default for ExtractOptions {
    fn default() -> (r: Self)
        ensures
            !r.include_deleted,
            r.metadata is None,
    {
        ExtractOptions { include_deleted: false, metadata: None }
    }
}

/// The header properties reported with an extraction.
#[derive(Debug, Clone, Copy, PartialEq, Eq)]
pub struct ExtractIndexProperties {
    pub m: u64,
    pub ef_construction: u64,
    pub cur_element_count: u64,
    pub max_elements: u64,
    pub persisted_version: i32,
    pub word_size_bytes: usize,
}

/// The counts of an extraction.
#[derive(Debug, Clone, Copy, PartialEq, Eq)]
pub struct ExtractSummary {
    pub scanned: u64,
    pub emitted: u64,
    pub deleted_skipped: u64,
    pub dimension: usize,
    pub index_properties: ExtractIndexProperties,
}

/// One decoded element of the index.
///
/// The vector's lanes are kept as the bit patterns of their `f32` values, exactly as
/// persisted (signed zeros and NaN payloads included).
#[derive(Debug, Clone)]
pub struct ExtractedRecord {
    pub internal_id: u64,
    pub label: u64,
    pub deleted: bool,
    pub vector_bits: Vec<u32>,
    pub user_id: Option<String>,
    pub seq_id: Option<u64>,
}

/// The mathematical value of an [`ExtractedRecord`].
pub struct ExtractedRecordView {
    pub internal_id: u64,
    pub label: u64,
    pub deleted: bool,
    pub vector_bits: Seq<u32>,
    pub user_id: Option<Seq<char>>,
    pub seq_id: Option<u64>,
}

impl View for ExtractedRecord {
    type V = ExtractedRecordView;

    open spec fn view(&self) -> ExtractedRecordView {
        ExtractedRecordView {
            internal_id: self.internal_id,
            label: self.label,
            deleted: self.deleted,
            vector_bits: self.vector_bits@,
            user_id: match self.user_id {
                Some(u) => Some(u@),
                None => None,
            },
            seq_id: self.seq_id,
        }
    }
}

/// The `n` unsigned 32-bit little-endian lanes that start at `b[start]`.
pub open spec fn lanes_at(b: Seq<u8>, start: int, n: nat) -> Seq<u32> {
    Seq::new(n, |k: int| le_u32_at(b, start + 4 * k))
}

/// The bytes of record `i` of `data`, each record being `size` bytes long.
pub open spec fn record_bytes(data: Seq<u8>, size: nat, i: int) -> Seq<u8> {
    data.subrange(i * size, i * size + size)
}

/// Whether the record `rec` is marked deleted: the lowest bit of its delete marker.
pub open spec fn is_deleted(h: PersistentHeader, rec: Seq<u8>) -> bool {
    rec[h.offset_level0 + 2] % 2 == 1
}

/// Whether a record is emitted: always when deleted records are included, otherwise
/// only when it is not marked deleted.
pub open spec fn is_emitted(h: PersistentHeader, rec: Seq<u8>, include_deleted: bool) -> bool {
    include_deleted || !is_deleted(h, rec)
}

/// The user id and sequence id that the metadata holds for `label`.
pub open spec fn metadata_of(metadata: Option<HashMap<u64, MetadataEntry>>, label: u64) -> (
    Option<Seq<char>>,
    Option<u64>,
) {
    match metadata {
        Some(m) => if m@.contains_key(label) {
            (Some(m@[label].user_id@), m@[label].seq_id)
        } else {
            (None, None)
        },
        None => (None, None),
    }
}

/// The record that `rec`, element `internal_id` of the index, decodes to.
pub open spec fn decoded_record(
    h: PersistentHeader,
    rec: Seq<u8>,
    internal_id: u64,
    metadata: Option<HashMap<u64, MetadataEntry>>,
) -> ExtractedRecordView {
    let label = word_at(rec, h.label_offset as int, h.word_size);
    ExtractedRecordView {
        internal_id,
        label,
        deleted: is_deleted(h, rec),
        vector_bits: lanes_at(rec, h.offset_data as int, ((h.label_offset - h.offset_data) / 4) as nat),
        user_id: metadata_of(metadata, label).0,
        seq_id: metadata_of(metadata, label).1,
    }
}

/// The records that the first `n` elements of `data` emit, in element order.
pub open spec fn emitted_records(
    h: PersistentHeader,
    data: Seq<u8>,
    include_deleted: bool,
    metadata: Option<HashMap<u64, MetadataEntry>>,
    n: nat,
) -> Seq<ExtractedRecordView>
    decreases n,
{
    if n == 0 {
        Seq::empty()
    } else {
        let before = emitted_records(h, data, include_deleted, metadata, (n - 1) as nat);
        let rec = record_bytes(data, h.size_data_per_element as nat, n - 1);
        if is_emitted(h, rec, include_deleted) {
            before.push(decoded_record(h, rec, (n - 1) as u64, metadata))
        } else {
            before
        }
    }
}

/// The summary of an extraction from `h` before any record is read.
pub open spec fn initial_summary(h: PersistentHeader) -> ExtractSummary {
    ExtractSummary {
        scanned: 0,
        emitted: 0,
        deleted_skipped: 0,
        dimension: ((h.label_offset - h.offset_data) / 4) as usize,
        index_properties: ExtractIndexProperties {
            m: h.m,
            ef_construction: h.ef_construction,
            cur_element_count: h.cur_element_count,
            max_elements: h.max_elements,
            persisted_version: h.persisted_version,
            word_size_bytes: h.word_size.width() as usize,
        },
    }
}

/// The summary of an extraction that read `scanned` elements and emitted `emitted`.
pub open spec fn summary_after(h: PersistentHeader, scanned: nat, emitted: nat) -> ExtractSummary {
    ExtractSummary {
        scanned: scanned as u64,
        emitted: emitted as u64,
        deleted_skipped: (scanned - emitted) as u64,
        ..initial_summary(h)
    }
}

/// Reads the label word at `label_offset` of a record.
pub fn parse_label(raw_record: &[u8], label_offset: usize, word_size: HeaderWordSize) -> (r: Result<
    u64,
    ExtractError,
>)
    ensures
        label_offset + word_size.width() <= raw_record@.len() ==> r == Ok::<u64, ExtractError>(
            word_at(raw_record@, label_offset as int, word_size),
        ),
        label_offset + word_size.width() > raw_record@.len() ==> r == Err::<u64, ExtractError>(
            ExtractError::CorruptIndex(CorruptIndexError::LabelOutOfRecord),
        ),
{
    let width = word_size.bytes();
    if label_offset > raw_record.len() || raw_record.len() - label_offset < width {
        return Err(ExtractError::CorruptIndex(CorruptIndexError::LabelOutOfRecord));
    }
    match word_size {
        HeaderWordSize::U32 => Ok(read_le_u32(raw_record, label_offset) as u64),
        HeaderWordSize::U64 => Ok(read_le_u64(raw_record, label_offset)),
    }
}

/// Reads the `f32` lanes of `raw_record[vector_start..vector_end]` as bit patterns.
pub fn parse_vector(raw_record: &[u8], vector_start: usize, vector_end: usize) -> (r: Result<
    Vec<u32>,
    ExtractError,
>)
    ensures
        !(vector_start <= vector_end <= raw_record@.len()) ==> r == Err::<Vec<u32>, ExtractError>(
            ExtractError::CorruptIndex(CorruptIndexError::VectorOutOfRecord),
        ),
        vector_start <= vector_end <= raw_record@.len() && (vector_end - vector_start) % 4 != 0
            ==> r == Err::<Vec<u32>, ExtractError>(
            ExtractError::CorruptIndex(
                CorruptIndexError::VectorBytesNotAligned { len: (vector_end - vector_start) as usize },
            ),
        ),
        vector_start <= vector_end <= raw_record@.len() && (vector_end - vector_start) % 4 == 0
            ==> (r matches Ok(v) && v@ == lanes_at(
            raw_record@,
            vector_start as int,
            ((vector_end - vector_start) / 4) as nat,
        )),
{
    if vector_start > vector_end || vector_end > raw_record.len() {
        return Err(ExtractError::CorruptIndex(CorruptIndexError::VectorOutOfRecord));
    }
    let byte_len = vector_end - vector_start;
    if byte_len % 4 != 0 {
        return Err(
            ExtractError::CorruptIndex(CorruptIndexError::VectorBytesNotAligned { len: byte_len }),
        );
    }
    let lanes = byte_len / 4;
    let mut vector: Vec<u32> = Vec::with_capacity(lanes);
    for k in 0..lanes
        invariant
            lanes == (vector_end - vector_start) / 4,
            vector_start <= vector_end <= raw_record@.len(),
            vector@ =~= lanes_at(raw_record@, vector_start as int, k as nat),
    {
        let lane = read_le_u32(raw_record, vector_start + 4 * k);
        vector.push(lane);
    }
    Ok(vector)
}

/// The number of the first `n` elements of `data` that are marked deleted.
pub open spec fn deleted_count(h: PersistentHeader, data: Seq<u8>, n: nat) -> nat
    decreases n,
{
    if n == 0 {
        0
    } else {
        deleted_count(h, data, (n - 1) as nat) + if is_deleted(
            h,
            record_bytes(data, h.size_data_per_element as nat, n - 1),
        ) {
            1nat
        } else {
            0nat
        }
    }
}

/// What an extraction emits from the first `n` elements: each emitted record is one
/// element, decoded, and the records come in increasing element order; every element that
/// is not skipped is emitted; each vector has the header's dimension; without deleted
/// records none is deleted and exactly the deleted elements are left out; with them every
/// element is emitted, record `k` being element `k`.
pub proof fn lemma_emitted_records(
    h: PersistentHeader,
    data: Seq<u8>,
    include_deleted: bool,
    metadata: Option<HashMap<u64, MetadataEntry>>,
    n: nat,
)
    requires
        h.valid(),
        n <= u64::MAX,
    ensures
        ({
            let recs = emitted_records(h, data, include_deleted, metadata, n);
            let size = h.size_data_per_element as nat;
            &&& recs.len() <= n
            &&& forall|k: int|
                0 <= k < recs.len() ==> {
                    &&& #[trigger] recs[k].internal_id < n
                    &&& recs[k] == decoded_record(
                        h,
                        record_bytes(data, size, recs[k].internal_id as int),
                        recs[k].internal_id,
                        metadata,
                    )
                    &&& is_emitted(h, record_bytes(data, size, recs[k].internal_id as int), include_deleted)
                    &&& recs[k].vector_bits.len() == (h.label_offset - h.offset_data) / 4
                }
            &&& forall|j: int, k: int|
                0 <= j < k < recs.len() ==> #[trigger] recs[j].internal_id < #[trigger] recs[k].internal_id
            &&& forall|i: int|
                0 <= i < n && is_emitted(h, record_bytes(data, size, i), include_deleted) ==> exists|k: int|
                    0 <= k < recs.len() && #[trigger] recs[k].internal_id == i
            &&& !include_deleted ==> recs.len() + deleted_count(h, data, n) == n
            &&& !include_deleted ==> forall|k: int| 0 <= k < recs.len() ==> !(#[trigger] recs[k].deleted)
            &&& include_deleted ==> recs.len() == n && forall|k: int|
                0 <= k < n ==> #[trigger] recs[k].internal_id == k
        }),
    decreases n,
{
    if n > 0 {
        lemma_emitted_records(h, data, include_deleted, metadata, (n - 1) as nat);
        let before = emitted_records(h, data, include_deleted, metadata, (n - 1) as nat);
        let recs = emitted_records(h, data, include_deleted, metadata, n);
        let size = h.size_data_per_element as nat;
        let rec = record_bytes(data, size, n - 1);
        if is_emitted(h, rec, include_deleted) {
            assert(recs == before.push(decoded_record(h, rec, (n - 1) as u64, metadata)));
            assert(recs[recs.len() - 1].internal_id == n - 1);
            assert forall|i: int|
                0 <= i < n && is_emitted(h, record_bytes(data, size, i), include_deleted) implies exists|k: int|
                0 <= k < recs.len() && #[trigger] recs[k].internal_id == i by {
                if i < n - 1 {
                    let k = choose|k: int| 0 <= k < before.len() && #[trigger] before[k].internal_id == i;
                    assert(recs[k] == before[k]);
                } else {
                    assert(recs[recs.len() - 1].internal_id == i);
                }
            }
        } else {
            assert forall|i: int|
                0 <= i < n && is_emitted(h, record_bytes(data, size, i), include_deleted) implies exists|k: int|
                0 <= k < recs.len() && #[trigger] recs[k].internal_id == i by {
                if i < n - 1 {
                } else {
                    assert(false);
                }
            }
        }
    }
}

/// A record is marked deleted exactly when the lowest bit of its byte at
/// `offset_level0 + 2` is set; no other byte of the record (the link count at
/// `offset_level0` among them) bears on it, so two records that agree on that byte are
/// both deleted or both live.
pub proof fn lemma_deleted_by_marker_bit(h: PersistentHeader, rec: Seq<u8>, other: Seq<u8>)
    requires
        h.offset_level0 + 2 < rec.len(),
        other.len() == rec.len(),
        other[h.offset_level0 + 2] == rec[h.offset_level0 + 2],
    ensures
        is_deleted(h, rec) == (rec[h.offset_level0 + 2] & 1u8 == 1u8),
        is_deleted(h, other) == is_deleted(h, rec),
{
    let marker = rec[h.offset_level0 + 2];
    assert((marker & 1u8 == 1u8) == (marker % 2 == 1)) by (bit_vector);
}

/// Which elements an extraction emits, and which of them it marks deleted, depends on the
/// delete marker byte of each record alone: two level-0 data that agree on that byte of
/// each of the first `n` records emit the same elements, in the same order, with the same
/// deleted flags, whatever the other bytes (link counts, links, vectors, labels) hold.
pub proof fn lemma_emitted_elements_follow_markers(
    h: PersistentHeader,
    data: Seq<u8>,
    other: Seq<u8>,
    include_deleted: bool,
    metadata: Option<HashMap<u64, MetadataEntry>>,
    n: nat,
)
    requires
        forall|i: int|
            0 <= i < n ==> #[trigger] record_bytes(other, h.size_data_per_element as nat, i)[h.offset_level0
                + 2] == record_bytes(data, h.size_data_per_element as nat, i)[h.offset_level0 + 2],
    ensures
        ({
            let recs = emitted_records(h, data, include_deleted, metadata, n);
            let others = emitted_records(h, other, include_deleted, metadata, n);
            &&& others.len() == recs.len()
            &&& forall|k: int|
                0 <= k < recs.len() ==> {
                    &&& #[trigger] others[k].internal_id == recs[k].internal_id
                    &&& others[k].deleted == recs[k].deleted
                }
        }),
    decreases n,
{
    if n > 0 {
        lemma_emitted_elements_follow_markers(h, data, other, include_deleted, metadata, (n - 1) as nat);
        let size = h.size_data_per_element as nat;
        let rec = record_bytes(data, size, n - 1);
        let orec = record_bytes(other, size, n - 1);
        assert(orec[h.offset_level0 + 2] == rec[h.offset_level0 + 2]);
        let before = emitted_records(h, data, include_deleted, metadata, (n - 1) as nat);
        let obefore = emitted_records(h, other, include_deleted, metadata, (n - 1) as nat);
        let recs = emitted_records(h, data, include_deleted, metadata, n);
        let others = emitted_records(h, other, include_deleted, metadata, n);
        if is_emitted(h, rec, include_deleted) {
            assert(recs == before.push(decoded_record(h, rec, (n - 1) as u64, metadata)));
            assert(others == obefore.push(decoded_record(h, orec, (n - 1) as u64, metadata)));
            assert forall|k: int| 0 <= k < recs.len() implies {
                &&& #[trigger] others[k].internal_id == recs[k].internal_id
                &&& others[k].deleted == recs[k].deleted
            } by {
                if k < before.len() {
                    assert(recs[k] == before[k]);
                    assert(others[k] == obefore[k]);
                }
            }
        } else {
            assert(!is_emitted(h, orec, include_deleted));
            assert(recs == before);
            assert(others == obefore);
            assert(others.len() == recs.len());
        }
        assert(others.len() == recs.len());
    }
}

/// Why no record of `h` can be decoded, whatever its bytes: its label word does not lie
/// inside the record, its vector does not end where the label starts inside it, or its
/// vector is not a whole number of `f32` lanes. A valid header has no such issue.
pub open spec fn record_issue(h: PersistentHeader) -> Option<CorruptIndexError> {
    if h.label_offset + h.word_size.width() > h.size_data_per_element {
        Some(CorruptIndexError::LabelOutOfRecord)
    } else if h.offset_data > h.label_offset {
        Some(CorruptIndexError::VectorOutOfRecord)
    } else if (h.label_offset - h.offset_data) % 4 != 0 {
        Some(
            CorruptIndexError::VectorBytesNotAligned {
                len: (h.label_offset - h.offset_data) as usize,
            },
        )
    } else {
        None
    }
}

/// A valid header has no record issue.
pub proof fn lemma_valid_header_has_no_record_issue(h: PersistentHeader)
    requires
        h.valid(),
    ensures
        record_issue(h) is None,
{
}

/// Emitting from more elements never emits fewer records.
pub proof fn lemma_emitted_records_grow(
    h: PersistentHeader,
    data: Seq<u8>,
    include_deleted: bool,
    metadata: Option<HashMap<u64, MetadataEntry>>,
    n: nat,
    m: nat,
)
    requires
        n <= m,
    ensures
        emitted_records(h, data, include_deleted, metadata, n).len() <= emitted_records(
            h,
            data,
            include_deleted,
            metadata,
            m,
        ).len(),
    decreases m,
{
    if n < m {
        lemma_emitted_records_grow(h, data, include_deleted, metadata, n, (m - 1) as nat);
    }
}

/// `x`, or `usize::MAX` where `x` does not fit: an offset that lies past every record.
fn clamp_to_usize(x: u64) -> (r: usize)
    ensures
        x <= usize::MAX ==> r == x,
        x > usize::MAX ==> r == usize::MAX,
{
    if x > usize::MAX as u64 {
        usize::MAX
    } else {
        x as usize
    }
}

/// A walk over the elements of an index, one record at a time.
///
/// The caller hands it each record's bytes in element order; it decides whether the
/// record is emitted, decodes it and keeps the counts.
pub struct Extraction {
    pub header: PersistentHeader,
    pub record_size: usize,
    pub next_id: u64,
    pub scanned: u64,
    pub emitted: u64,
    pub deleted_skipped: u64,
}

impl Extraction {
    /// The walk has read `next_id` elements of records `record_size` bytes long, and each
    /// read element was either emitted or skipped as deleted.
    pub open spec fn wf(self) -> bool {
        &&& self.record_size == self.header.size_data_per_element
        &&& self.next_id <= self.header.cur_element_count
        &&& self.scanned == self.next_id
        &&& self.emitted + self.deleted_skipped == self.scanned
    }

    /// Starts a walk over the elements of `header`; refused where a record cannot be held
    /// in memory.
    pub fn new(header: &PersistentHeader) -> (r: Result<Self, ExtractError>)
        ensures
            header.size_data_per_element > usize::MAX ==> r == Err::<Self, ExtractError>(
                ExtractError::CorruptIndex(
                    CorruptIndexError::RecordSizeTooLarge {
                        size_data_per_element: header.size_data_per_element,
                    },
                ),
            ),
            header.size_data_per_element <= usize::MAX ==> (r matches Ok(x) && x.wf() && x.header
                == *header && x.next_id == 0 && x.emitted == 0),
    {
        if header.size_data_per_element > usize::MAX as u64 {
            return Err(
                ExtractError::CorruptIndex(
                    CorruptIndexError::RecordSizeTooLarge {
                        size_data_per_element: header.size_data_per_element,
                    },
                ),
            );
        }
        let record_size = header.size_data_per_element as usize;
        Ok(
            Extraction {
                header: *header,
                record_size,
                next_id: 0,
                scanned: 0,
                emitted: 0,
                deleted_skipped: 0,
            },
        )
    }

    /// Checks that level-0 data of `data_len` bytes holds every stored element.
    pub fn check_data_len(&self, data_len: u64) -> (r: Result<(), ExtractError>)
        ensures
            self.header.cur_element_count * self.header.size_data_per_element > u64::MAX ==> r
                == Err::<(), ExtractError>(
                ExtractError::CorruptIndex(CorruptIndexError::ElementBytesOverflow),
            ),
            self.header.cur_element_count * self.header.size_data_per_element <= u64::MAX
                && data_len < self.header.cur_element_count * self.header.size_data_per_element
                ==> r == Err::<(), ExtractError>(
                ExtractError::CorruptIndex(
                    CorruptIndexError::DataTooSmall {
                        available: data_len,
                        needed: (self.header.cur_element_count
                            * self.header.size_data_per_element) as u64,
                    },
                ),
            ),
            data_len >= self.header.cur_element_count * self.header.size_data_per_element ==> r
                is Ok,
    {
        let needed = match self.header.cur_element_count.checked_mul(
            self.header.size_data_per_element,
        ) {
            Some(n) => n,
            None => {
                return Err(ExtractError::CorruptIndex(CorruptIndexError::ElementBytesOverflow));
            },
        };
        if data_len < needed {
            return Err(
                ExtractError::CorruptIndex(
                    CorruptIndexError::DataTooSmall { available: data_len, needed },
                ),
            );
        }
        Ok(())
    }

    /// Whether an element remains to be read.
    pub fn has_next(&self) -> (b: bool)
        ensures
            b == (self.next_id < self.header.cur_element_count),
    {
        self.next_id < self.header.cur_element_count
    }

    /// The counts so far, with the header's dimension and properties.
    pub fn summary(&self) -> (s: ExtractSummary)
        requires
            self.wf(),
            self.header.offset_data <= self.header.label_offset,
            self.header.label_offset - self.header.offset_data <= usize::MAX,
        ensures
            s == summary_after(self.header, self.scanned as nat, self.emitted as nat),
    {
        ExtractSummary {
            scanned: self.scanned,
            emitted: self.emitted,
            deleted_skipped: self.deleted_skipped,
            dimension: self.header.dimension(),
            index_properties: ExtractIndexProperties {
                m: self.header.m,
                ef_construction: self.header.ef_construction,
                cur_element_count: self.header.cur_element_count,
                max_elements: self.header.max_elements,
                persisted_version: self.header.persisted_version,
                word_size_bytes: self.header.word_size.bytes(),
            },
        }
    }

    /// Takes the bytes of the next element and counts it: returns its record where it is
    /// emitted, `None` where it is skipped as deleted, and the header's record issue where
    /// it is emitted but the header places its fields outside the record.
    pub fn step(&mut self, raw_record: &[u8], options: &ExtractOptions) -> (r: Result<
        Option<ExtractedRecord>,
        ExtractError,
    >)
        requires
            old(self).wf(),
            old(self).next_id < old(self).header.cur_element_count,
            raw_record@.len() == old(self).record_size,
            old(self).header.offset_level0 + 2 < old(self).header.size_data_per_element,
        ensures
            final(self).header == old(self).header,
            final(self).record_size == old(self).record_size,
            final(self).next_id == old(self).next_id + 1,
            final(self).scanned == old(self).scanned + 1,
            r matches Ok(None) <==> (!options.include_deleted && raw_record@[old(
                self,
            ).header.offset_level0 + 2] % 2 == 1),
            r matches Ok(Some(rec)) ==> rec.deleted == (raw_record@[old(self).header.offset_level0
                + 2] % 2 == 1),
            !is_emitted(old(self).header, raw_record@, options.include_deleted) ==> {
                &&& r matches Ok(None)
                &&& final(self).wf()
                &&& final(self).emitted == old(self).emitted
                &&& final(self).deleted_skipped == old(self).deleted_skipped + 1
            },
            is_emitted(old(self).header, raw_record@, options.include_deleted) ==> match record_issue(
                old(self).header,
            ) {
                Some(e) => {
                    &&& r == Err::<Option<ExtractedRecord>, ExtractError>(
                        ExtractError::CorruptIndex(e),
                    )
                    &&& final(self).emitted == old(self).emitted
                    &&& final(self).deleted_skipped == old(self).deleted_skipped
                },
                None => {
                    &&& r matches Ok(Some(rec))
                    &&& rec@ == decoded_record(
                        old(self).header,
                        raw_record@,
                        old(self).next_id,
                        options.metadata,
                    )
                    &&& final(self).wf()
                    &&& final(self).emitted == old(self).emitted + 1
                    &&& final(self).deleted_skipped == old(self).deleted_skipped
                },
            },
    {
        let internal_id = self.next_id;
        self.next_id = self.next_id + 1;
        self.scanned = self.scanned + 1;

        let delete_marker_offset = self.header.delete_marker_offset();
        let marker = raw_record[delete_marker_offset];
        let deleted = (marker & 0x01) != 0;
        assert(((marker & 0x01) != 0) == (marker % 2 == 1)) by (bit_vector);
        if deleted && !options.include_deleted {
            self.deleted_skipped = self.deleted_skipped + 1;
            return Ok(None);
        }

        let label = parse_label(
            raw_record,
            clamp_to_usize(self.header.label_offset),
            self.header.word_size,
        )?;
        let vector_bits = parse_vector(
            raw_record,
            clamp_to_usize(self.header.offset_data),
            clamp_to_usize(self.header.label_offset),
        )?;

        let (user_id, seq_id) = match &options.metadata {
            Some(m) => match m.get(&label) {
                Some(entry) => (Some(entry.user_id.clone()), entry.seq_id),
                None => (None, None),
            },
            None => (None, None),
        };
        let record = ExtractedRecord { internal_id, label, deleted, vector_bits, user_id, seq_id };
        self.emitted = self.emitted + 1;
        Ok(Some(record))
    }
}

/// Extracts every element of an index from its header and the bytes of its level-0 data,
/// in element order; the deleted ones only where `options.include_deleted` asks for them.
///
/// The data must hold every stored element; a header that places a record's fields
/// outside the record is refused with its record issue as soon as a record is emitted.
pub fn extract_index_with_header(
    header: &PersistentHeader,
    data_level0: &[u8],
    options: &ExtractOptions,
) -> (r: Result<(ExtractSummary, Vec<ExtractedRecord>), ExtractError>)
    requires
        header.size_data_per_element <= usize::MAX && data_level0@.len()
            >= header.cur_element_count * header.size_data_per_element ==> {
            &&& header.offset_data <= header.label_offset
            &&& header.label_offset - header.offset_data <= usize::MAX
            &&& header.cur_element_count > 0 ==> header.offset_level0 + 2
                < header.size_data_per_element
        },
    ensures
        header.size_data_per_element > usize::MAX ==> r == Err::<
            (ExtractSummary, Vec<ExtractedRecord>),
            ExtractError,
        >(
            ExtractError::CorruptIndex(
                CorruptIndexError::RecordSizeTooLarge {
                    size_data_per_element: header.size_data_per_element,
                },
            ),
        ),
        header.size_data_per_element <= usize::MAX && header.cur_element_count
            * header.size_data_per_element > u64::MAX ==> r == Err::<
            (ExtractSummary, Vec<ExtractedRecord>),
            ExtractError,
        >(ExtractError::CorruptIndex(CorruptIndexError::ElementBytesOverflow)),
        header.size_data_per_element <= usize::MAX && header.cur_element_count
            * header.size_data_per_element <= u64::MAX && data_level0@.len()
            < header.cur_element_count * header.size_data_per_element ==> r == Err::<
            (ExtractSummary, Vec<ExtractedRecord>),
            ExtractError,
        >(
            ExtractError::CorruptIndex(
                CorruptIndexError::DataTooSmall {
                    available: data_level0@.len() as u64,
                    needed: (header.cur_element_count * header.size_data_per_element) as u64,
                },
            ),
        ),
        header.size_data_per_element <= usize::MAX && data_level0@.len()
            >= header.cur_element_count * header.size_data_per_element ==> {
            let expected = emitted_records(
                *header,
                data_level0@,
                options.include_deleted,
                options.metadata,
                header.cur_element_count as nat,
            );
            &&& (record_issue(*header) matches Some(e) && expected.len() > 0) ==> r == Err::<
                (ExtractSummary, Vec<ExtractedRecord>),
                ExtractError,
            >(ExtractError::CorruptIndex(record_issue(*header)->0))
            &&& (record_issue(*header) is None || expected.len() == 0) ==> {
                &&& r matches Ok((summary, records))
                &&& records@.map_values(|rec: ExtractedRecord| rec@) =~= expected
                &&& summary == summary_after(
                    *header,
                    header.cur_element_count as nat,
                    expected.len(),
                )
            }
        },
{
    let mut walk = Extraction::new(header)?;
    let data_len = data_level0.len();
    walk.check_data_len(data_len as u64)?;

    let ghost h = *header;
    let ghost data = data_level0@;
    let ghost size = h.size_data_per_element as nat;
    let ghost total = h.cur_element_count as nat;
    let record_size = walk.record_size;
    let count = header.cur_element_count;
    let mut records: Vec<ExtractedRecord> = Vec::new();
    let mut offset: usize = 0;
    while walk.has_next()
        invariant
            walk.wf(),
            walk.header == h,
            h == *header,
            walk.record_size == record_size,
            record_size == size,
            count == h.cur_element_count,
            total == count,
            data == data_level0@,
            data.len() >= count * size,
            data.len() == data_len,
            h.size_data_per_element <= usize::MAX,
            count * size <= u64::MAX,
            h.offset_data <= h.label_offset,
            h.label_offset - h.offset_data <= usize::MAX,
            count > 0 ==> h.offset_level0 + 2 < h.size_data_per_element,
            offset == walk.next_id * size,
            records@.map_values(|rec: ExtractedRecord| rec@) =~= emitted_records(
                h,
                data,
                options.include_deleted,
                options.metadata,
                walk.next_id as nat,
            ),
            record_issue(h) is Some ==> records@.len() == 0,
            walk.emitted == records@.len(),
        decreases count - walk.next_id,
    {
        let ghost i = walk.next_id as int;
        proof {
            assert(offset + size <= count * size) by (nonlinear_arith)
                requires
                    offset == i * size,
                    i < count,
            ;
        }
        let raw_record = &data_level0[offset..offset + record_size];
        assert(raw_record@ =~= record_bytes(data, size, i));
        let step = walk.step(raw_record, options);
        match step {
            Ok(Some(rec)) => {
                records.push(rec);
            },
            Ok(None) => {},
            Err(e) => {
                proof {
                    assert(emitted_records(
                        h,
                        data,
                        options.include_deleted,
                        options.metadata,
                        (i + 1) as nat,
                    ).len() > 0);
                    lemma_emitted_records_grow(
                        h,
                        data,
                        options.include_deleted,
                        options.metadata,
                        (i + 1) as nat,
                        total,
                    );
                }
                return Err(e);
            },
        }
        assert(records@.map_values(|rec: ExtractedRecord| rec@) =~= emitted_records(
            h,
            data,
            options.include_deleted,
            options.metadata,
            (i + 1) as nat,
        ));
        offset = offset + record_size;
        assert(offset == (i + 1) * size) by (nonlinear_arith)
            requires
                offset == i * size + size,
        ;
    }
    Ok((walk.summary(), records))
}

/// The records of the output batch being filled, in the order in which they came.
///
/// Records go in one at a time; a batch comes out each time `batch_size` of them have
/// gathered, and what is left comes out at the end. The batches that came out, followed
/// by the pending records, are every record that went in, in order.
pub struct RecordBatcher {
    pub vector_dim: usize,
    pub batch_size: usize,
    pub pending: Vec<ExtractedRecord>,
    /// Every record that went in.
    pub accepted: Ghost<Seq<ExtractedRecord>>,
    /// The records of the batches that came out, batch after batch.
    pub written: Ghost<Seq<ExtractedRecord>>,
}

impl RecordBatcher {
    /// The pending batch is not full, and what came out followed by what is pending is
    /// what went in, every vector of the output's dimension.
    pub open spec fn wf(self) -> bool {
        &&& 1 <= self.batch_size
        &&& self.pending@.len() < self.batch_size
        &&& self.written@ + self.pending@ == self.accepted@
        &&& forall|k: int|
            0 <= k < self.accepted@.len() ==> (#[trigger] self.accepted@[k]).vector_bits@.len()
                == self.vector_dim
    }

    /// An empty batcher for vectors of `vector_dim` lanes, writing batches of
    /// `batch_size` records (at least one).
    pub fn new(vector_dim: usize, batch_size: usize) -> (b: Self)
        ensures
            b.wf(),
            b.vector_dim == vector_dim,
            b.batch_size == if batch_size == 0 {
                1
            } else {
                batch_size
            },
            b.pending@.len() == 0,
            b.accepted@.len() == 0,
            b.written@.len() == 0,
    {
        let batch_size = if batch_size == 0 {
            1
        } else {
            batch_size
        };
        RecordBatcher {
            vector_dim,
            batch_size,
            pending: Vec::new(),
            accepted: Ghost(Seq::empty()),
            written: Ghost(Seq::empty()),
        }
    }

    /// Takes the next record. A record whose vector has another dimension is refused;
    /// otherwise it joins the pending batch, and the batch comes out once it is full.
    pub fn push(&mut self, record: ExtractedRecord) -> (r: Result<
        Option<Vec<ExtractedRecord>>,
        ExtractError,
    >)
        requires
            old(self).wf(),
        ensures
            final(self).wf(),
            final(self).vector_dim == old(self).vector_dim,
            final(self).batch_size == old(self).batch_size,
            record.vector_bits@.len() != old(self).vector_dim ==> {
                &&& r == Err::<Option<Vec<ExtractedRecord>>, ExtractError>(
                    ExtractError::CorruptIndex(
                        CorruptIndexError::VectorDimensionMismatch {
                            found: record.vector_bits@.len() as usize,
                            expected: old(self).vector_dim,
                        },
                    ),
                )
                &&& final(self).pending@ == old(self).pending@
                &&& final(self).accepted@ == old(self).accepted@
                &&& final(self).written@ == old(self).written@
            },
            record.vector_bits@.len() == old(self).vector_dim ==> {
                &&& final(self).accepted@ == old(self).accepted@.push(record)
                &&& if old(self).pending@.len() + 1 == old(self).batch_size {
                    &&& r matches Ok(Some(batch))
                    &&& batch@ == old(self).pending@.push(record)
                    &&& final(self).pending@.len() == 0
                    &&& final(self).written@ == old(self).written@ + batch@
                } else {
                    &&& r matches Ok(None)
                    &&& final(self).pending@ == old(self).pending@.push(record)
                    &&& final(self).written@ == old(self).written@
                }
            },
    {
        let found = record.vector_bits.len();
        if found != self.vector_dim {
            return Err(
                ExtractError::CorruptIndex(
                    CorruptIndexError::VectorDimensionMismatch {
                        found,
                        expected: self.vector_dim,
                    },
                ),
            );
        }
        let ghost before = self.pending@;
        let ghost accepted = self.accepted@.push(record);
        self.accepted = Ghost(accepted);
        self.pending.push(record);
        if self.pending.len() >= self.batch_size {
            let mut batch: Vec<ExtractedRecord> = Vec::new();
            std::mem::swap(&mut batch, &mut self.pending);
            let ghost written = self.written@ + batch@;
            self.written = Ghost(written);
            assert(self.written@ + self.pending@ =~= self.accepted@);
            return Ok(Some(batch));
        }
        assert(self.written@ + self.pending@ =~= self.accepted@);
        Ok(None)
    }

    /// Hands out the records still pending, if any, as the last batch.
    pub fn finish(self) -> (r: Option<Vec<ExtractedRecord>>)
        requires
            self.wf(),
        ensures
            self.pending@.len() == 0 ==> r is None,
            self.pending@.len() > 0 ==> {
                &&& r matches Some(batch)
                &&& batch@ == self.pending@
                &&& batch@.len() < self.batch_size
                &&& self.written@ + batch@ == self.accepted@
            },
    {
        if self.pending.len() == 0 {
            None
        } else {
            Some(self.pending)
        }
    }
}

} // verus!
