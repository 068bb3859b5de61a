//! The persisted `header.bin` of an HNSW index.
//!
//! The header is a packed little-endian record whose `size_t` fields are either
//! 8 bytes wide (a 100-byte header) or 4 bytes wide (a 60-byte header).
use vstd::prelude::*;

use crate::error::{CorruptIndexError, ExtractError, HeaderError};

verus! {

/// The only persistence version this library reads.
pub const HNSW_PERSISTENCE_VERSION: i32 = 1;

/// The width of the `size_t` words of the header and of the record labels.
#[derive(Debug, Clone, Copy, PartialEq, Eq, Structural)]
pub enum HeaderWordSize {
    U32,
    U64,
}

impl HeaderWordSize {
    /// The width in bytes.
    pub open spec fn width(self) -> nat {
        match self {
            HeaderWordSize::U32 => 4,
            HeaderWordSize::U64 => 8,
        }
    }

    /// The width in bytes: 4 or 8.
    pub fn bytes(self) -> (n: usize)
        ensures
            n == self.width(),
    {
        match self {
            HeaderWordSize::U32 => 4,
            HeaderWordSize::U64 => 8,
        }
    }
}

/// The unsigned 32-bit little-endian number in `b[off..off + 4]`.
pub open spec fn le_u32_at(b: Seq<u8>, off: int) -> u32 {
    (b[off] + 256 * b[off + 1] + 65536 * b[off + 2] + 16777216 * b[off + 3]) as u32
}

/// The unsigned 64-bit little-endian number in `b[off..off + 8]`.
pub open spec fn le_u64_at(b: Seq<u8>, off: int) -> u64 {
    (le_u32_at(b, off) + 4294967296 * le_u32_at(b, off + 4)) as u64
}

/// The two's-complement 32-bit little-endian number in `b[off..off + 4]`.
pub open spec fn le_i32_at(b: Seq<u8>, off: int) -> i32 {
    let u = le_u32_at(b, off);
    if u <= 0x7fff_ffff {
        u as i32
    } else {
        (u - 0x1_0000_0000) as i32
    }
}

/// The unsigned word of width `ws` at `b[off..]`.
pub open spec fn word_at(b: Seq<u8>, off: int, ws: HeaderWordSize) -> u64 {
    match ws {
        HeaderWordSize::U32 => le_u32_at(b, off) as u64,
        HeaderWordSize::U64 => le_u64_at(b, off),
    }
}

/// Reads the unsigned 32-bit little-endian number at `bytes[off..off + 4]`.
pub fn read_le_u32(bytes: &[u8], off: usize) -> (v: u32)
    requires
        off + 4 <= bytes@.len(),
    ensures
        v == le_u32_at(bytes@, off as int),
{
    bytes[off] as u32 + (bytes[off + 1] as u32) * 256 + (bytes[off + 2] as u32) * 65536
        + (bytes[off + 3] as u32) * 16777216
}

/// Reads the unsigned 64-bit little-endian number at `bytes[off..off + 8]`.
pub fn read_le_u64(bytes: &[u8], off: usize) -> (v: u64)
    requires
        off + 8 <= bytes@.len(),
    ensures
        v == le_u64_at(bytes@, off as int),
{
    // The slice's length bounds `off + 4` below `usize::MAX`.
    let _len = bytes.len();
    let lo = read_le_u32(bytes, off);
    let hi = read_le_u32(bytes, off + 4);
    lo as u64 + (hi as u64) * 4294967296
}

/// The number of bytes of a header whose words are `ws` wide.
pub open spec fn header_len(ws: HeaderWordSize) -> nat {
    20 + 10 * ws.width()
}

/// The fields read from `b` when its words are `ws` wide, in their persisted order:
/// version, six words, max level, entry point, three words, `mult`, one word.
pub open spec fn decode_header(b: Seq<u8>, ws: HeaderWordSize) -> PersistentHeader {
    let w = ws.width() as int;
    PersistentHeader {
        persisted_version: le_i32_at(b, 0),
        offset_level0: word_at(b, 4, ws),
        max_elements: word_at(b, 4 + w, ws),
        cur_element_count: word_at(b, 4 + 2 * w, ws),
        size_data_per_element: word_at(b, 4 + 3 * w, ws),
        label_offset: word_at(b, 4 + 4 * w, ws),
        offset_data: word_at(b, 4 + 5 * w, ws),
        max_level: le_i32_at(b, 4 + 6 * w),
        enterpoint_node: le_u32_at(b, 8 + 6 * w),
        max_m: word_at(b, 12 + 6 * w, ws),
        max_m0: word_at(b, 12 + 7 * w, ws),
        m: word_at(b, 12 + 8 * w, ws),
        mult_bits: le_u64_at(b, 12 + 9 * w),
        ef_construction: word_at(b, 20 + 9 * w, ws),
        word_size: ws,
    }
}

/// The first rule that `h` breaks, in the order in which they are checked.
pub open spec fn header_issue(h: PersistentHeader) -> Option<HeaderError> {
    if h.persisted_version != HNSW_PERSISTENCE_VERSION {
        Some(HeaderError::UnsupportedVersion { found: h.persisted_version })
    } else if h.cur_element_count > h.max_elements {
        Some(
            HeaderError::ElementCountExceedsCapacity {
                cur_element_count: h.cur_element_count,
                max_elements: h.max_elements,
            },
        )
    } else if h.offset_data >= h.label_offset {
        Some(
            HeaderError::DataOffsetNotBeforeLabel {
                offset_data: h.offset_data,
                label_offset: h.label_offset,
            },
        )
    } else if h.label_offset + h.word_size.width() > h.size_data_per_element {
        Some(
            HeaderError::LabelExceedsRecord {
                label_offset: h.label_offset,
                label_width: h.word_size.width() as usize,
                size_data_per_element: h.size_data_per_element,
            },
        )
    } else if h.label_offset - h.offset_data == 0 || (h.label_offset - h.offset_data) % 4 != 0 {
        Some(
            HeaderError::InvalidVectorPayload {
                vector_bytes: (h.label_offset - h.offset_data) as u64,
            },
        )
    } else if h.offset_level0 + 2 >= h.size_data_per_element {
        Some(
            HeaderError::DeleteMarkerOutOfBounds {
                offset_level0: h.offset_level0,
                size_data_per_element: h.size_data_per_element,
            },
        )
    } else {
        None
    }
}

/// What parsing `b` as a header of words `ws` wide gives, when `b` has that length.
pub open spec fn parse_header_with(b: Seq<u8>, ws: HeaderWordSize) -> Result<PersistentHeader, ExtractError> {
    let h = decode_header(b, ws);
    match header_issue(h) {
        Some(e) => Err(ExtractError::InvalidHeader(e)),
        None => Ok(h),
    }
}

/// The error of a read of `need` bytes at `offset` past the end of the header.
pub open spec fn ended_early_at(offset: int, need: int) -> HeaderError {
    HeaderError::EndedEarly { offset: offset as usize, need: need as usize }
}

/// The error that reading fields of width `ws` front to back meets first in a header of
/// `len` bytes that is shorter than [`header_len`]: the first field that does not fit.
pub open spec fn short_header_error(len: int, ws: HeaderWordSize) -> HeaderError {
    let w = ws.width() as int;
    if len < 4 {
        ended_early_at(0, 4)
    } else if len < 4 + w {
        ended_early_at(4, w)
    } else if len < 4 + 2 * w {
        ended_early_at(4 + w, w)
    } else if len < 4 + 3 * w {
        ended_early_at(4 + 2 * w, w)
    } else if len < 4 + 4 * w {
        ended_early_at(4 + 3 * w, w)
    } else if len < 4 + 5 * w {
        ended_early_at(4 + 4 * w, w)
    } else if len < 4 + 6 * w {
        ended_early_at(4 + 5 * w, w)
    } else if len < 8 + 6 * w {
        ended_early_at(4 + 6 * w, 4)
    } else if len < 12 + 6 * w {
        ended_early_at(8 + 6 * w, 4)
    } else if len < 12 + 7 * w {
        ended_early_at(12 + 6 * w, w)
    } else if len < 12 + 8 * w {
        ended_early_at(12 + 7 * w, w)
    } else if len < 12 + 9 * w {
        ended_early_at(12 + 8 * w, w)
    } else if len < 20 + 9 * w {
        ended_early_at(12 + 9 * w, 8)
    } else {
        ended_early_at(20 + 9 * w, w)
    }
}

/// What reading `b` field by field as a header of words `ws` wide gives, whatever its length:
/// the first field that does not fit, or the bytes left over, or the parsed header.
pub open spec fn read_header_fields(b: Seq<u8>, ws: HeaderWordSize) -> Result<PersistentHeader, ExtractError> {
    if b.len() < header_len(ws) {
        Err(ExtractError::InvalidHeader(short_header_error(b.len() as int, ws)))
    } else if b.len() > header_len(ws) {
        Err(
            ExtractError::InvalidHeader(
                HeaderError::TrailingBytes { count: (b.len() - header_len(ws)) as usize },
            ),
        )
    } else {
        parse_header_with(b, ws)
    }
}

/// What parsing the bytes `b` of a `header.bin` gives.
pub open spec fn parse_header(b: Seq<u8>) -> Result<PersistentHeader, ExtractError> {
    if b.len() == 100 {
        parse_header_with(b, HeaderWordSize::U64)
    } else if b.len() == 60 {
        parse_header_with(b, HeaderWordSize::U32)
    } else {
        Err(ExtractError::InvalidHeader(HeaderError::UnexpectedLength { len: b.len() as usize }))
    }
}

/// A header that parses is valid, and its length gives its word size: 100 bytes for
/// 64-bit words, 60 bytes for 32-bit words; every other length is refused.
pub proof fn lemma_parsed_header_valid(b: Seq<u8>)
    ensures
        parse_header(b) matches Ok(h) ==> {
            &&& h.valid()
            &&& b.len() == header_len(h.word_size)
            &&& (b.len() == 100 <==> h.word_size == HeaderWordSize::U64)
        },
        b.len() != 60 && b.len() != 100 ==> parse_header(b) == Err::<PersistentHeader, ExtractError>(
            ExtractError::InvalidHeader(HeaderError::UnexpectedLength { len: b.len() as usize }),
        ),
{
}

/// A header is valid exactly when it has the supported version, stores no more elements
/// than it has room for, and every field of a record lies inside the record: the delete
/// marker, the label word, and a non-empty whole number of `f32` lanes before the label.
pub proof fn lemma_valid_header_layout(h: PersistentHeader)
    ensures
        h.valid() <==> {
            &&& h.persisted_version == HNSW_PERSISTENCE_VERSION
            &&& h.cur_element_count <= h.max_elements
            &&& h.offset_data < h.label_offset
            &&& h.label_offset + h.word_size.width() <= h.size_data_per_element
            &&& (h.label_offset - h.offset_data) % 4 == 0
            &&& h.offset_level0 + 2 < h.size_data_per_element
        },
{
}

/// The four little-endian bytes of `x`.
pub open spec fn u32_le_bytes(x: u32) -> Seq<u8> {
    seq![
        (x % 256) as u8,
        ((x / 256) % 256) as u8,
        ((x / 65536) % 256) as u8,
        ((x / 16777216) % 256) as u8,
    ]
}

/// The eight little-endian bytes of `x`.
pub open spec fn u64_le_bytes(x: u64) -> Seq<u8> {
    u32_le_bytes((x % 4294967296) as u32) + u32_le_bytes((x / 4294967296) as u32)
}

/// The four little-endian two's-complement bytes of `x`.
pub open spec fn i32_le_bytes(x: i32) -> Seq<u8> {
    if x >= 0 {
        u32_le_bytes(x as u32)
    } else {
        u32_le_bytes((x + 0x1_0000_0000) as u32)
    }
}

/// The bytes of the word `x` when words are `ws` wide.
pub open spec fn word_le_bytes(x: u64, ws: HeaderWordSize) -> Seq<u8> {
    match ws {
        HeaderWordSize::U32 => u32_le_bytes(x as u32),
        HeaderWordSize::U64 => u64_le_bytes(x),
    }
}

/// Byte `i` of the `header.bin` that persists `h`: the fields in their persisted order,
/// each little-endian.
pub open spec fn header_byte(h: PersistentHeader, i: int) -> u8 {
    let ws = h.word_size;
    let w = ws.width() as int;
    if i < 4 {
        i32_le_bytes(h.persisted_version)[i]
    } else if i < 4 + w {
        word_le_bytes(h.offset_level0, ws)[i - 4]
    } else if i < 4 + 2 * w {
        word_le_bytes(h.max_elements, ws)[i - (4 + w)]
    } else if i < 4 + 3 * w {
        word_le_bytes(h.cur_element_count, ws)[i - (4 + 2 * w)]
    } else if i < 4 + 4 * w {
        word_le_bytes(h.size_data_per_element, ws)[i - (4 + 3 * w)]
    } else if i < 4 + 5 * w {
        word_le_bytes(h.label_offset, ws)[i - (4 + 4 * w)]
    } else if i < 4 + 6 * w {
        word_le_bytes(h.offset_data, ws)[i - (4 + 5 * w)]
    } else if i < 8 + 6 * w {
        i32_le_bytes(h.max_level)[i - (4 + 6 * w)]
    } else if i < 12 + 6 * w {
        u32_le_bytes(h.enterpoint_node)[i - (8 + 6 * w)]
    } else if i < 12 + 7 * w {
        word_le_bytes(h.max_m, ws)[i - (12 + 6 * w)]
    } else if i < 12 + 8 * w {
        word_le_bytes(h.max_m0, ws)[i - (12 + 7 * w)]
    } else if i < 12 + 9 * w {
        word_le_bytes(h.m, ws)[i - (12 + 8 * w)]
    } else if i < 20 + 9 * w {
        u64_le_bytes(h.mult_bits)[i - (12 + 9 * w)]
    } else {
        word_le_bytes(h.ef_construction, ws)[i - (20 + 9 * w)]
    }
}

/// The bytes of `header.bin` that persist `h`.
pub open spec fn encode_header(h: PersistentHeader) -> Seq<u8> {
    Seq::new(header_len(h.word_size), |i: int| header_byte(h, i))
}

/// Whether every word field of `h` fits in its persisted width.
pub open spec fn words_fit(h: PersistentHeader) -> bool {
    h.word_size == HeaderWordSize::U32 ==> {
        &&& h.offset_level0 <= u32::MAX
        &&& h.max_elements <= u32::MAX
        &&& h.cur_element_count <= u32::MAX
        &&& h.size_data_per_element <= u32::MAX
        &&& h.label_offset <= u32::MAX
        &&& h.offset_data <= u32::MAX
        &&& h.max_m <= u32::MAX
        &&& h.max_m0 <= u32::MAX
        &&& h.m <= u32::MAX
        &&& h.ef_construction <= u32::MAX
    }
}

proof fn lemma_u32_digits(x: u32)
    by (bit_vector)
    ensures
        x == (x % 256) + 256 * ((x / 256) % 256) + 65536 * ((x / 65536) % 256) + 16777216 * ((x
            / 16777216) % 256),
{
}

proof fn lemma_u64_halves(x: u64)
    by (bit_vector)
    ensures
        x == (x % 4294967296) + 4294967296 * (x / 4294967296),
        x / 4294967296 <= 0xffff_ffff,
{
}

/// Reading four bytes of `b` at `off` reads `piece` where `b` holds `piece` there.
proof fn lemma_u32_at(b: Seq<u8>, off: int, x: u32)
    requires
        0 <= off,
        off + 4 <= b.len(),
        b.subrange(off, off + 4) == u32_le_bytes(x),
    ensures
        le_u32_at(b, off) == x,
{
    let p = u32_le_bytes(x);
    assert(b[off] == p[0] && b[off + 1] == p[1] && b[off + 2] == p[2] && b[off + 3] == p[3]) by {
        assert(b.subrange(off, off + 4)[0] == b[off]);
        assert(b.subrange(off, off + 4)[1] == b[off + 1]);
        assert(b.subrange(off, off + 4)[2] == b[off + 2]);
        assert(b.subrange(off, off + 4)[3] == b[off + 3]);
    }
    lemma_u32_digits(x);
}

proof fn lemma_u64_at(b: Seq<u8>, off: int, x: u64)
    requires
        0 <= off,
        off + 8 <= b.len(),
        b.subrange(off, off + 8) == u64_le_bytes(x),
    ensures
        le_u64_at(b, off) == x,
{
    lemma_u64_halves(x);
    let lo = (x % 4294967296) as u32;
    let hi = (x / 4294967296) as u32;
    assert(b.subrange(off, off + 4) =~= b.subrange(off, off + 8).subrange(0, 4));
    assert(b.subrange(off + 4, off + 8) =~= b.subrange(off, off + 8).subrange(4, 8));
    assert(u64_le_bytes(x).subrange(0, 4) =~= u32_le_bytes(lo));
    assert(u64_le_bytes(x).subrange(4, 8) =~= u32_le_bytes(hi));
    lemma_u32_at(b, off, lo);
    lemma_u32_at(b, off + 4, hi);
}

proof fn lemma_i32_at(b: Seq<u8>, off: int, x: i32)
    requires
        0 <= off,
        off + 4 <= b.len(),
        b.subrange(off, off + 4) == i32_le_bytes(x),
    ensures
        le_i32_at(b, off) == x,
{
    if x >= 0 {
        lemma_u32_at(b, off, x as u32);
    } else {
        lemma_u32_at(b, off, (x + 0x1_0000_0000) as u32);
    }
}

proof fn lemma_word_at(b: Seq<u8>, off: int, x: u64, ws: HeaderWordSize)
    requires
        0 <= off,
        off + ws.width() <= b.len(),
        b.subrange(off, off + ws.width()) == word_le_bytes(x, ws),
        ws == HeaderWordSize::U32 ==> x <= u32::MAX,
    ensures
        word_at(b, off, ws) == x,
{
    match ws {
        HeaderWordSize::U32 => lemma_u32_at(b, off, x as u32),
        HeaderWordSize::U64 => lemma_u64_at(b, off, x),
    }
}

proof fn lemma_encoded_leading_fields(h: PersistentHeader)
    ensures
        ({
            let ws = h.word_size;
            let w = ws.width() as int;
            let b = encode_header(h);
            &&& b.subrange(0, 4) == i32_le_bytes(h.persisted_version)
            &&& b.subrange(4, 4 + w) == word_le_bytes(h.offset_level0, ws)
            &&& b.subrange(4 + w, 4 + 2 * w) == word_le_bytes(h.max_elements, ws)
            &&& b.subrange(4 + 2 * w, 4 + 3 * w) == word_le_bytes(h.cur_element_count, ws)
            &&& b.subrange(4 + 3 * w, 4 + 4 * w) == word_le_bytes(h.size_data_per_element, ws)
        }),
{
    let ws = h.word_size;
    let w = ws.width() as int;
    let b = encode_header(h);
    assert(b.subrange(0, 4) =~= i32_le_bytes(h.persisted_version));
    assert(b.subrange(4, 4 + w) =~= word_le_bytes(h.offset_level0, ws));
    assert(b.subrange(4 + w, 4 + 2 * w) =~= word_le_bytes(h.max_elements, ws));
    assert(b.subrange(4 + 2 * w, 4 + 3 * w) =~= word_le_bytes(h.cur_element_count, ws));
    assert(b.subrange(4 + 3 * w, 4 + 4 * w) =~= word_le_bytes(h.size_data_per_element, ws));
}

proof fn lemma_encoded_middle_fields(h: PersistentHeader)
    ensures
        ({
            let ws = h.word_size;
            let w = ws.width() as int;
            let b = encode_header(h);
            &&& b.subrange(4 + 4 * w, 4 + 5 * w) == word_le_bytes(h.label_offset, ws)
            &&& b.subrange(4 + 5 * w, 4 + 6 * w) == word_le_bytes(h.offset_data, ws)
            &&& b.subrange(4 + 6 * w, 8 + 6 * w) == i32_le_bytes(h.max_level)
            &&& b.subrange(8 + 6 * w, 12 + 6 * w) == u32_le_bytes(h.enterpoint_node)
            &&& b.subrange(12 + 6 * w, 12 + 7 * w) == word_le_bytes(h.max_m, ws)
        }),
{
    let ws = h.word_size;
    let w = ws.width() as int;
    let b = encode_header(h);
    assert(b.subrange(4 + 4 * w, 4 + 5 * w) =~= word_le_bytes(h.label_offset, ws));
    assert(b.subrange(4 + 5 * w, 4 + 6 * w) =~= word_le_bytes(h.offset_data, ws));
    assert(b.subrange(4 + 6 * w, 8 + 6 * w) =~= i32_le_bytes(h.max_level));
    assert(b.subrange(8 + 6 * w, 12 + 6 * w) =~= u32_le_bytes(h.enterpoint_node));
    assert(b.subrange(12 + 6 * w, 12 + 7 * w) =~= word_le_bytes(h.max_m, ws));
}

proof fn lemma_encoded_trailing_fields(h: PersistentHeader)
    ensures
        ({
            let ws = h.word_size;
            let w = ws.width() as int;
            let b = encode_header(h);
            &&& b.subrange(12 + 7 * w, 12 + 8 * w) == word_le_bytes(h.max_m0, ws)
            &&& b.subrange(12 + 8 * w, 12 + 9 * w) == word_le_bytes(h.m, ws)
            &&& b.subrange(12 + 9 * w, 20 + 9 * w) == u64_le_bytes(h.mult_bits)
            &&& b.subrange(20 + 9 * w, 20 + 10 * w) == word_le_bytes(h.ef_construction, ws)
        }),
{
    let ws = h.word_size;
    let w = ws.width() as int;
    let b = encode_header(h);
    assert(b.subrange(12 + 7 * w, 12 + 8 * w) =~= word_le_bytes(h.max_m0, ws));
    assert(b.subrange(12 + 8 * w, 12 + 9 * w) =~= word_le_bytes(h.m, ws));
    assert(b.subrange(12 + 9 * w, 20 + 9 * w) =~= u64_le_bytes(h.mult_bits));
    assert(b.subrange(20 + 9 * w, 20 + 10 * w) =~= word_le_bytes(h.ef_construction, ws));
}

/// Persisting a valid header and parsing the bytes back gives the same header.
pub proof fn lemma_header_roundtrip(h: PersistentHeader)
    requires
        h.valid(),
        words_fit(h),
    ensures
        parse_header(encode_header(h)) == Ok::<PersistentHeader, ExtractError>(h),
{
    let ws = h.word_size;
    let w = ws.width() as int;
    let b = encode_header(h);
    lemma_encoded_leading_fields(h);
    lemma_encoded_middle_fields(h);
    lemma_encoded_trailing_fields(h);
    lemma_i32_at(b, 0, h.persisted_version);
    lemma_word_at(b, 4, h.offset_level0, ws);
    lemma_word_at(b, 4 + w, h.max_elements, ws);
    lemma_word_at(b, 4 + 2 * w, h.cur_element_count, ws);
    lemma_word_at(b, 4 + 3 * w, h.size_data_per_element, ws);
    lemma_word_at(b, 4 + 4 * w, h.label_offset, ws);
    lemma_word_at(b, 4 + 5 * w, h.offset_data, ws);
    lemma_i32_at(b, 4 + 6 * w, h.max_level);
    lemma_u32_at(b, 8 + 6 * w, h.enterpoint_node);
    lemma_word_at(b, 12 + 6 * w, h.max_m, ws);
    lemma_word_at(b, 12 + 7 * w, h.max_m0, ws);
    lemma_word_at(b, 12 + 8 * w, h.m, ws);
    lemma_u64_at(b, 12 + 9 * w, h.mult_bits);
    lemma_word_at(b, 20 + 9 * w, h.ef_construction, ws);
    assert(decode_header(b, ws) == h);
}

/// The header of a persisted HNSW index.
///
/// `mult` is a `f64` in the file; it is kept here as its IEEE-754 bit pattern.
#[derive(Debug, Clone, Copy)]
pub struct PersistentHeader {
    pub persisted_version: i32,
    pub offset_level0: u64,
    pub max_elements: u64,
    pub cur_element_count: u64,
    pub size_data_per_element: u64,
    pub label_offset: u64,
    pub offset_data: u64,
    pub max_level: i32,
    pub enterpoint_node: u32,
    pub max_m: u64,
    pub max_m0: u64,
    pub m: u64,
    pub mult_bits: u64,
    pub ef_construction: u64,
    pub word_size: HeaderWordSize,
}

/// `u16::from_ne_bytes`. On a little-endian machine it reads the bytes low byte first,
/// on a big-endian one high byte first; which of the two comes back is the machine's.
#[verifier::external_body]
fn u16_from_native_bytes(bytes: [u8; 2]) -> (v: u16)
    ensures
        v == bytes[0] + 256 * bytes[1] || v == bytes[1] + 256 * bytes[0],
{
    u16::from_ne_bytes(bytes)
}

/// Whether this machine stores integers low byte first.
fn host_is_little_endian() -> bool {
    u16_from_native_bytes([1u8, 0u8]) == 1
}

impl PersistentHeader {
    /// Whether the header passes every consistency rule.
    pub open spec fn valid(self) -> bool {
        header_issue(self) is None
    }

    /// Reads a header from the bytes of `header.bin`.
    ///
    /// The persisted format is native-endian and written by little-endian hosts, so a
    /// big-endian host refuses it; on a little-endian host the result is [`Self::parse`]'s.
    /// The byte order is probed once, before any byte of the header is looked at; the
    /// contract does not name it, so it says only that the result is one of the two.
    pub fn from_bytes(bytes: &[u8]) -> (r: Result<Self, ExtractError>)
        ensures
            r == parse_header(bytes@) || r == Err::<Self, ExtractError>(
                ExtractError::UnsupportedEndianness,
            ),
    {
        if !host_is_little_endian() {
            return Err(ExtractError::UnsupportedEndianness);
        }
        Self::parse(bytes)
    }

    /// Parses the little-endian bytes of `header.bin`: 100 bytes for 64-bit words,
    /// 60 bytes for 32-bit words, then checks the header's consistency rules.
    pub fn parse(bytes: &[u8]) -> (r: Result<Self, ExtractError>)
        ensures
            r == parse_header(bytes@),
    {
        let len = bytes.len();
        if len == 100 {
            Self::parse_with_word_size(bytes, HeaderWordSize::U64)
        } else if len == 60 {
            Self::parse_with_word_size(bytes, HeaderWordSize::U32)
        } else {
            Err(ExtractError::InvalidHeader(HeaderError::UnexpectedLength { len }))
        }
    }

    /// The number of bytes of each stored vector.
    pub fn vector_byte_len(&self) -> (n: usize)
        requires
            self.offset_data <= self.label_offset,
            self.label_offset - self.offset_data <= usize::MAX,
        ensures
            n == self.label_offset - self.offset_data,
    {
        (self.label_offset - self.offset_data) as usize
    }

    /// The number of `f32` lanes of each stored vector.
    pub fn dimension(&self) -> (n: usize)
        requires
            self.offset_data <= self.label_offset,
            self.label_offset - self.offset_data <= usize::MAX,
        ensures
            n == (self.label_offset - self.offset_data) / 4,
    {
        self.vector_byte_len() / 4
    }

    /// The width in bytes of each record's label.
    pub fn label_width_bytes(&self) -> (n: usize)
        ensures
            n == self.word_size.width(),
    {
        self.word_size.bytes()
    }

    /// The offset, within a record, of the byte whose lowest bit marks it deleted.
    pub fn delete_marker_offset(&self) -> (n: usize)
        requires
            self.offset_level0 + 2 <= usize::MAX,
        ensures
            n == self.offset_level0 + 2,
    {
        (self.offset_level0 as usize) + 2
    }

    /// The number of bytes that `data_level0.bin` takes at full capacity.
    pub fn expected_data_level0_bytes(&self) -> (r: Result<u64, ExtractError>)
        ensures
            self.max_elements * self.size_data_per_element <= u64::MAX ==> r == Ok::<
                u64,
                ExtractError,
            >((self.max_elements * self.size_data_per_element) as u64),
            self.max_elements * self.size_data_per_element > u64::MAX ==> r == Err::<
                u64,
                ExtractError,
            >(ExtractError::CorruptIndex(CorruptIndexError::CapacityBytesOverflow)),
    {
        match self.max_elements.checked_mul(self.size_data_per_element) {
            Some(n) => Ok(n),
            None => Err(ExtractError::CorruptIndex(CorruptIndexError::CapacityBytesOverflow)),
        }
    }

    fn parse_with_word_size(bytes: &[u8], word_size: HeaderWordSize) -> (r: Result<Self, ExtractError>)
        ensures
            r == read_header_fields(bytes@, word_size),
    {
        let mut cursor = HeaderCursor::new(bytes);

        let persisted_version = cursor.read_i32()?;
        let offset_level0 = cursor.read_word(word_size)?;
        let max_elements = cursor.read_word(word_size)?;
        let cur_element_count = cursor.read_word(word_size)?;
        let size_data_per_element = cursor.read_word(word_size)?;
        let label_offset = cursor.read_word(word_size)?;
        let offset_data = cursor.read_word(word_size)?;
        let max_level = cursor.read_i32()?;
        let enterpoint_node = cursor.read_u32()?;
        let max_m = cursor.read_word(word_size)?;
        let max_m0 = cursor.read_word(word_size)?;
        let m = cursor.read_word(word_size)?;
        let mult_bits = cursor.read_u64()?;
        let ef_construction = cursor.read_word(word_size)?;
        cursor.ensure_eof()?;

        let header = PersistentHeader {
            persisted_version,
            offset_level0,
            max_elements,
            cur_element_count,
            size_data_per_element,
            label_offset,
            offset_data,
            max_level,
            enterpoint_node,
            max_m,
            max_m0,
            m,
            mult_bits,
            ef_construction,
            word_size,
        };
        assert(header == decode_header(bytes@, word_size));
        header.validate()?;
        Ok(header)
    }

    fn validate(&self) -> (r: Result<(), ExtractError>)
        ensures
            match header_issue(*self) {
                Some(e) => r == Err::<(), ExtractError>(ExtractError::InvalidHeader(e)),
                None => r is Ok,
            },
    {
        if self.persisted_version != HNSW_PERSISTENCE_VERSION {
            return Err(
                ExtractError::InvalidHeader(
                    HeaderError::UnsupportedVersion { found: self.persisted_version },
                ),
            );
        }
        if self.cur_element_count > self.max_elements {
            return Err(
                ExtractError::InvalidHeader(
                    HeaderError::ElementCountExceedsCapacity {
                        cur_element_count: self.cur_element_count,
                        max_elements: self.max_elements,
                    },
                ),
            );
        }
        if self.offset_data >= self.label_offset {
            return Err(
                ExtractError::InvalidHeader(
                    HeaderError::DataOffsetNotBeforeLabel {
                        offset_data: self.offset_data,
                        label_offset: self.label_offset,
                    },
                ),
            );
        }
        let label_width = self.label_width_bytes();
        if self.label_offset > self.size_data_per_element || self.size_data_per_element
            - self.label_offset < label_width as u64 {
            return Err(
                ExtractError::InvalidHeader(
                    HeaderError::LabelExceedsRecord {
                        label_offset: self.label_offset,
                        label_width,
                        size_data_per_element: self.size_data_per_element,
                    },
                ),
            );
        }
        let vector_bytes = self.label_offset - self.offset_data;
        if vector_bytes == 0 || vector_bytes % 4 != 0 {
            return Err(
                ExtractError::InvalidHeader(HeaderError::InvalidVectorPayload { vector_bytes }),
            );
        }
        if self.offset_level0 >= self.size_data_per_element || self.size_data_per_element
            - self.offset_level0 <= 2 {
            return Err(
                ExtractError::InvalidHeader(
                    HeaderError::DeleteMarkerOutOfBounds {
                        offset_level0: self.offset_level0,
                        size_data_per_element: self.size_data_per_element,
                    },
                ),
            );
        }
        Ok(())
    }
}

/// A position within the bytes of a header, read front to back.
struct HeaderCursor<'a> {
    bytes: &'a [u8],
    offset: usize,
}

impl<'a> HeaderCursor<'a> {
    spec fn wf(&self) -> bool {
        self.offset <= self.bytes@.len()
    }

    fn new(bytes: &'a [u8]) -> (c: Self)
        ensures
            c.bytes@ == bytes@,
            c.offset == 0,
    {
        Self { bytes, offset: 0 }
    }

    /// The error that a read of `need` bytes at `offset` gives when too few remain.
    spec fn ended_early(offset: usize, need: usize) -> ExtractError {
        ExtractError::InvalidHeader(HeaderError::EndedEarly { offset, need })
    }

    fn take(&mut self, len: usize) -> (r: Result<&'a [u8], ExtractError>)
        requires
            old(self).wf(),
        ensures
            final(self).wf(),
            final(self).bytes@ == old(self).bytes@,
            old(self).offset + len <= old(self).bytes@.len() ==> {
                &&& r matches Ok(s)
                &&& s@ == old(self).bytes@.subrange(
                    old(self).offset as int,
                    old(self).offset + len,
                )
                &&& final(self).offset == old(self).offset + len
            },
            old(self).offset + len > old(self).bytes@.len() ==> {
                &&& r == Err::<&'a [u8], ExtractError>(Self::ended_early(old(self).offset, len))
                &&& final(self).offset == old(self).offset
            },
    {
        if len > self.bytes.len() - self.offset {
            return Err(
                ExtractError::InvalidHeader(HeaderError::EndedEarly { offset: self.offset, need: len }),
            );
        }
        let out = &self.bytes[self.offset..self.offset + len];
        self.offset = self.offset + len;
        Ok(out)
    }

    fn read_u32(&mut self) -> (r: Result<u32, ExtractError>)
        requires
            old(self).wf(),
        ensures
            final(self).wf(),
            final(self).bytes@ == old(self).bytes@,
            old(self).offset + 4 <= old(self).bytes@.len() ==> r == Ok::<u32, ExtractError>(
                le_u32_at(old(self).bytes@, old(self).offset as int),
            ) && final(self).offset == old(self).offset + 4,
            old(self).offset + 4 > old(self).bytes@.len() ==> r == Err::<u32, ExtractError>(
                Self::ended_early(old(self).offset, 4),
            ),
    {
        let slice = self.take(4)?;
        Ok(read_le_u32(slice, 0))
    }

    fn read_i32(&mut self) -> (r: Result<i32, ExtractError>)
        requires
            old(self).wf(),
        ensures
            final(self).wf(),
            final(self).bytes@ == old(self).bytes@,
            old(self).offset + 4 <= old(self).bytes@.len() ==> r == Ok::<i32, ExtractError>(
                le_i32_at(old(self).bytes@, old(self).offset as int),
            ) && final(self).offset == old(self).offset + 4,
            old(self).offset + 4 > old(self).bytes@.len() ==> r == Err::<i32, ExtractError>(
                Self::ended_early(old(self).offset, 4),
            ),
    {
        let u = self.read_u32()?;
        if u <= 0x7fff_ffff {
            Ok(u as i32)
        } else {
            Ok((u - 0x8000_0000u32) as i32 + i32::MIN)
        }
    }

    /// Reads eight bytes as an unsigned number (also the bit pattern of a `f64`).
    fn read_u64(&mut self) -> (r: Result<u64, ExtractError>)
        requires
            old(self).wf(),
        ensures
            final(self).wf(),
            final(self).bytes@ == old(self).bytes@,
            old(self).offset + 8 <= old(self).bytes@.len() ==> r == Ok::<u64, ExtractError>(
                le_u64_at(old(self).bytes@, old(self).offset as int),
            ) && final(self).offset == old(self).offset + 8,
            old(self).offset + 8 > old(self).bytes@.len() ==> r == Err::<u64, ExtractError>(
                Self::ended_early(old(self).offset, 8),
            ),
    {
        let slice = self.take(8)?;
        Ok(read_le_u64(slice, 0))
    }

    fn read_word(&mut self, word_size: HeaderWordSize) -> (r: Result<u64, ExtractError>)
        requires
            old(self).wf(),
        ensures
            final(self).wf(),
            final(self).bytes@ == old(self).bytes@,
            old(self).offset + word_size.width() <= old(self).bytes@.len() ==> r == Ok::<
                u64,
                ExtractError,
            >(word_at(old(self).bytes@, old(self).offset as int, word_size)) && final(self).offset
                == old(self).offset + word_size.width(),
            old(self).offset + word_size.width() > old(self).bytes@.len() ==> r == Err::<
                u64,
                ExtractError,
            >(Self::ended_early(old(self).offset, word_size.width() as usize)),
    {
        match word_size {
            HeaderWordSize::U32 => Ok(self.read_u32()? as u64),
            HeaderWordSize::U64 => self.read_u64(),
        }
    }

    fn ensure_eof(&self) -> (r: Result<(), ExtractError>)
        requires
            self.wf(),
        ensures
            self.offset == self.bytes@.len() ==> r is Ok,
            self.offset != self.bytes@.len() ==> r == Err::<(), ExtractError>(
                ExtractError::InvalidHeader(
                    HeaderError::TrailingBytes { count: (self.bytes@.len() - self.offset) as usize },
                ),
            ),
    {
        if self.offset == self.bytes.len() {
            return Ok(());
        }
        Err(
            ExtractError::InvalidHeader(
                HeaderError::TrailingBytes { count: self.bytes.len() - self.offset },
            ),
        )
    }
}

} // verus!
