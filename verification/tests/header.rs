use hnsw_toolbox::error::{CorruptIndexError, ExtractError, HeaderError};
use hnsw_toolbox::header::{HeaderWordSize, PersistentHeader, HNSW_PERSISTENCE_VERSION};

struct Fields {
    version: i32,
    offset_level0: u64,
    max_elements: u64,
    cur_element_count: u64,
    size_data_per_element: u64,
    label_offset: u64,
    offset_data: u64,
    max_level: i32,
    enterpoint_node: u32,
    max_m: u64,
    max_m0: u64,
    m: u64,
    mult: f64,
    ef_construction: u64,
}

fn sample() -> Fields {
    Fields {
        version: 1,
        offset_level0: 0,
        max_elements: 10,
        cur_element_count: 3,
        size_data_per_element: 92,
        label_offset: 84,
        offset_data: 68,
        max_level: 2,
        enterpoint_node: 7,
        max_m: 8,
        max_m0: 16,
        m: 4,
        mult: 0.5,
        ef_construction: 100,
    }
}

fn encode(f: &Fields, wide: bool) -> Vec<u8> {
    let mut out = Vec::new();
    let word = |out: &mut Vec<u8>, v: u64| {
        if wide {
            out.extend_from_slice(&v.to_le_bytes());
        } else {
            out.extend_from_slice(&(v as u32).to_le_bytes());
        }
    };
    out.extend_from_slice(&f.version.to_le_bytes());
    word(&mut out, f.offset_level0);
    word(&mut out, f.max_elements);
    word(&mut out, f.cur_element_count);
    word(&mut out, f.size_data_per_element);
    word(&mut out, f.label_offset);
    word(&mut out, f.offset_data);
    out.extend_from_slice(&f.max_level.to_le_bytes());
    out.extend_from_slice(&f.enterpoint_node.to_le_bytes());
    word(&mut out, f.max_m);
    word(&mut out, f.max_m0);
    word(&mut out, f.m);
    out.extend_from_slice(&f.mult.to_le_bytes());
    word(&mut out, f.ef_construction);
    out
}

fn invalid(bytes: &[u8]) -> HeaderError {
    match PersistentHeader::parse(bytes) {
        Err(ExtractError::InvalidHeader(e)) => e,
        other => panic!("expected an invalid header, got {other:?}"),
    }
}

#[test]
fn parses_64_bit_header() {
    let bytes = encode(&sample(), true);
    assert_eq!(bytes.len(), 100);
    let h = PersistentHeader::parse(&bytes).expect("header");
    assert_eq!(h.persisted_version, HNSW_PERSISTENCE_VERSION);
    assert_eq!(h.offset_level0, 0);
    assert_eq!(h.max_elements, 10);
    assert_eq!(h.cur_element_count, 3);
    assert_eq!(h.size_data_per_element, 92);
    assert_eq!(h.label_offset, 84);
    assert_eq!(h.offset_data, 68);
    assert_eq!(h.max_level, 2);
    assert_eq!(h.enterpoint_node, 7);
    assert_eq!(h.max_m, 8);
    assert_eq!(h.max_m0, 16);
    assert_eq!(h.m, 4);
    assert_eq!(f64::from_bits(h.mult_bits), 0.5);
    assert_eq!(h.ef_construction, 100);
    assert_eq!(h.word_size, HeaderWordSize::U64);
    assert_eq!(h.vector_byte_len(), 16);
    assert_eq!(h.dimension(), 4);
    assert_eq!(h.label_width_bytes(), 8);
    assert_eq!(h.delete_marker_offset(), 2);
    assert_eq!(h.expected_data_level0_bytes().unwrap(), 920);
}

#[test]
fn parses_32_bit_header() {
    let mut f = sample();
    f.size_data_per_element = 88;
    f.max_level = -1;
    let bytes = encode(&f, false);
    assert_eq!(bytes.len(), 60);
    let h = PersistentHeader::parse(&bytes).expect("header");
    assert_eq!(h.word_size, HeaderWordSize::U32);
    assert_eq!(h.max_level, -1);
    assert_eq!(h.size_data_per_element, 88);
    assert_eq!(h.label_width_bytes(), 4);
    assert_eq!(h.ef_construction, 100);
    assert_eq!(HeaderWordSize::U32.bytes(), 4);
    assert_eq!(HeaderWordSize::U64.bytes(), 8);
}

#[test]
fn from_bytes_agrees_with_parse_on_little_endian_hosts() {
    let bytes = encode(&sample(), true);
    let h = PersistentHeader::from_bytes(&bytes).expect("header");
    assert_eq!(h.m, 4);
}

#[test]
fn refuses_other_lengths() {
    assert_eq!(invalid(&[0_u8; 99]), HeaderError::UnexpectedLength { len: 99 });
    assert_eq!(invalid(&[]), HeaderError::UnexpectedLength { len: 0 });
}

#[test]
fn refuses_each_broken_rule() {
    let mut f = sample();
    f.version = 2;
    assert_eq!(invalid(&encode(&f, true)), HeaderError::UnsupportedVersion { found: 2 });

    let mut f = sample();
    f.cur_element_count = 11;
    assert_eq!(
        invalid(&encode(&f, true)),
        HeaderError::ElementCountExceedsCapacity { cur_element_count: 11, max_elements: 10 }
    );

    let mut f = sample();
    f.offset_data = 84;
    assert_eq!(
        invalid(&encode(&f, true)),
        HeaderError::DataOffsetNotBeforeLabel { offset_data: 84, label_offset: 84 }
    );

    let mut f = sample();
    f.size_data_per_element = 91;
    assert_eq!(
        invalid(&encode(&f, true)),
        HeaderError::LabelExceedsRecord { label_offset: 84, label_width: 8, size_data_per_element: 91 }
    );

    let mut f = sample();
    f.label_offset = u64::MAX - 3;
    f.size_data_per_element = 92;
    assert_eq!(
        invalid(&encode(&f, true)),
        HeaderError::LabelExceedsRecord {
            label_offset: u64::MAX - 3,
            label_width: 8,
            size_data_per_element: 92
        }
    );

    let mut f = sample();
    f.offset_data = 70;
    assert_eq!(invalid(&encode(&f, true)), HeaderError::InvalidVectorPayload { vector_bytes: 14 });

    let mut f = sample();
    f.offset_level0 = 90;
    assert_eq!(
        invalid(&encode(&f, true)),
        HeaderError::DeleteMarkerOutOfBounds { offset_level0: 90, size_data_per_element: 92 }
    );
}

#[test]
fn capacity_bytes_overflow_is_reported() {
    let mut f = sample();
    f.max_elements = u64::MAX;
    let h = PersistentHeader::parse(&encode(&f, true)).expect("header");
    assert!(matches!(
        h.expected_data_level0_bytes(),
        Err(ExtractError::CorruptIndex(CorruptIndexError::CapacityBytesOverflow))
    ));
}
