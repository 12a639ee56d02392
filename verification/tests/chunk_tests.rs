use lant::chunk::{buffer_size, index_offset, FileChunkSize, FILE_CHUNK_UNIT_SIZE};

const UNIT: usize = FILE_CHUNK_UNIT_SIZE;

#[test]
fn from_length_empty() {
    let c = FileChunkSize::from_length(0);
    assert_eq!(c.total_chunks(), 0);
    assert_eq!(c.rest_size(), 0);
    assert_eq!(c.total_size(), 0);
}

#[test]
fn from_length_one_byte() {
    let c = FileChunkSize::from_length(1);
    assert_eq!(c.total_chunks(), 1);
    assert_eq!(c.rest_size(), 1);
    assert_eq!(c.total_size(), 1);
}

#[test]
fn from_length_exact_multiple() {
    let c = FileChunkSize::from_length(3 * UNIT);
    assert_eq!(c.total_chunks(), 3);
    assert_eq!(c.rest_size(), 0);
    assert_eq!(c.integer_chunks(), 3);
    assert_eq!(c.total_size(), 3 * UNIT);
}

#[test]
fn from_length_with_remainder() {
    let c = FileChunkSize::from_length(2 * UNIT + 5);
    assert_eq!(c.total_chunks(), 3);
    assert_eq!(c.rest_size(), 5);
    assert_eq!(c.integer_chunks(), 2);
    assert_eq!(c.total_size(), 2 * UNIT + 5);
}

#[test]
fn from_length_unit_is_sixteen_mebibytes() {
    assert_eq!(UNIT, 16_777_216);
}

#[test]
fn from_length_scenario_twenty_million() {
    // The exact breakdown of a 20,000,000-byte file.
    let c = FileChunkSize::from_length(20_000_000);
    assert_eq!(c.total_chunks(), 2);
    assert_eq!(c.rest_size(), 3_222_784);
}

#[test]
fn from_length_rest_zero_only_on_multiples() {
    for len in [0usize, 1, UNIT - 1, UNIT, UNIT + 1, 2 * UNIT, 2 * UNIT + 7] {
        let c = FileChunkSize::from_length(len);
        assert_eq!(c.rest_size() == 0, len % UNIT == 0);
        if len > 0 {
            assert_eq!(c.total_chunks() as usize, (len + UNIT - 1) / UNIT);
        } else {
            assert_eq!(c.total_chunks(), 0);
        }
        assert_eq!(c.rest_size(), len % UNIT);
    }
}

#[test]
fn equality_is_by_fields() {
    let a = FileChunkSize::from_length(UNIT + 9);
    let b = FileChunkSize::new(2, 9);
    assert_eq!(a, b);
    assert!(a != FileChunkSize::new(2, 8));
}

#[test]
fn default_is_empty() {
    let c: FileChunkSize = Default::default();
    assert_eq!(c, FileChunkSize::new(0, 0));
}

#[test]
fn from_usize_matches_from_length() {
    let c = FileChunkSize::from(20_000_000usize);
    assert_eq!(c, FileChunkSize::from_length(20_000_000));
}

#[test]
fn last_chunk_bookkeeping() {
    let c = FileChunkSize::from_length(2 * UNIT + 5);
    assert_eq!(c.last_chunk_index(), 2);
    assert_eq!(c.last_chunk_size(), 5);
    let d = FileChunkSize::from_length(7);
    assert_eq!(d.last_chunk_index(), 0);
    assert_eq!(d.last_chunk_size(), 7);
    let e = FileChunkSize::from_length(0);
    assert_eq!(e.last_chunk_index(), 0);
    assert_eq!(e.last_chunk_size(), 0);
}

#[test]
fn last_chunk_is_full_exactly_on_multiples() {
    // The last chunk is full-sized exactly when the remainder is 0.
    assert_eq!(FileChunkSize::from_length(UNIT).last_chunk_size(), UNIT);
    assert_eq!(FileChunkSize::from_length(2 * UNIT).last_chunk_size(), UNIT);
    assert_eq!(FileChunkSize::from_length(3 * UNIT).last_chunk_size(), UNIT);
    assert_eq!(FileChunkSize::from_length(20_000_000).last_chunk_size(), 3_222_784);
    assert_eq!(FileChunkSize::from_length(UNIT - 1).last_chunk_size(), UNIT - 1);
}

#[test]
fn buffer_size_caps_at_unit() {
    assert_eq!(buffer_size(10), 10);
    assert_eq!(buffer_size(UNIT), UNIT);
    assert_eq!(buffer_size(UNIT + 1), UNIT);
    assert_eq!(buffer_size(0), 0);
}

#[test]
fn index_offset_multiplies() {
    assert_eq!(index_offset(0), 0);
    assert_eq!(index_offset(1), UNIT as u64);
    assert_eq!(index_offset(5), 5 * UNIT as u64);
}
