use sse2neon::sse2::{
    _mm_load_si128, _mm_loadl_epi64, _mm_loadu_si128, _mm_set_epi8, _mm_store_si128,
    _mm_storel_epi64, _mm_storeu_si128,
};

#[test]
fn loadl_epi64_accepts_unaligned_8_byte_pointer() {
    let bytes: [u8; 16] = [1, 2, 3, 4, 5, 6, 7, 8, 9, 10, 11, 12, 13, 14, 15, 16];
    let read_offset = (1..=8)
        .find(|offset| (bytes.as_ptr() as usize + offset) % core::mem::align_of::<i64>() != 0)
        .unwrap();

    let loaded = _mm_loadl_epi64(&bytes[read_offset..]);
    let mut loaded_bytes = [0u8; 16];
    _mm_storeu_si128(&mut loaded_bytes, loaded);

    assert_eq!(&loaded_bytes[..8], &bytes[read_offset..read_offset + 8]);
    assert_eq!(&loaded_bytes[8..], &[0; 8]);
}

#[test]
fn storel_epi64_accepts_unaligned_8_byte_pointer() {
    let value = _mm_set_epi8(
        25, 24, 23, 22, 21, 20, 19, 18, 17, 16, 15, 14, 13, 12, 11, 10,
    );
    let mut out = [0u8; 16];
    let write_offset = (1..=8)
        .find(|offset| (out.as_ptr() as usize + offset) % core::mem::align_of::<i64>() != 0)
        .unwrap();

    _mm_storel_epi64(&mut out[write_offset..], value);

    assert_eq!(&out[..write_offset], &[0; 8][..write_offset]);
    assert_eq!(
        &out[write_offset..write_offset + 8],
        &[10, 11, 12, 13, 14, 15, 16, 17]
    );
    assert_eq!(&out[write_offset + 8..], &[0; 8][..8 - write_offset]);
}

#[test]
fn full_loads_and_stores_round_trip() {
    let bytes: Vec<u8> = (0..20).collect();
    let a = _mm_loadu_si128(&bytes[3..]);
    assert_eq!(a.u8()[0], 3);
    assert_eq!(a.u8()[15], 18);
    let b = _mm_load_si128(&bytes);
    let mut out = vec![0xaau8; 18];
    _mm_store_si128(&mut out, b);
    assert_eq!(&out[..16], &bytes[..16]);
    assert_eq!(&out[16..], &[0xaa, 0xaa]);
}
