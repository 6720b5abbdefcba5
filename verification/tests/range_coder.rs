use opus_rs::range_coder::RangeCoder;
use opus_rs::silk::tables::{SILK_TYPE_OFFSET_VAD_ICDF, SILK_UNIFORM8_ICDF};

#[test]
fn zero_bytes_decode_first_symbol() {
    let buf = [0u8; 16];
    let mut rc = RangeCoder::new(&buf);
    for _ in 0..10 {
        assert_eq!(rc.decode_icdf(&SILK_TYPE_OFFSET_VAD_ICDF, 8), 0);
        assert_eq!(rc.decode_icdf(&SILK_UNIFORM8_ICDF, 8), 0);
    }
}

#[test]
fn ones_bytes_decode_last_symbol() {
    let buf = [0xffu8; 64];
    let mut rc = RangeCoder::new(&buf);
    for _ in 0..5 {
        assert_eq!(rc.decode_icdf(&SILK_TYPE_OFFSET_VAD_ICDF, 8), 3);
        assert_eq!(rc.decode_icdf(&SILK_UNIFORM8_ICDF, 8), 7);
    }
}

#[test]
fn half_way_byte_decodes_middle_symbols() {
    // After start-up the coded value sits just below the middle of the window:
    // against [232, 158, 10, 0] that is symbol 2; the remaining window then
    // places it at about 204/256, which is symbol 1 of the uniform 8-way table.
    let buf = [0x80u8, 0, 0, 0];
    let mut rc = RangeCoder::new(&buf);
    assert_eq!(rc.decode_icdf(&SILK_TYPE_OFFSET_VAD_ICDF, 8), 2);
    assert_eq!(rc.decode_icdf(&SILK_UNIFORM8_ICDF, 8), 1);
}

#[test]
fn half_way_byte_uniform_first() {
    // The value starts at 127.99/256 of the window: the first uniform entry
    // at or below that is 96, symbol 4.
    let buf = [0x80u8, 0, 0, 0];
    let mut rc = RangeCoder::new(&buf);
    assert_eq!(rc.decode_icdf(&SILK_UNIFORM8_ICDF, 8), 4);
}

#[test]
fn empty_buffer_reads_as_zero_bytes() {
    let buf: [u8; 0] = [];
    let mut rc = RangeCoder::new(&buf);
    assert_eq!(rc.decode_icdf(&SILK_TYPE_OFFSET_VAD_ICDF, 8), 0);
}

#[test]
fn coarser_precision_table() {
    // With 4 bits of precision the table [8, 0] splits the window in halves;
    // zero bytes code the first half.
    let buf = [0u8; 8];
    let mut rc = RangeCoder::new(&buf);
    assert_eq!(rc.decode_icdf(&[8u8, 0], 4), 0);
    let buf = [0xffu8; 8];
    let mut rc = RangeCoder::new(&buf);
    assert_eq!(rc.decode_icdf(&[8u8, 0], 4), 1);
}
