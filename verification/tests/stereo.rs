use opus_rs::range_coder::RangeCoder;
use opus_rs::silk::decode_indices::{silk_stereo_decode_mid_only, silk_stereo_decode_pred};
use opus_rs::silk::macros::{silk_smlabb, silk_smulwb};

#[test]
fn stereo_pred_from_zero_bytes() {
    // Joint index 0, both predictors at the first interval and sub-step:
    // -13732 + ((3682 * 6553) >> 16) = -13364 for both.
    let buf = [0u8; 16];
    let mut rc = RangeCoder::new(&buf);
    let pred = silk_stereo_decode_pred(&mut rc);
    assert_eq!(pred, [0, -13364]);
}

#[test]
fn stereo_pred_from_one_bytes() {
    // Joint index 24, both predictors in the last interval, last sub-step:
    // 10050 + 368 * 9 = 13362 for both.
    let buf = [0xffu8; 64];
    let mut rc = RangeCoder::new(&buf);
    let pred = silk_stereo_decode_pred(&mut rc);
    assert_eq!(pred, [0, 13362]);
}

#[test]
fn stereo_mid_only() {
    let buf = [0u8; 16];
    let mut rc = RangeCoder::new(&buf);
    assert!(!silk_stereo_decode_mid_only(&mut rc));
    let buf = [0xffu8; 16];
    let mut rc = RangeCoder::new(&buf);
    assert!(silk_stereo_decode_mid_only(&mut rc));
}

#[test]
fn smulwb_values() {
    assert_eq!(silk_smulwb(3682, 6553), 368);
    assert_eq!(silk_smulwb(-65536, 3), -3);
    // Rounds towards minus infinity.
    assert_eq!(silk_smulwb(-1, 1), -1);
    // Only the low 16 bits of the second factor count, read as signed.
    assert_eq!(silk_smulwb(65536, 0x10002), 2);
    assert_eq!(silk_smulwb(65536, 0xffff), -1);
    assert_eq!(silk_smulwb(i32::MIN, -32768), 1 << 30);
}

#[test]
fn smlabb_values() {
    assert_eq!(silk_smlabb(1, 0x10002, 3), 7);
    assert_eq!(silk_smlabb(-13732, 368, 9), -13732 + 3312);
    assert_eq!(silk_smlabb(0, 0xffff, 5), -5);
}
