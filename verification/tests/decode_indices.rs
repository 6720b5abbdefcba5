use opus_rs::range_coder::RangeCoder;
use opus_rs::silk::decode_indices::silk_decode_indices;
use opus_rs::silk::define::{CODE_CONDITIONALLY, CODE_INDEPENDENTLY, TYPE_VOICED};
use opus_rs::silk::nlsf_unpack::silk_nlsf_unpack;
use opus_rs::silk::decoder_structs::{SideInfoIndices, SilkDecoderState, SilkNlsfCb};
use opus_rs::silk::tables::SILK_UNIFORM4_ICDF;

const CB1_ICDF: [u8; 4] = [128, 0, 128, 0];
const PRED_Q8: [u8; 4] = [10, 20, 30, 40];
const EC_SEL: [u8; 2] = [0x00, 0xff];
const ROW: [u8; 9] = [250, 200, 150, 100, 75, 50, 25, 10, 0];
const LAG_LOW_ICDF: [u8; 4] = [192, 128, 64, 0];
const CONTOUR_ICDF: [u8; 3] = [200, 100, 0];

fn ec_icdf() -> Vec<u8> {
    let mut v = Vec::new();
    for _ in 0..8 {
        v.extend_from_slice(&ROW);
    }
    v
}

fn zero_indices() -> SideInfoIndices {
    SideInfoIndices {
        gains_indices: [0; 4],
        ltp_index: [0; 4],
        nlsf_indices: [0; 17],
        lag_index: 0,
        contour_index: 0,
        signal_type: 0,
        quant_offset_type: 0,
        nlsf_interp_coef_q2: 0,
        per_index: 0,
        ltp_scale_index: 0,
        seed: 0,
    }
}

fn state<'a>(cb: &'a SilkNlsfCb<'a>, nb_subfr: i32) -> SilkDecoderState<'a> {
    SilkDecoderState {
        vad_flags: [1, 0, 1],
        indices: zero_indices(),
        nb_subfr,
        ps_nlsf_cb: Some(cb),
        ec_prev_signal_type: 0,
        ec_prev_lag_index: 0,
        fs_khz: 16,
        pitch_lag_low_bits_icdf: &LAG_LOW_ICDF,
        pitch_contour_icdf: &CONTOUR_ICDF,
    }
}

#[test]
fn zero_bytes_active_frame() {
    let ec = ec_icdf();
    let cb = SilkNlsfCb {
        n_vectors: 2,
        order: 2,
        cb1_icdf: &CB1_ICDF,
        pred_q8: &PRED_Q8,
        ec_sel: &EC_SEL,
        ec_icdf: &ec,
    };
    let mut st = state(&cb, 4);
    let buf = [0u8; 32];
    let mut rc = RangeCoder::new(&buf);
    silk_decode_indices(&mut st, &mut rc, 0, 0, CODE_INDEPENDENTLY);
    // Active frame, first symbol: unvoiced with the low quantization offset.
    assert_eq!(st.indices.signal_type, 1);
    assert_eq!(st.indices.quant_offset_type, 0);
    assert_eq!(st.indices.gains_indices, [0, 0, 0, 0]);
    // Residual 0 extended by 0: 0 - 4.
    assert_eq!(st.indices.nlsf_indices[0], 0);
    assert_eq!(st.indices.nlsf_indices[1], -4);
    assert_eq!(st.indices.nlsf_indices[2], -4);
    // Entries past the order keep their values.
    assert_eq!(st.indices.nlsf_indices[3], 0);
    assert_eq!(st.indices.nlsf_interp_coef_q2, 0);
    assert_eq!(st.indices.seed, 0);
    assert_eq!(st.ec_prev_signal_type, 1);
    assert_eq!(st.ec_prev_lag_index, 0);
}

#[test]
fn zero_bytes_inactive_frame() {
    let ec = ec_icdf();
    let cb = SilkNlsfCb {
        n_vectors: 2,
        order: 2,
        cb1_icdf: &CB1_ICDF,
        pred_q8: &PRED_Q8,
        ec_sel: &EC_SEL,
        ec_icdf: &ec,
    };
    let mut st = state(&cb, 2);
    let buf = [0u8; 32];
    let mut rc = RangeCoder::new(&buf);
    // Frame 1 has no voice activity.
    silk_decode_indices(&mut st, &mut rc, 1, 0, CODE_CONDITIONALLY);
    assert_eq!(st.indices.signal_type, 0);
    assert_eq!(st.indices.quant_offset_type, 0);
    // 10 ms frames do not code the interpolation factor.
    assert_eq!(st.indices.nlsf_interp_coef_q2, 4);
    assert_eq!(st.ec_prev_signal_type, 0);
}

#[test]
fn lbrr_frame_is_active() {
    let ec = ec_icdf();
    let cb = SilkNlsfCb {
        n_vectors: 2,
        order: 2,
        cb1_icdf: &CB1_ICDF,
        pred_q8: &PRED_Q8,
        ec_sel: &EC_SEL,
        ec_icdf: &ec,
    };
    let mut st = state(&cb, 2);
    let buf = [0u8; 32];
    let mut rc = RangeCoder::new(&buf);
    silk_decode_indices(&mut st, &mut rc, 1, 1, CODE_CONDITIONALLY);
    assert_eq!(st.indices.signal_type, 1);
}

#[test]
fn one_bytes_voiced_frame() {
    let ec = ec_icdf();
    let cb = SilkNlsfCb {
        n_vectors: 2,
        order: 2,
        cb1_icdf: &CB1_ICDF,
        pred_q8: &PRED_Q8,
        ec_sel: &EC_SEL,
        ec_icdf: &ec,
    };
    let mut st = state(&cb, 4);
    let buf = [0xffu8; 128];
    let mut rc = RangeCoder::new(&buf);
    silk_decode_indices(&mut st, &mut rc, 0, 0, CODE_INDEPENDENTLY);
    // Last symbol everywhere: voiced, high offset.
    assert_eq!(st.indices.signal_type, 2);
    assert_eq!(st.indices.quant_offset_type, 1);
    // Gain: 7 * 8 + 7, then deltas of 40.
    assert_eq!(st.indices.gains_indices, [63, 40, 40, 40]);
    // Voiced row, last vector; residuals 8 extended by 6: 14 - 4.
    assert_eq!(st.indices.nlsf_indices[0], 1);
    assert_eq!(st.indices.nlsf_indices[1], 10);
    assert_eq!(st.indices.nlsf_indices[2], 10);
    assert_eq!(st.indices.nlsf_interp_coef_q2, 4);
    // Absolute lag: 31 * (16 / 2) + 3.
    assert_eq!(st.indices.lag_index, 251);
    assert_eq!(st.ec_prev_lag_index, 251);
    assert_eq!(st.indices.contour_index, 2);
    assert_eq!(st.indices.per_index, 2);
    assert_eq!(st.indices.ltp_index, [31, 31, 31, 31]);
    assert_eq!(st.indices.ltp_scale_index, 2);
    assert_eq!(st.indices.seed, 3);
    assert_eq!(st.ec_prev_signal_type, TYPE_VOICED);
}

#[test]
fn conditional_voiced_frame_uses_delta_lag() {
    let ec = ec_icdf();
    let cb = SilkNlsfCb {
        n_vectors: 2,
        order: 2,
        cb1_icdf: &CB1_ICDF,
        pred_q8: &PRED_Q8,
        ec_sel: &EC_SEL,
        ec_icdf: &ec,
    };
    let mut st = state(&cb, 4);
    st.ec_prev_signal_type = TYPE_VOICED;
    st.ec_prev_lag_index = 100;
    st.indices.ltp_scale_index = 1;
    let buf = [0xffu8; 128];
    let mut rc = RangeCoder::new(&buf);
    silk_decode_indices(&mut st, &mut rc, 0, 0, CODE_CONDITIONALLY);
    assert_eq!(st.indices.signal_type, 2);
    // Conditionally coded: all gains are deltas.
    assert_eq!(st.indices.gains_indices, [40, 40, 40, 40]);
    // Delta 20 on the previous lag: 100 + 20 - 9.
    assert_eq!(st.indices.lag_index, 111);
    assert_eq!(st.ec_prev_lag_index, 111);
    // No LTP scaling in conditional coding.
    assert_eq!(st.indices.ltp_scale_index, 0);
}

#[test]
fn unvoiced_frame_keeps_pitch_indices() {
    let ec = ec_icdf();
    let cb = SilkNlsfCb {
        n_vectors: 2,
        order: 2,
        cb1_icdf: &CB1_ICDF,
        pred_q8: &PRED_Q8,
        ec_sel: &EC_SEL,
        ec_icdf: &ec,
    };
    let mut st = state(&cb, 4);
    st.indices.lag_index = 77;
    st.indices.per_index = 1;
    st.ec_prev_lag_index = 77;
    let buf = [0u8; 32];
    let mut rc = RangeCoder::new(&buf);
    silk_decode_indices(&mut st, &mut rc, 0, 0, CODE_INDEPENDENTLY);
    assert_eq!(st.indices.signal_type, 1);
    assert_eq!(st.indices.lag_index, 77);
    assert_eq!(st.indices.per_index, 1);
    assert_eq!(st.ec_prev_lag_index, 77);
}

#[test]
fn decoding_continues_with_the_seed() {
    // The seed is the last symbol of the side information: the decoder is
    // left just after it.
    let ec = ec_icdf();
    let cb = SilkNlsfCb {
        n_vectors: 2,
        order: 2,
        cb1_icdf: &CB1_ICDF,
        pred_q8: &PRED_Q8,
        ec_sel: &EC_SEL,
        ec_icdf: &ec,
    };
    let mut st = state(&cb, 4);
    let buf = [0u8; 32];
    let mut rc = RangeCoder::new(&buf);
    silk_decode_indices(&mut st, &mut rc, 0, 0, CODE_INDEPENDENTLY);
    assert_eq!(rc.decode_icdf(&SILK_UNIFORM4_ICDF, 8), 0);
}

#[test]
fn nlsf_unpack_selectors() {
    let ec = ec_icdf();
    let cb = SilkNlsfCb {
        n_vectors: 2,
        order: 2,
        cb1_icdf: &CB1_ICDF,
        pred_q8: &PRED_Q8,
        ec_sel: &EC_SEL,
        ec_icdf: &ec,
    };
    let mut ec_ix = [5i16; 16];
    let mut pred_q8 = [7u8; 16];
    silk_nlsf_unpack(&mut ec_ix, &mut pred_q8, &cb, 1);
    // Selector 0xff: rows 7 and 7, second rows of the predictors.
    assert_eq!(&ec_ix[..3], &[63, 63, 5]);
    assert_eq!(&pred_q8[..3], &[20, 30, 7]);
    silk_nlsf_unpack(&mut ec_ix, &mut pred_q8, &cb, 0);
    assert_eq!(&ec_ix[..3], &[0, 0, 5]);
    assert_eq!(&pred_q8[..3], &[10, 20, 7]);
}

#[test]
fn nlsf_unpack_mixed_selector() {
    // Selector 0b0100_0110: low field 3, low bit 0; high field 2, bit 4 = 0.
    let sel = [0b0100_0110u8];
    let ec = ec_icdf();
    let cb = SilkNlsfCb {
        n_vectors: 1,
        order: 2,
        cb1_icdf: &[0, 0],
        pred_q8: &PRED_Q8,
        ec_sel: &sel,
        ec_icdf: &ec,
    };
    let mut ec_ix = [0i16; 16];
    let mut pred_q8 = [0u8; 16];
    silk_nlsf_unpack(&mut ec_ix, &mut pred_q8, &cb, 0);
    assert_eq!(&ec_ix[..2], &[27, 18]);
    assert_eq!(&pred_q8[..2], &[10, 20]);
}

#[test]
fn absolute_lag_at_24_khz() {
    // At 24 kHz the high part counts in units of 12 and the low part has 12
    // values: the last symbols give 31 * 12 + 11.
    const LOW12: [u8; 12] = [235, 213, 192, 171, 149, 128, 107, 85, 64, 43, 21, 0];
    let ec = ec_icdf();
    let cb = SilkNlsfCb {
        n_vectors: 2,
        order: 2,
        cb1_icdf: &CB1_ICDF,
        pred_q8: &PRED_Q8,
        ec_sel: &EC_SEL,
        ec_icdf: &ec,
    };
    let mut st = state(&cb, 4);
    st.fs_khz = 24;
    st.pitch_lag_low_bits_icdf = &LOW12;
    let buf = [0xffu8; 128];
    let mut rc = RangeCoder::new(&buf);
    silk_decode_indices(&mut st, &mut rc, 0, 0, CODE_INDEPENDENTLY);
    assert_eq!(st.indices.signal_type, 2);
    assert_eq!(st.indices.lag_index, 383);
}

#[test]
fn previous_lag_near_the_limit_without_delta() {
    // A previous lag next to the i16 limit is fine where the frame reads no
    // delta: here the frame is unvoiced, and the sampling rate is far beyond
    // any that bounds an absolute lag.
    let ec = ec_icdf();
    let cb = SilkNlsfCb {
        n_vectors: 2,
        order: 2,
        cb1_icdf: &CB1_ICDF,
        pred_q8: &PRED_Q8,
        ec_sel: &EC_SEL,
        ec_icdf: &ec,
    };
    let mut st = state(&cb, 4);
    st.ec_prev_signal_type = TYPE_VOICED;
    st.ec_prev_lag_index = 32760;
    st.fs_khz = 1_000_000;
    let buf = [0u8; 32];
    let mut rc = RangeCoder::new(&buf);
    silk_decode_indices(&mut st, &mut rc, 0, 0, CODE_CONDITIONALLY);
    assert_eq!(st.indices.signal_type, 1);
    assert_eq!(st.ec_prev_lag_index, 32760);
    assert_eq!(st.ec_prev_signal_type, 1);
}
