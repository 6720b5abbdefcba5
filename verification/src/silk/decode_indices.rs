//! Decoding of the side information of a SILK frame (RFC 6716, sections
//! 4.2.7.3 to 4.2.7.6 and 4.2.7.1 for the stereo prediction weights).
//!
//! The `*_spec` functions state, field by field and in bitstream order, which
//! symbols are read from the range decoder and how each index is formed from
//! them.
use vstd::prelude::*;
use crate::range_coder::{
    decode_icdf_spec, decoder_inv, icdf_terminated, lemma_decode_icdf_prefix, lemma_decode_icdf_spec,
    DecoderView, RangeCoder,
};
use crate::silk::define::{
    CODE_CONDITIONALLY, CODE_INDEPENDENTLY, MAX_FRAMES_PER_PACKET, MAX_NB_SUBFR, NLSF_QUANT_MAX_AMPLITUDE, TYPE_VOICED,
};
use crate::silk::macros::{silk_smlabb, silk_smulwb};
use crate::silk::nlsf_unpack::{nlsf_ec_ix_spec, nlsf_ec_row, silk_nlsf_unpack};
use crate::silk::decoder_structs::{SideInfoIndicesView, SilkDecoderState, SilkNlsfCb};
use crate::silk::tables::{
    ltp_gain_icdf_spec, silk_ltp_gain_icdf, SILK_DELTA_GAIN_ICDF, SILK_GAIN_ICDF, SILK_LTP_GAIN_ICDF_0,
    SILK_LTP_GAIN_ICDF_1, SILK_LTP_GAIN_ICDF_2,
    SILK_LTPSCALE_ICDF, SILK_LTP_PER_INDEX_ICDF, SILK_NLSF_EXT_ICDF,
    SILK_NLSF_INTERPOLATION_FACTOR_ICDF, SILK_PITCH_DELTA_ICDF, SILK_PITCH_LAG_ICDF,
    SILK_STEREO_ONLY_CODE_MID_ICDF, SILK_STEREO_PRED_JOINT_ICDF, SILK_STEREO_PRED_QUANT_Q13,
    SILK_TYPE_OFFSET_NO_VAD_ICDF, SILK_TYPE_OFFSET_VAD_ICDF, SILK_UNIFORM3_ICDF,
    SILK_UNIFORM4_ICDF, SILK_UNIFORM5_ICDF, SILK_UNIFORM8_ICDF,
};

verus! {

/// One symbol read with 8 bits of precision.
pub open spec fn dec8(v: DecoderView, icdf: Seq<u8>) -> (int, DecoderView) {
    decode_icdf_spec(v, icdf, 8)
}

/// The frame type, as the joint index `2 * signal_type + quant_offset_type`:
/// active frames code one of the four voiced/unvoiced types, inactive frames
/// one of the two types without voice activity.
pub open spec fn frame_type_spec(v: DecoderView, active: bool) -> (int, DecoderView) {
    if active {
        let (s, w) = dec8(v, SILK_TYPE_OFFSET_VAD_ICDF@);
        (s + 2, w)
    } else {
        dec8(v, SILK_TYPE_OFFSET_NO_VAD_ICDF@)
    }
}

/// Delta-coded gains of subframes `i..n`, written into `g`.
pub open spec fn delta_gains_spec(v: DecoderView, g: Seq<i8>, i: int, n: int) -> (
    Seq<i8>,
    DecoderView,
)
    decreases n - i,
{
    if i >= n {
        (g, v)
    } else {
        let (s, w) = dec8(v, SILK_DELTA_GAIN_ICDF@);
        delta_gains_spec(w, g.update(i, s as i8), i + 1, n)
    }
}

/// The gain of the first subframe (delta-coded in conditional coding, else
/// 3 bits from the table of the signal type followed by 3 uniform bits),
/// then the delta-coded gains of the other subframes.
pub open spec fn gains_spec(
    v: DecoderView,
    conditional: bool,
    signal_type: int,
    nb_subfr: int,
    g: Seq<i8>,
) -> (Seq<i8>, DecoderView) {
    let (g0, w) = if conditional {
        dec8(v, SILK_DELTA_GAIN_ICDF@)
    } else {
        let (msb, w1) = dec8(v, SILK_GAIN_ICDF@[signal_type]@);
        let (lsb, w2) = dec8(w1, SILK_UNIFORM8_ICDF@);
        (msb * 8 + lsb, w2)
    };
    delta_gains_spec(w, g.update(0, g0 as i8), 1, nb_subfr)
}

/// One NLSF residual read against the row of `ec_icdf` at `offset`; the two
/// outermost values are extended by a further symbol.
pub open spec fn nlsf_residual_spec(v: DecoderView, ec_icdf: Seq<u8>, offset: int) -> (
    int,
    DecoderView,
) {
    let (ix, w) = dec8(v, ec_icdf.subrange(offset, ec_icdf.len() as int));
    if ix == 0 {
        let (e, w2) = dec8(w, SILK_NLSF_EXT_ICDF@);
        (-e, w2)
    } else if ix == 2 * NLSF_QUANT_MAX_AMPLITUDE {
        let (e, w2) = dec8(w, SILK_NLSF_EXT_ICDF@);
        (ix + e, w2)
    } else {
        (ix, w)
    }
}

/// NLSF residuals of coefficients `i..order`, centred on 0 and written into
/// `nlsf[i + 1 ..]`.
pub open spec fn nlsf_residuals_spec(
    v: DecoderView,
    cb: &SilkNlsfCb,
    cb1_index: int,
    nlsf: Seq<i8>,
    i: int,
    order: int,
) -> (Seq<i8>, DecoderView)
    decreases order - i,
{
    if i >= order {
        (nlsf, v)
    } else {
        let (ix, w) = nlsf_residual_spec(v, cb.ec_icdf@, nlsf_ec_ix_spec(cb, cb1_index, i));
        nlsf_residuals_spec(
            w,
            cb,
            cb1_index,
            nlsf.update(i + 1, (ix - NLSF_QUANT_MAX_AMPLITUDE) as i8),
            i + 1,
            order,
        )
    }
}

/// The row of first-stage ICDF entries for a signal type: the first
/// `n_vectors` entries for inactive and unvoiced frames, the next `n_vectors`
/// for voiced frames.
pub open spec fn nlsf_cb1_row(cb: &SilkNlsfCb, signal_type: int) -> Seq<u8> {
    let n = cb.n_vectors as int;
    if signal_type == TYPE_VOICED {
        cb.cb1_icdf@.subrange(n, 2 * n)
    } else {
        cb.cb1_icdf@.subrange(0, n)
    }
}

/// The first-stage NLSF index (from the row of the voiced or unvoiced class),
/// then the residuals that its selectors call for.
pub open spec fn nlsf_spec(v: DecoderView, cb: &SilkNlsfCb, signal_type: int, nlsf: Seq<i8>) -> (
    Seq<i8>,
    DecoderView,
) {
    let row_start = (signal_type / 2) * cb.n_vectors;
    let (cb1, w) = dec8(v, cb.cb1_icdf@.subrange(row_start, cb.cb1_icdf@.len() as int));
    nlsf_residuals_spec(w, cb, cb1, nlsf.update(0, cb1 as i8), 0, cb.order as int)
}

/// The NLSF interpolation factor: coded for 20 ms frames, else 4.
pub open spec fn interp_spec(v: DecoderView, nb_subfr: int) -> (int, DecoderView) {
    if nb_subfr == MAX_NB_SUBFR {
        dec8(v, SILK_NLSF_INTERPOLATION_FACTOR_ICDF@)
    } else {
        (4, v)
    }
}

/// An absolutely coded pitch lag: a high part in units of half the sampling
/// rate in kHz (kept to 16 bits) plus a low part.
pub open spec fn absolute_lag_spec(v: DecoderView, st: &SilkDecoderState) -> (int, DecoderView) {
    let (hi, w) = dec8(v, SILK_PITCH_LAG_ICDF@);
    let (lo, w2) = dec8(w, st.pitch_lag_low_bits_icdf@);
    (((hi * (st.fs_khz / 2)) as i16) + (lo as i16), w2)
}

/// The arithmetic of the pitch lag read from state `v` stays in range: a
/// delta-coded lag fits in an `i16`; for an absolute lag, the high part fits
/// in an `i32` and the sum of its 16 bits and the low part fits in an `i16`.
pub open spec fn lag_arith_fits(v: DecoderView, st: &SilkDecoderState, conditional: bool) -> bool {
    let delta_path = conditional && st.ec_prev_signal_type == TYPE_VOICED;
    let (d, w) = dec8(v, SILK_PITCH_DELTA_ICDF@);
    if delta_path && d > 0 {
        i16::MIN <= st.ec_prev_lag_index + d - 9 && st.ec_prev_lag_index + d <= i16::MAX
    } else {
        let w1 = if delta_path {
            w
        } else {
            v
        };
        let (hi, w2) = dec8(w1, SILK_PITCH_LAG_ICDF@);
        let (lo, w3) = dec8(w2, st.pitch_lag_low_bits_icdf@);
        let h = hi * (st.fs_khz / 2);
        &&& i32::MIN <= h <= i32::MAX
        &&& i16::MIN <= ((h as i16) + (lo as i16)) <= i16::MAX
    }
}

/// Bounds on the decoder state under which the pitch lag arithmetic stays in
/// range whatever the bitstream holds: a previous lag with room for any delta
/// (where one can be read), and a sampling rate and low-bits table for which
/// every absolute lag fits in an `i16`.
pub open spec fn lag_state_bounds(st: &SilkDecoderState, cond_coding: i32) -> bool {
    &&& cond_coding == CODE_CONDITIONALLY && st.ec_prev_signal_type == TYPE_VOICED ==> -32760
        <= st.ec_prev_lag_index <= 32747
    &&& 0 <= st.fs_khz
    &&& 31 * (st.fs_khz / 2) + st.pitch_lag_low_bits_icdf@.len() <= 32768
}

/// The pitch lag index: relative to the previous lag where the frame is
/// coded conditionally after a voiced frame and the delta is not 0, else absolute.
pub open spec fn lag_spec(v: DecoderView, st: &SilkDecoderState, conditional: bool) -> (
    int,
    DecoderView,
) {
    if conditional && st.ec_prev_signal_type == TYPE_VOICED {
        let (d, w) = dec8(v, SILK_PITCH_DELTA_ICDF@);
        if d > 0 {
            (st.ec_prev_lag_index + d - 9, w)
        } else {
            absolute_lag_spec(w, st)
        }
    } else {
        absolute_lag_spec(v, st)
    }
}

/// LTP filter indices of subframes `k..n`, all read against `icdf`.
pub open spec fn ltp_indices_spec(v: DecoderView, icdf: Seq<u8>, ltp: Seq<i8>, k: int, n: int) -> (
    Seq<i8>,
    DecoderView,
)
    decreases n - k,
{
    if k >= n {
        (ltp, v)
    } else {
        let (s, w) = dec8(v, icdf);
        ltp_indices_spec(w, icdf, ltp.update(k, s as i8), k + 1, n)
    }
}

/// The parameters of a voiced frame: pitch lag, contour, periodicity, LTP
/// filters, and (only for independently coded frames) the LTP scaling.
pub open spec fn pitch_ltp_spec(
    v: DecoderView,
    st: &SilkDecoderState,
    ind: SideInfoIndicesView,
    cond_coding: i32,
) -> (SideInfoIndicesView, DecoderView) {
    let (lag, w1) = lag_spec(v, st, cond_coding == CODE_CONDITIONALLY);
    let (contour, w2) = dec8(w1, st.pitch_contour_icdf@);
    let (per, w3) = dec8(w2, SILK_LTP_PER_INDEX_ICDF@);
    let (ltp, w4) = ltp_indices_spec(
        w3,
        ltp_gain_icdf_spec(per),
        ind.ltp_index,
        0,
        st.nb_subfr as int,
    );
    let (scale, w5) = if cond_coding == CODE_INDEPENDENTLY {
        dec8(w4, SILK_LTPSCALE_ICDF@)
    } else {
        (0, w4)
    };
    (
        SideInfoIndicesView {
            lag_index: lag as i16,
            contour_index: contour as i8,
            per_index: per as i8,
            ltp_index: ltp,
            ltp_scale_index: scale as i8,
            ..ind
        },
        w5,
    )
}

/// Whether the frame is coded as active (LBRR frames always are).
pub open spec fn frame_active(st: &SilkDecoderState, frame_index: i32, decode_lbrr: i32) -> bool {
    decode_lbrr != 0 || st.vad_flags@[frame_index as int] != 0
}

/// The indices of one frame and the decoder state after reading them, in
/// bitstream order: frame type, gains, NLSFs, NLSF interpolation, the pitch
/// and LTP parameters of a voiced frame, and the seed. Indices that the frame
/// does not code keep their previous values.
pub open spec fn decode_indices_spec(
    st: &SilkDecoderState,
    v: DecoderView,
    frame_index: i32,
    decode_lbrr: i32,
    cond_coding: i32,
) -> (SideInfoIndicesView, DecoderView) {
    let (ind1, v4) = pre_pitch_spec(st, v, frame_index, decode_lbrr, cond_coding);
    let (ind2, v5) = if ind1.signal_type == TYPE_VOICED {
        pitch_ltp_spec(v4, st, ind1, cond_coding)
    } else {
        (ind1, v4)
    };
    let (seed, v6) = dec8(v5, SILK_UNIFORM4_ICDF@);
    (SideInfoIndicesView { seed: seed as i8, ..ind2 }, v6)
}

/// The indices read before the pitch parameters (frame type, gains, NLSFs,
/// interpolation factor) and the decoder state at that point.
pub open spec fn pre_pitch_spec(
    st: &SilkDecoderState,
    v: DecoderView,
    frame_index: i32,
    decode_lbrr: i32,
    cond_coding: i32,
) -> (SideInfoIndicesView, DecoderView) {
    let ind0 = st.indices@;
    let (ix, v1) = frame_type_spec(v, frame_active(st, frame_index, decode_lbrr));
    let signal_type = ix / 2;
    let (gains, v2) = gains_spec(
        v1,
        cond_coding == CODE_CONDITIONALLY,
        signal_type,
        st.nb_subfr as int,
        ind0.gains_indices,
    );
    let (nlsf, v3) = nlsf_spec(v2, st.ps_nlsf_cb.unwrap(), signal_type, ind0.nlsf_indices);
    let (interp, v4) = interp_spec(v3, st.nb_subfr as int);
    (
        SideInfoIndicesView {
            signal_type: signal_type as i8,
            quant_offset_type: (ix % 2) as i8,
            gains_indices: gains,
            nlsf_indices: nlsf,
            nlsf_interp_coef_q2: interp as i8,
            ..ind0
        },
        v4,
    )
}

/// The pitch lag arithmetic of this frame stays in range: the frame is not
/// voiced, or its lag, read from the decoder state after the indices before
/// it, fits (`lag_arith_fits`).
pub open spec fn pitch_lag_fits(
    st: &SilkDecoderState,
    v: DecoderView,
    frame_index: i32,
    decode_lbrr: i32,
    cond_coding: i32,
) -> bool {
    let (ind1, v4) = pre_pitch_spec(st, v, frame_index, decode_lbrr, cond_coding);
    ind1.signal_type == TYPE_VOICED ==> lag_arith_fits(v4, st, cond_coding == CODE_CONDITIONALLY)
}

/// A stereo predictor in Q13 from its quantization indices: `ix2` picks a group
/// of three intervals, `ix0` the interval between two adjacent levels, and
/// `ix1` one of its five sub-steps (taken at its midpoint).
pub open spec fn stereo_pred_q13_spec(ix0: int, ix1: int, ix2: int) -> int {
    let k = ix0 + 3 * ix2;
    let low = SILK_STEREO_PRED_QUANT_Q13@[k] as int;
    let step = ((SILK_STEREO_PRED_QUANT_Q13@[k + 1] - low) * 6553) / 65536;
    low + step * (2 * ix1 + 1)
}

/// The two stereo prediction weights and the decoder state after them: a joint
/// index for both group choices, then for each predictor a 3-way and a 5-way
/// index. The first weight is returned relative to the second.
pub open spec fn stereo_pred_spec(v: DecoderView) -> (int, int, DecoderView) {
    let (n, v1) = dec8(v, SILK_STEREO_PRED_JOINT_ICDF@);
    let (a0, v2) = dec8(v1, SILK_UNIFORM3_ICDF@);
    let (b0, v3) = dec8(v2, SILK_UNIFORM5_ICDF@);
    let (a1, v4) = dec8(v3, SILK_UNIFORM3_ICDF@);
    let (b1, v5) = dec8(v4, SILK_UNIFORM5_ICDF@);
    let p0 = stereo_pred_q13_spec(a0, b0, n / 5);
    let p1 = stereo_pred_q13_spec(a1, b1, n % 5);
    (p0 - p1, p1, v5)
}

/// Number of sub-steps between two adjacent stereo quantization levels.
pub const STEREO_QUANT_SUB_STEPS: i32 = 5;

/// The stereo quantization levels increase, from -13732 to 13732.
proof fn lemma_stereo_quant_increasing(k: int)
    requires
        0 <= k < 15,
    ensures
        -13732 <= SILK_STEREO_PRED_QUANT_Q13@[k] < SILK_STEREO_PRED_QUANT_Q13@[k + 1] <= 13732,
        SILK_STEREO_PRED_QUANT_Q13@[k + 1] - SILK_STEREO_PRED_QUANT_Q13@[k] <= 3682,
        k == 0 ==> SILK_STEREO_PRED_QUANT_Q13@[k] == -13732 && SILK_STEREO_PRED_QUANT_Q13@[k + 1]
            == -10050,
        k == 14 ==> SILK_STEREO_PRED_QUANT_Q13@[k] == 10050 && SILK_STEREO_PRED_QUANT_Q13@[k + 1]
            == 13732,
        k >= 1 ==> SILK_STEREO_PRED_QUANT_Q13@[k] >= -10050,
        k <= 13 ==> SILK_STEREO_PRED_QUANT_Q13@[k + 1] <= 10050,
{
    let q = SILK_STEREO_PRED_QUANT_Q13@;
    assert(q[0] == -13732 && q[1] == -10050 && q[2] == -8266 && q[3] == -7526);
    assert(q[4] == -6500 && q[5] == -5000 && q[6] == -2950 && q[7] == -820);
    assert(q[8] == 820 && q[9] == 2950 && q[10] == 5000 && q[11] == 6500);
    assert(q[12] == 7526 && q[13] == 8266 && q[14] == 10050 && q[15] == 13732);
}

/// One stereo predictor in Q13 (see `stereo_pred_q13_spec`); it lies between
/// the two quantization levels of its interval, and at least one sub-step
/// inside the outermost levels.
fn stereo_pred_q13(ix0: i32, ix1: i32, ix2: i32) -> (p: i32)
    requires
        0 <= ix0 < 3,
        0 <= ix1 < 5,
        0 <= ix2 < 5,
    ensures
        p == stereo_pred_q13_spec(ix0 as int, ix1 as int, ix2 as int),
        SILK_STEREO_PRED_QUANT_Q13@[ix0 + 3 * ix2] <= p <= SILK_STEREO_PRED_QUANT_Q13@[ix0 + 3
            * ix2 + 1],
        -13364 <= p <= 13362,
{
    let k: i32 = ix0 + 3 * ix2;
    proof {
        lemma_stereo_quant_increasing(k as int);
    }
    let low_q13: i32 = SILK_STEREO_PRED_QUANT_Q13[k as usize] as i32;
    let high_q13: i32 = SILK_STEREO_PRED_QUANT_Q13[(k + 1) as usize] as i32;
    assert((1i32 << 16) == 65536) by (bit_vector);
    let step_q13: i32 = silk_smulwb(high_q13 - low_q13, (1 << 16) / (2 * STEREO_QUANT_SUB_STEPS));
    let ghost d = high_q13 - low_q13;
    assert(0 <= step_q13 <= 368 && step_q13 * (2 * ix1 + 1) <= d) by (nonlinear_arith)
        requires
            step_q13 == (d * 6553) / 65536,
            0 < d <= 3682,
            0 <= ix1 < 5,
    ;
    assert(step_q13 <= step_q13 * (2 * ix1 + 1) <= 9 * step_q13) by (nonlinear_arith)
        requires
            0 <= step_q13,
            0 <= ix1 < 5,
    ;
    assert(d == 3682 ==> step_q13 == 368) by (nonlinear_arith)
        requires
            step_q13 == (d * 6553) / 65536,
    ;
    silk_smlabb(low_q13, step_q13, 2 * ix1 + 1)
}

/// Decodes the two stereo prediction weights in Q13; the first is returned
/// relative to the second. Both weights lie in [-13364, 13362], one sub-step
/// inside the outermost quantization levels.
pub fn silk_stereo_decode_pred(ps_range_dec: &mut RangeCoder) -> (pred_q13: [i32; 2])
    ensures
        ({
            let (p0, p1, w) = stereo_pred_spec(old(ps_range_dec)@);
            pred_q13@[0] == p0 && pred_q13@[1] == p1 && final(ps_range_dec)@ == w
        }),
        -13364 <= pred_q13@[1] <= 13362,
        -13364 <= pred_q13@[0] + pred_q13@[1] <= 13362,
        // The joint index `n` picks the group of the first weight (`n / 5`) and
        // of the second (`n % 5`); each weight lies in the interval between the
        // two quantization levels that its group and 3-way index select.
        ({
            let q = SILK_STEREO_PRED_QUANT_Q13@;
            let (n, v1) = dec8(old(ps_range_dec)@, SILK_STEREO_PRED_JOINT_ICDF@);
            let (a0, v2) = dec8(v1, SILK_UNIFORM3_ICDF@);
            let (b0, v3) = dec8(v2, SILK_UNIFORM5_ICDF@);
            let a1 = dec8(v3, SILK_UNIFORM3_ICDF@).0;
            let k0 = a0 + 3 * (n / 5);
            let k1 = a1 + 3 * (n % 5);
            &&& 0 <= n < 25
            &&& 0 <= a0 < 3
            &&& 0 <= a1 < 3
            &&& q[k0] <= pred_q13@[0] + pred_q13@[1] <= q[k0 + 1]
            &&& q[k1] <= pred_q13@[1] <= q[k1 + 1]
        }),
{
    proof {
        vstd::arithmetic::power2::lemma2_to64();
        assert(SILK_STEREO_PRED_JOINT_ICDF@[24] == 0);
        assert(SILK_UNIFORM3_ICDF@[2] == 0);
        assert(SILK_UNIFORM5_ICDF@[4] == 0);
    }
    let mut pred_q13 = [0i32; 2];

    // Entropy decoding
    let n: i32 = ps_range_dec.decode_icdf(&SILK_STEREO_PRED_JOINT_ICDF, 8);
    let ix0_2: i32 = n / 5;
    let ix1_2: i32 = n - 5 * ix0_2;
    let ix0_0: i32 = ps_range_dec.decode_icdf(&SILK_UNIFORM3_ICDF, 8);
    let ix0_1: i32 = ps_range_dec.decode_icdf(&SILK_UNIFORM5_ICDF, 8);
    let ix1_0: i32 = ps_range_dec.decode_icdf(&SILK_UNIFORM3_ICDF, 8);
    let ix1_1: i32 = ps_range_dec.decode_icdf(&SILK_UNIFORM5_ICDF, 8);

    // Dequantize
    pred_q13[0] = stereo_pred_q13(ix0_0, ix0_1, ix0_2);
    pred_q13[1] = stereo_pred_q13(ix1_0, ix1_1, ix1_2);
    proof {
        lemma_stereo_quant_increasing(ix0_0 + 3 * ix0_2);
        lemma_stereo_quant_increasing(ix1_0 + 3 * ix1_2);
    }

    // Subtract second from first predictor
    pred_q13[0] = pred_q13[0] - pred_q13[1];
    pred_q13
}

/// Decodes whether only the mid channel of a stereo frame is coded.
pub fn silk_stereo_decode_mid_only(ps_range_dec: &mut RangeCoder) -> (mid_only: bool)
    ensures
        ({
            let (s, w) = dec8(old(ps_range_dec)@, SILK_STEREO_ONLY_CODE_MID_ICDF@);
            mid_only == (s != 0) && final(ps_range_dec)@ == w
        }),
{
    proof {
        vstd::arithmetic::power2::lemma2_to64();
        assert(SILK_STEREO_ONLY_CODE_MID_ICDF@[1] == 0);
    }
    ps_range_dec.decode_icdf(&SILK_STEREO_ONLY_CODE_MID_ICDF, 8) != 0
}

/// The LTP filter index bound for periodicity index `per_index` (8, 16 or 32 filters).
pub open spec fn ltp_filter_count(per_index: int) -> int {
    if per_index == 0 {
        8
    } else if per_index == 1 {
        16
    } else {
        32
    }
}

/// Facts about the fixed tables that decoding against them needs: each holds a
/// 0 at its end, and every byte fits in 8 bits of precision.
proof fn lemma_tables_terminated()
    ensures
        vstd::arithmetic::power2::pow2(8) == 256,
        icdf_terminated(SILK_TYPE_OFFSET_VAD_ICDF@),
        icdf_terminated(SILK_TYPE_OFFSET_NO_VAD_ICDF@),
        icdf_terminated(SILK_DELTA_GAIN_ICDF@),
        icdf_terminated(SILK_GAIN_ICDF@[0]@),
        icdf_terminated(SILK_GAIN_ICDF@[1]@),
        icdf_terminated(SILK_GAIN_ICDF@[2]@),
        icdf_terminated(SILK_UNIFORM8_ICDF@),
        icdf_terminated(SILK_NLSF_EXT_ICDF@),
        icdf_terminated(SILK_NLSF_INTERPOLATION_FACTOR_ICDF@),
        icdf_terminated(SILK_PITCH_DELTA_ICDF@),
        icdf_terminated(SILK_PITCH_LAG_ICDF@),
        icdf_terminated(SILK_LTP_PER_INDEX_ICDF@),
        icdf_terminated(SILK_LTP_GAIN_ICDF_0@),
        icdf_terminated(SILK_LTP_GAIN_ICDF_1@),
        icdf_terminated(SILK_LTP_GAIN_ICDF_2@),
        icdf_terminated(SILK_LTPSCALE_ICDF@),
        icdf_terminated(SILK_UNIFORM4_ICDF@),
{
    vstd::arithmetic::power2::lemma2_to64();
    assert(SILK_TYPE_OFFSET_VAD_ICDF@[3] == 0);
    assert(SILK_TYPE_OFFSET_NO_VAD_ICDF@[1] == 0);
    assert(SILK_DELTA_GAIN_ICDF@[40] == 0);
    assert(SILK_GAIN_ICDF@[0]@[7] == 0);
    assert(SILK_GAIN_ICDF@[1]@[7] == 0);
    assert(SILK_GAIN_ICDF@[2]@[7] == 0);
    assert(SILK_UNIFORM8_ICDF@[7] == 0);
    assert(SILK_NLSF_EXT_ICDF@[6] == 0);
    assert(SILK_NLSF_INTERPOLATION_FACTOR_ICDF@[4] == 0);
    assert(SILK_PITCH_DELTA_ICDF@[20] == 0);
    assert(SILK_PITCH_LAG_ICDF@[31] == 0);
    assert(SILK_LTP_PER_INDEX_ICDF@[2] == 0);
    assert(SILK_LTP_GAIN_ICDF_0@[7] == 0);
    assert(SILK_LTP_GAIN_ICDF_1@[15] == 0);
    assert(SILK_LTP_GAIN_ICDF_2@[31] == 0);
    assert(SILK_LTPSCALE_ICDF@[2] == 0);
    assert(SILK_UNIFORM4_ICDF@[3] == 0);
}

/// Every table of 8-bit precision fits its precision.
proof fn lemma_fits8(icdf: Seq<u8>)
    requires
        vstd::arithmetic::power2::pow2(8) == 256,
    ensures
        crate::range_coder::icdf_fits(icdf, 8),
{
}

/// The frame type keeps the decoder invariant and gives a signal type in 0..=2
/// (0 exactly for inactive frames).
proof fn lemma_frame_type(v: DecoderView, active: bool)
    requires
        decoder_inv(v),
    ensures
        decoder_inv(frame_type_spec(v, active).1),
        0 <= frame_type_spec(v, active).0 / 2 <= 2,
        active <==> frame_type_spec(v, active).0 / 2 != 0,
{
    lemma_tables_terminated();
    if active {
        lemma_fits8(SILK_TYPE_OFFSET_VAD_ICDF@);
        lemma_decode_icdf_spec(v, SILK_TYPE_OFFSET_VAD_ICDF@, 8);
    } else {
        lemma_fits8(SILK_TYPE_OFFSET_NO_VAD_ICDF@);
        lemma_decode_icdf_spec(v, SILK_TYPE_OFFSET_NO_VAD_ICDF@, 8);
    }
}

/// Delta-coded gains keep the decoder invariant and the entries before `i`.
proof fn lemma_delta_gains(v: DecoderView, g: Seq<i8>, i: int, n: int)
    requires
        decoder_inv(v),
        0 <= i,
        n <= g.len(),
    ensures
        decoder_inv(delta_gains_spec(v, g, i, n).1),
        delta_gains_spec(v, g, i, n).0.len() == g.len(),
        forall|j: int| 0 <= j < i && j < g.len() ==> #[trigger] delta_gains_spec(v, g, i, n).0[j] == g[j],
    decreases n - i,
{
    if i < n {
        lemma_tables_terminated();
        lemma_fits8(SILK_DELTA_GAIN_ICDF@);
        lemma_decode_icdf_spec(v, SILK_DELTA_GAIN_ICDF@, 8);
        let (s, w) = dec8(v, SILK_DELTA_GAIN_ICDF@);
        lemma_delta_gains(w, g.update(i, s as i8), i + 1, n);
    }
}

/// The NLSF residuals are written after the first-stage index and leave it as it is.
proof fn lemma_nlsf_residuals_keep_first(
    v: DecoderView,
    cb: &SilkNlsfCb,
    cb1_index: int,
    nlsf: Seq<i8>,
    i: int,
    order: int,
)
    requires
        0 <= i,
        order < nlsf.len(),
    ensures
        nlsf_residuals_spec(v, cb, cb1_index, nlsf, i, order).0[0] == nlsf[0],
    decreases order - i,
{
    if i < order {
        let (ix, w) = nlsf_residual_spec(v, cb.ec_icdf@, nlsf_ec_ix_spec(cb, cb1_index, i));
        let n2 = nlsf.update(i + 1, (ix - NLSF_QUANT_MAX_AMPLITUDE) as i8);
        lemma_nlsf_residuals_keep_first(w, cb, cb1_index, n2, i + 1, order);
    }
}

/// The gains keep the decoder invariant; the first gain is the delta-gain
/// symbol in conditional coding, else 8 times the symbol read with the table
/// of the signal type plus the uniform 3-bit symbol read next.
proof fn lemma_gains(v1: DecoderView, conditional: bool, signal_type: int, nb_subfr: int, g: Seq<i8>)
    requires
        decoder_inv(v1),
        0 <= signal_type <= 2,
        0 <= nb_subfr <= g.len(),
        g.len() >= 1,
    ensures
        ({
            let (gs, v2) = gains_spec(v1, conditional, signal_type, nb_subfr, g);
            let (msb, w1) = dec8(v1, SILK_GAIN_ICDF@[signal_type]@);
            let lsb = dec8(w1, SILK_UNIFORM8_ICDF@).0;
            &&& decoder_inv(v2)
            &&& conditional ==> gs[0] == dec8(v1, SILK_DELTA_GAIN_ICDF@).0
            &&& !conditional ==> {
                &&& 0 <= msb < 8
                &&& 0 <= lsb < 8
                &&& gs[0] == 8 * msb + lsb
            }
        }),
{
    lemma_tables_terminated();
    let (g0, w) = if conditional {
        dec8(v1, SILK_DELTA_GAIN_ICDF@)
    } else {
        let (msb, w1) = dec8(v1, SILK_GAIN_ICDF@[signal_type]@);
        let (lsb, w2) = dec8(w1, SILK_UNIFORM8_ICDF@);
        (msb * 8 + lsb, w2)
    };
    if conditional {
        lemma_fits8(SILK_DELTA_GAIN_ICDF@);
        lemma_decode_icdf_spec(v1, SILK_DELTA_GAIN_ICDF@, 8);
    } else {
        lemma_fits8(SILK_GAIN_ICDF@[signal_type]@);
        lemma_decode_icdf_spec(v1, SILK_GAIN_ICDF@[signal_type]@, 8);
        let w1 = dec8(v1, SILK_GAIN_ICDF@[signal_type]@).1;
        lemma_fits8(SILK_UNIFORM8_ICDF@);
        lemma_decode_icdf_spec(w1, SILK_UNIFORM8_ICDF@, 8);
    }
    lemma_delta_gains(w, g.update(0, g0 as i8), 1, nb_subfr);
}

/// In an independently coded frame the first gain is 8 times the symbol read
/// right after the frame type with the gain table of the frame's signal type,
/// plus the uniform 3-bit symbol read next; in a conditionally coded frame it
/// is the delta-gain symbol read right after the frame type.
pub proof fn lemma_first_gain(
    st: &SilkDecoderState,
    v: DecoderView,
    frame_index: i32,
    decode_lbrr: i32,
    cond_coding: i32,
)
    requires
        decoder_inv(v),
        st.indices_decodable(),
    ensures
        ({
            let ind = decode_indices_spec(st, v, frame_index, decode_lbrr, cond_coding).0;
            let v1 = frame_type_spec(v, frame_active(st, frame_index, decode_lbrr)).1;
            let (msb, w1) = dec8(v1, SILK_GAIN_ICDF@[ind.signal_type as int]@);
            let lsb = dec8(w1, SILK_UNIFORM8_ICDF@).0;
            &&& cond_coding == CODE_CONDITIONALLY ==> ind.gains_indices[0] == dec8(
                v1,
                SILK_DELTA_GAIN_ICDF@,
            ).0
            &&& cond_coding != CODE_CONDITIONALLY ==> {
                &&& 0 <= msb < 8
                &&& 0 <= lsb < 8
                &&& ind.gains_indices[0] == 8 * msb + lsb
            }
        }),
{
    let active = frame_active(st, frame_index, decode_lbrr);
    let (ix, v1) = frame_type_spec(v, active);
    lemma_frame_type(v, active);
    lemma_gains(
        v1,
        cond_coding == CODE_CONDITIONALLY,
        ix / 2,
        st.nb_subfr as int,
        st.indices@.gains_indices,
    );
    let (ind1, v4) = pre_pitch_spec(st, v, frame_index, decode_lbrr, cond_coding);
    assert(ind1.gains_indices[0] == decode_indices_spec(st, v, frame_index, decode_lbrr, cond_coding).0.gains_indices[0]);
}

/// The first-stage NLSF index is the symbol read right after the gains
/// against the row of the codebook for the frame's signal type: the first
/// `n_vectors` entries for inactive and unvoiced frames, the next ones for
/// voiced frames.
pub proof fn lemma_nlsf_first_stage_row(
    st: &SilkDecoderState,
    v: DecoderView,
    frame_index: i32,
    decode_lbrr: i32,
    cond_coding: i32,
)
    requires
        decoder_inv(v),
        st.indices_decodable(),
    ensures
        ({
            let ind = decode_indices_spec(st, v, frame_index, decode_lbrr, cond_coding).0;
            let (ix, v1) = frame_type_spec(v, frame_active(st, frame_index, decode_lbrr));
            let v2 = gains_spec(
                v1,
                cond_coding == CODE_CONDITIONALLY,
                ix / 2,
                st.nb_subfr as int,
                st.indices@.gains_indices,
            ).1;
            let (k, w) = dec8(v2, nlsf_cb1_row(st.ps_nlsf_cb.unwrap(), ind.signal_type as int));
            &&& 0 <= k < st.ps_nlsf_cb.unwrap().n_vectors
            &&& ind.nlsf_indices[0] == k
        }),
{
    lemma_tables_terminated();
    let cb = st.ps_nlsf_cb.unwrap();
    let n = cb.n_vectors as int;
    let active = frame_active(st, frame_index, decode_lbrr);
    let (ix, v1) = frame_type_spec(v, active);
    lemma_frame_type(v, active);
    let signal_type = ix / 2;
    let conditional = cond_coding == CODE_CONDITIONALLY;
    lemma_gains(v1, conditional, signal_type, st.nb_subfr as int, st.indices@.gains_indices);
    let v2 = gains_spec(v1, conditional, signal_type, st.nb_subfr as int, st.indices@.gains_indices).1;
    let row_start = (signal_type / 2) * n;
    let tail = cb.cb1_icdf@.subrange(row_start, cb.cb1_icdf@.len() as int);
    let row = nlsf_cb1_row(cb, signal_type);
    if signal_type == TYPE_VOICED {
        assert(row_start == n) by (nonlinear_arith)
            requires
                row_start == (signal_type / 2) * n,
                signal_type == 2,
        ;
    } else {
        assert(row_start == 0) by (nonlinear_arith)
            requires
                row_start == (signal_type / 2) * n,
                0 <= signal_type < 2,
        ;
    }
    assert(tail.subrange(0, n) =~= row);
    assert(row[n - 1] == 0);
    lemma_decode_icdf_prefix(v2, tail, n, 8);
    lemma_fits8(row);
    assert(icdf_terminated(row));
    lemma_decode_icdf_spec(v2, row, 8);
    let (cb1, w3) = dec8(v2, tail);
    let nl = st.indices@.nlsf_indices.update(0, cb1 as i8);
    lemma_nlsf_residuals_keep_first(w3, cb, cb1, nl, 0, cb.order as int);
}

/// A stereo predictor lies between the two quantization levels of the
/// interval that its group `ix2` and 3-way index `ix0` select.
proof fn lemma_stereo_pred_q13_bracket(ix0: int, ix1: int, ix2: int)
    requires
        0 <= ix0 < 3,
        0 <= ix1 < 5,
        0 <= ix2 < 5,
    ensures
        SILK_STEREO_PRED_QUANT_Q13@[ix0 + 3 * ix2] <= stereo_pred_q13_spec(ix0, ix1, ix2)
            <= SILK_STEREO_PRED_QUANT_Q13@[ix0 + 3 * ix2 + 1],
{
    let k = ix0 + 3 * ix2;
    lemma_stereo_quant_increasing(k);
    let low = SILK_STEREO_PRED_QUANT_Q13@[k] as int;
    let d = SILK_STEREO_PRED_QUANT_Q13@[k + 1] - low;
    let step = (d * 6553) / 65536;
    assert(0 <= step && step * (2 * ix1 + 1) <= d) by (nonlinear_arith)
        requires
            step == (d * 6553) / 65536,
            0 < d <= 3682,
            0 <= ix1 < 5,
    ;
    assert(0 <= step * (2 * ix1 + 1)) by (nonlinear_arith)
        requires
            0 <= step,
            0 <= ix1,
    ;
}

/// The joint index `n` read first picks the group of the first stereo weight
/// (`n / 5`) and of the second (`n % 5`); with the 3-way indices read second
/// and fourth, each weight lies between the two quantization levels that its
/// group and 3-way index select (the first weight being returned relative to
/// the second).
pub proof fn lemma_stereo_pred_groups(v: DecoderView)
    requires
        decoder_inv(v),
    ensures
        ({
            let q = SILK_STEREO_PRED_QUANT_Q13@;
            let (d0, p1, w) = stereo_pred_spec(v);
            let (n, v1) = dec8(v, SILK_STEREO_PRED_JOINT_ICDF@);
            let (a0, v2) = dec8(v1, SILK_UNIFORM3_ICDF@);
            let (b0, v3) = dec8(v2, SILK_UNIFORM5_ICDF@);
            let a1 = dec8(v3, SILK_UNIFORM3_ICDF@).0;
            let k0 = a0 + 3 * (n / 5);
            let k1 = a1 + 3 * (n % 5);
            &&& 0 <= n < 25
            &&& 0 <= a0 < 3
            &&& 0 <= a1 < 3
            &&& q[k0] <= d0 + p1 <= q[k0 + 1]
            &&& q[k1] <= p1 <= q[k1 + 1]
        }),
{
    vstd::arithmetic::power2::lemma2_to64();
    assert(SILK_STEREO_PRED_JOINT_ICDF@[24] == 0);
    assert(SILK_UNIFORM3_ICDF@[2] == 0);
    assert(SILK_UNIFORM5_ICDF@[4] == 0);
    lemma_fits8(SILK_STEREO_PRED_JOINT_ICDF@);
    lemma_fits8(SILK_UNIFORM3_ICDF@);
    lemma_fits8(SILK_UNIFORM5_ICDF@);
    let (n, v1) = dec8(v, SILK_STEREO_PRED_JOINT_ICDF@);
    lemma_decode_icdf_spec(v, SILK_STEREO_PRED_JOINT_ICDF@, 8);
    let (a0, v2) = dec8(v1, SILK_UNIFORM3_ICDF@);
    lemma_decode_icdf_spec(v1, SILK_UNIFORM3_ICDF@, 8);
    let (b0, v3) = dec8(v2, SILK_UNIFORM5_ICDF@);
    lemma_decode_icdf_spec(v2, SILK_UNIFORM5_ICDF@, 8);
    let (a1, v4) = dec8(v3, SILK_UNIFORM3_ICDF@);
    lemma_decode_icdf_spec(v3, SILK_UNIFORM3_ICDF@, 8);
    let (b1, v5) = dec8(v4, SILK_UNIFORM5_ICDF@);
    lemma_decode_icdf_spec(v4, SILK_UNIFORM5_ICDF@, 8);
    lemma_stereo_pred_q13_bracket(a0, b0, n / 5);
    lemma_stereo_pred_q13_bracket(a1, b1, n % 5);
}

/// The gains of the subframes of one frame.
fn decode_gains(
    ps_range_dec: &mut RangeCoder,
    gains: &mut [i8; 4],
    conditional: bool,
    signal_type: i8,
    nb_subfr: i32,
)
    requires
        0 <= signal_type <= 2,
        0 <= nb_subfr <= 4,
    ensures
        (final(gains)@, final(ps_range_dec)@) == gains_spec(
            old(ps_range_dec)@,
            conditional,
            signal_type as int,
            nb_subfr as int,
            old(gains)@,
        ),
        0 <= final(gains)@[0] <= 63,
        conditional ==> final(gains)@[0] <= 40,
        conditional ==> final(gains)@[0] == dec8(old(ps_range_dec)@, SILK_DELTA_GAIN_ICDF@).0,
        !conditional ==> ({
            let (msb, w1) = dec8(old(ps_range_dec)@, SILK_GAIN_ICDF@[signal_type as int]@);
            let lsb = dec8(w1, SILK_UNIFORM8_ICDF@).0;
            &&& 0 <= msb < 8
            &&& 0 <= lsb < 8
            &&& final(gains)@[0] == 8 * msb + lsb
        }),
        forall|j: int| 1 <= j < nb_subfr ==> 0 <= #[trigger] final(gains)@[j] <= 40,
{
    proof {
        lemma_tables_terminated();
    }
    let ghost v1 = ps_range_dec@;
    let ghost g1 = gains@;
    if conditional {
        gains[0] = ps_range_dec.decode_icdf(&SILK_DELTA_GAIN_ICDF, 8) as i8;
    } else {
        let msb: i32 = ps_range_dec.decode_icdf(&SILK_GAIN_ICDF[signal_type as usize], 8);
        assert(msb << 3 == msb * 8) by (bit_vector)
            requires
                0 <= msb < 8,
        ;
        gains[0] = (msb << 3) as i8;
        gains[0] = gains[0] + ps_range_dec.decode_icdf(&SILK_UNIFORM8_ICDF, 8) as i8;
    }
    let ghost v_g = ps_range_dec@;
    let ghost g_g = gains@;
    proof {
        let (g0, w) = if conditional {
            dec8(v1, SILK_DELTA_GAIN_ICDF@)
        } else {
            let (msb, w1) = dec8(v1, SILK_GAIN_ICDF@[signal_type as int]@);
            let (lsb, w2) = dec8(w1, SILK_UNIFORM8_ICDF@);
            (msb * 8 + lsb, w2)
        };
        assert(w == v_g);
        assert(g_g =~= g1.update(0, g0 as i8));
    }
    let mut i: usize = 1;
    while i < nb_subfr as usize
        invariant
            vstd::arithmetic::power2::pow2(8) == 256,
            icdf_terminated(SILK_DELTA_GAIN_ICDF@),
            0 <= nb_subfr <= 4,
            1 <= i,
            nb_subfr >= 1 ==> i <= nb_subfr,
            delta_gains_spec(ps_range_dec@, gains@, i as int, nb_subfr as int) == delta_gains_spec(
                v_g,
                g_g,
                1,
                nb_subfr as int,
            ),
            gains@[0] == g_g[0],
            forall|j: int| 1 <= j < i ==> 0 <= #[trigger] gains@[j] <= 40,
        decreases nb_subfr - i,
    {
        let ghost g_before = gains@;
        gains[i] = ps_range_dec.decode_icdf(&SILK_DELTA_GAIN_ICDF, 8) as i8;
        assert(gains@ =~= g_before.update(i as int, gains@[i as int]));
        i = i + 1;
    }
}

/// The NLSF indices of one frame: the first-stage index and the residuals.
fn decode_nlsf(
    ps_range_dec: &mut RangeCoder,
    nlsf: &mut [i8; 17],
    nlsf_cb: &SilkNlsfCb,
    signal_type: i8,
)
    requires
        0 <= signal_type <= 2,
        nlsf_cb.wf(),
    ensures
        (final(nlsf)@, final(ps_range_dec)@) == nlsf_spec(
            old(ps_range_dec)@,
            nlsf_cb,
            signal_type as int,
            old(nlsf)@,
        ),
        0 <= final(nlsf)@[0] < nlsf_cb.n_vectors,
        forall|j: int| 1 <= j <= nlsf_cb.order ==> -10 <= #[trigger] final(nlsf)@[j] <= 10,
        final(nlsf)@[0] == dec8(
            old(ps_range_dec)@,
            nlsf_cb1_row(nlsf_cb, signal_type as int),
        ).0,
{
    proof {
        lemma_tables_terminated();
    }
    let ghost v2 = ps_range_dec@;
    let ghost n0 = nlsf@;
    assert((signal_type >> 1) == signal_type / 2) by (bit_vector)
        requires
            0 <= signal_type <= 2,
    ;
    let class: usize = (signal_type >> 1) as usize;
    let n_vectors: usize = nlsf_cb.n_vectors as usize;
    assert(class * n_vectors <= n_vectors && class * n_vectors == (signal_type / 2) * n_vectors
        && (class * n_vectors == 0 || class * n_vectors == n_vectors)) by (nonlinear_arith)
        requires
            class == signal_type / 2,
            0 <= signal_type <= 2,
            n_vectors >= 0,
    ;
    let row_start: usize = class * n_vectors;
    let cb1_icdf = vstd::slice::slice_subrange(nlsf_cb.cb1_icdf, row_start, nlsf_cb.cb1_icdf.len());
    assert(cb1_icdf@[nlsf_cb.n_vectors - 1] == 0);
    let cb1_index: i32 = ps_range_dec.decode_icdf(cb1_icdf, 8);
    proof {
        let n = nlsf_cb.n_vectors as int;
        lemma_decode_icdf_prefix(v2, cb1_icdf@, n, 8);
        if signal_type == TYPE_VOICED {
            assert(class == 1);
            assert(row_start == n) by (nonlinear_arith)
                requires
                    class == 1,
                    row_start == class * n_vectors,
                    n_vectors == n,
            ;
        } else {
            assert(class == 0);
            assert(row_start == 0) by (nonlinear_arith)
                requires
                    class == 0,
                    row_start == class * n_vectors,
            ;
        }
        assert(row_start == if signal_type == TYPE_VOICED {
            n
        } else {
            0
        });
        assert(cb1_icdf@.subrange(0, n) =~= nlsf_cb1_row(nlsf_cb, signal_type as int));
    }
    nlsf[0] = cb1_index as i8;
    let mut ec_ix: [i16; 16] = [0; 16];
    let mut pred_q8: [u8; 16] = [0; 16];
    let order: usize = nlsf_cb.order as usize;
    proof {
        let h = order / 2;
        assert((cb1_index * order) / 2 + order / 2 <= nlsf_cb.n_vectors * order / 2) by (nonlinear_arith)
            requires
                order == 2 * h,
                0 <= cb1_index < nlsf_cb.n_vectors,
                h >= 0,
        ;
        assert(cb1_index * order <= 128 * 16) by (nonlinear_arith)
            requires
                0 <= cb1_index < 128,
                0 <= order <= 16,
        ;
    }
    silk_nlsf_unpack(&mut ec_ix, &mut pred_q8, nlsf_cb, nlsf[0] as usize);
    let ghost v_n = ps_range_dec@;
    let ghost n_n = nlsf@;
    assert(n_n =~= n0.update(0, cb1_index as i8));
    let mut i: usize = 0;
    while i < order
        invariant
            vstd::arithmetic::power2::pow2(8) == 256,
            icdf_terminated(SILK_NLSF_EXT_ICDF@),
            nlsf_cb.wf(),
            order == nlsf_cb.order,
            0 <= cb1_index < nlsf_cb.n_vectors,
            forall|j: int|
                0 <= j < order ==> ec_ix@[j] == nlsf_ec_ix_spec(nlsf_cb, cb1_index as int, j),
            i <= order,
            nlsf_residuals_spec(
                ps_range_dec@,
                nlsf_cb,
                cb1_index as int,
                nlsf@,
                i as int,
                order as int,
            ) == nlsf_residuals_spec(v_n, nlsf_cb, cb1_index as int, n_n, 0, order as int),
            nlsf@[0] == n_n[0],
            forall|j: int| 1 <= j <= i ==> -10 <= #[trigger] nlsf@[j] <= 10,
        decreases order - i,
    {
        let off: usize = ec_ix[i] as usize;
        let ghost row = nlsf_ec_row(nlsf_cb, cb1_index as int, i as int);
        assert(0 <= off + 8 < 72 && (off + 8) % 9 == 8) by (nonlinear_arith)
            requires
                off == row * 9,
                0 <= row < 8,
        ;
        let ec_icdf = vstd::slice::slice_subrange(nlsf_cb.ec_icdf, off, nlsf_cb.ec_icdf.len());
        assert(ec_icdf@[8] == 0);
        let mut ix: i32 = ps_range_dec.decode_icdf(ec_icdf, 8);
        if ix == 0 {
            ix = ix - ps_range_dec.decode_icdf(&SILK_NLSF_EXT_ICDF, 8);
        } else if ix == 2 * NLSF_QUANT_MAX_AMPLITUDE {
            ix = ix + ps_range_dec.decode_icdf(&SILK_NLSF_EXT_ICDF, 8);
        }
        let ghost n_before = nlsf@;
        nlsf[i + 1] = (ix - NLSF_QUANT_MAX_AMPLITUDE) as i8;
        assert(nlsf@ =~= n_before.update(i + 1, (ix - NLSF_QUANT_MAX_AMPLITUDE) as i8));
        i = i + 1;
    }
}

/// The range of a decoded pitch lag index: within -8..=+11 of the previous
/// one when it is delta-coded; else an absolute lag, which, for a sampling
/// rate and low-bits table under which no absolute lag leaves the `i16`
/// range, lies below `31 * (fs_khz / 2)` plus the size of the low-bits table.
pub open spec fn lag_in_range(st: &SilkDecoderState, cond_coding: i32, lag: int) -> bool {
    ||| cond_coding == CODE_CONDITIONALLY && st.ec_prev_signal_type == TYPE_VOICED
        && st.ec_prev_lag_index - 8 <= lag <= st.ec_prev_lag_index + 11
    ||| (0 <= st.fs_khz && 31 * (st.fs_khz / 2) + st.pitch_lag_low_bits_icdf@.len() <= 32768
        ==> 0 <= lag < 31 * (st.fs_khz / 2) + st.pitch_lag_low_bits_icdf@.len())
}

/// The pitch lag, contour, periodicity, LTP filter and LTP scaling indices of
/// a voiced frame, read into `ind`.
fn decode_pitch_ltp(
    ps_dec: &SilkDecoderState,
    ps_range_dec: &mut RangeCoder,
    ind: &mut crate::silk::decoder_structs::SideInfoIndices,
    cond_coding: i32,
)
    requires
        ps_dec.indices_decodable(),
        lag_state_bounds(ps_dec, cond_coding) || lag_arith_fits(
            old(ps_range_dec)@,
            ps_dec,
            cond_coding == CODE_CONDITIONALLY,
        ),
    ensures
        (final(ind)@, final(ps_range_dec)@) == pitch_ltp_spec(
            old(ps_range_dec)@,
            ps_dec,
            old(ind)@,
            cond_coding,
        ),
        0 <= final(ind).per_index <= 2,
        0 <= final(ind).ltp_scale_index <= 2,
        forall|k: int|
            0 <= k < ps_dec.nb_subfr ==> 0 <= #[trigger] final(ind).ltp_index@[k] < ltp_filter_count(
                final(ind).per_index as int,
            ),
        ps_dec.pitch_contour_icdf@.len() <= 128 ==> 0 <= final(ind).contour_index
            < ps_dec.pitch_contour_icdf@.len(),
        lag_in_range(ps_dec, cond_coding, final(ind).lag_index as int),
{
    proof {
        lemma_tables_terminated();
    }
    let ghost v4 = ps_range_dec@;
    let ghost ind1 = ind@;
    let nb_subfr: i32 = ps_dec.nb_subfr;

    // Pitch lag
    let mut decode_absolute_lag_index = true;
    if cond_coding == CODE_CONDITIONALLY && ps_dec.ec_prev_signal_type == TYPE_VOICED {
        let delta_lag_index: i16 = ps_range_dec.decode_icdf(&SILK_PITCH_DELTA_ICDF, 8) as i16;
        if delta_lag_index > 0 {
            ind.lag_index = ps_dec.ec_prev_lag_index + delta_lag_index - 9;
            decode_absolute_lag_index = false;
        }
    }
    if decode_absolute_lag_index {
        let hi: i32 = ps_range_dec.decode_icdf(&SILK_PITCH_LAG_ICDF, 8);
        let fs_khz: i32 = ps_dec.fs_khz;
        assert(fs_khz >> 1 == fs_khz / 2) by (bit_vector);
        let ghost w2 = ps_range_dec@;
        let ghost lo_spec = dec8(w2, ps_dec.pitch_lag_low_bits_icdf@).0;
        proof {
            if 0 <= fs_khz {
                assert(0 <= hi * (fs_khz / 2) <= 31 * (fs_khz / 2)) by (nonlinear_arith)
                    requires
                        0 <= hi < 32,
                        0 <= fs_khz,
                ;
            }
        }
        let h: i32 = hi * (fs_khz >> 1);
        ind.lag_index = #[verifier::truncate] (h as i16);
        let lo: i32 = ps_range_dec.decode_icdf(ps_dec.pitch_lag_low_bits_icdf, 8);
        let lo16: i16 = #[verifier::truncate] (lo as i16);
        ind.lag_index = ind.lag_index + lo16;
    }
    let ghost v_l = ps_range_dec@;
    assert((ind.lag_index as int, v_l) == lag_spec(v4, ps_dec, cond_coding == CODE_CONDITIONALLY));

    // Pitch contour
    ind.contour_index = #[verifier::truncate] (ps_range_dec.decode_icdf(
        ps_dec.pitch_contour_icdf,
        8,
    ) as i8);

    // LTP filters
    ind.per_index = ps_range_dec.decode_icdf(&SILK_LTP_PER_INDEX_ICDF, 8) as i8;
    let ltp_icdf = silk_ltp_gain_icdf(ind.per_index as usize);
    let ghost v_p = ps_range_dec@;
    let mut ltp: [i8; 4] = ind.ltp_index;
    let ghost l_p = ltp@;
    let ghost per = ind.per_index as int;
    proof {
        assert(ltp_icdf@.len() == ltp_filter_count(per));
        assert(ltp_icdf@[ltp_filter_count(per) - 1] == 0);
    }
    let mut k: usize = 0;
    while k < nb_subfr as usize
        invariant
            vstd::arithmetic::power2::pow2(8) == 256,
            0 <= nb_subfr <= 4,
            k <= nb_subfr,
            ltp_icdf@.len() == ltp_filter_count(per),
            ltp_icdf@[ltp_filter_count(per) - 1] == 0,
            ltp_indices_spec(ps_range_dec@, ltp_icdf@, ltp@, k as int, nb_subfr as int)
                == ltp_indices_spec(v_p, ltp_icdf@, l_p, 0, nb_subfr as int),
            forall|j: int| 0 <= j < k ==> 0 <= #[trigger] ltp@[j] < ltp_filter_count(per),
        decreases nb_subfr - k,
    {
        let ghost l_before = ltp@;
        ltp[k] = ps_range_dec.decode_icdf(ltp_icdf, 8) as i8;
        assert(ltp@ =~= l_before.update(k as int, ltp@[k as int]));
        k = k + 1;
    }
    ind.ltp_index = ltp;

    // LTP scaling
    if cond_coding == CODE_INDEPENDENTLY {
        ind.ltp_scale_index = ps_range_dec.decode_icdf(&SILK_LTPSCALE_ICDF, 8) as i8;
    } else {
        ind.ltp_scale_index = 0;
    }
}

/// Decodes the side information of frame `frame_index` of a packet (of its
/// low-bitrate redundancy copy when `decode_lbrr != 0`) into `ps_dec.indices`;
/// `cond_coding` is one of the `CODE_*` modes.
pub fn silk_decode_indices(
    ps_dec: &mut SilkDecoderState,
    ps_range_dec: &mut RangeCoder,
    frame_index: i32,
    decode_lbrr: i32,
    cond_coding: i32,
)
    requires
        old(ps_dec).indices_decodable(),
        decode_lbrr == 0 ==> 0 <= frame_index < MAX_FRAMES_PER_PACKET,
        lag_state_bounds(old(ps_dec), cond_coding) || pitch_lag_fits(
            old(ps_dec),
            old(ps_range_dec)@,
            frame_index,
            decode_lbrr,
            cond_coding,
        ),
    ensures
        ({
            let (ind, w) = decode_indices_spec(
                old(ps_dec),
                old(ps_range_dec)@,
                frame_index,
                decode_lbrr,
                cond_coding,
            );
            final(ps_dec).indices@ == ind && final(ps_range_dec)@ == w
        }),
        final(ps_dec).ec_prev_signal_type == final(ps_dec).indices.signal_type,
        final(ps_dec).ec_prev_lag_index == if final(ps_dec).indices.signal_type == TYPE_VOICED {
            final(ps_dec).indices.lag_index
        } else {
            old(ps_dec).ec_prev_lag_index
        },
        final(ps_dec).vad_flags == old(ps_dec).vad_flags,
        final(ps_dec).nb_subfr == old(ps_dec).nb_subfr,
        final(ps_dec).ps_nlsf_cb == old(ps_dec).ps_nlsf_cb,
        final(ps_dec).fs_khz == old(ps_dec).fs_khz,
        final(ps_dec).pitch_lag_low_bits_icdf == old(ps_dec).pitch_lag_low_bits_icdf,
        final(ps_dec).pitch_contour_icdf == old(ps_dec).pitch_contour_icdf,
        // Ranges of the decoded indices.
        0 <= final(ps_dec).indices.signal_type <= 2,
        frame_active(old(ps_dec), frame_index, decode_lbrr) <==> final(ps_dec).indices.signal_type
            != 0,
        0 <= final(ps_dec).indices.quant_offset_type <= 1,
        forall|i: int|
            0 <= i < old(ps_dec).nb_subfr ==> 0 <= #[trigger] final(ps_dec).indices.gains_indices@[i]
                <= 63,
        forall|i: int|
            0 <= i < old(ps_dec).nb_subfr && (i > 0 || cond_coding == CODE_CONDITIONALLY) ==> 
            #[trigger] final(ps_dec).indices.gains_indices@[i] <= 40,
        0 <= final(ps_dec).indices.nlsf_indices@[0] < old(ps_dec).ps_nlsf_cb.unwrap().n_vectors,
        forall|i: int|
            1 <= i <= old(ps_dec).ps_nlsf_cb.unwrap().order ==> -10
                <= #[trigger] final(ps_dec).indices.nlsf_indices@[i] <= 10,
        0 <= final(ps_dec).indices.nlsf_interp_coef_q2 <= 4,
        final(ps_dec).indices.signal_type == TYPE_VOICED ==> {
            &&& lag_in_range(old(ps_dec), cond_coding, final(ps_dec).indices.lag_index as int)
            &&& old(ps_dec).pitch_contour_icdf@.len() <= 128 ==> 0
                <= final(ps_dec).indices.contour_index < old(ps_dec).pitch_contour_icdf@.len()
            &&& 0 <= final(ps_dec).indices.per_index <= 2
            &&& 0 <= final(ps_dec).indices.ltp_scale_index <= 2
            &&& cond_coding != CODE_INDEPENDENTLY ==> final(ps_dec).indices.ltp_scale_index == 0
            &&& forall|k: int|
                0 <= k < old(ps_dec).nb_subfr ==> 0 <= #[trigger] final(ps_dec).indices.ltp_index@[k]
                    < ltp_filter_count(final(ps_dec).indices.per_index as int)
        },
        0 <= final(ps_dec).indices.seed <= 3,
        // The first gain, read right after the frame type: delta-coded in
        // conditional coding, else 3 bits read with the table of the signal
        // type followed by 3 uniform bits.
        ({
            let v1 = frame_type_spec(
                old(ps_range_dec)@,
                frame_active(old(ps_dec), frame_index, decode_lbrr),
            ).1;
            let g0 = final(ps_dec).indices.gains_indices@[0];
            let (msb, w1) = dec8(v1, SILK_GAIN_ICDF@[final(ps_dec).indices.signal_type as int]@);
            let lsb = dec8(w1, SILK_UNIFORM8_ICDF@).0;
            &&& cond_coding == CODE_CONDITIONALLY ==> g0 == dec8(v1, SILK_DELTA_GAIN_ICDF@).0
            &&& cond_coding != CODE_CONDITIONALLY ==> {
                &&& 0 <= msb < 8
                &&& 0 <= lsb < 8
                &&& g0 == 8 * msb + lsb
            }
        }),
        // The first-stage NLSF index, read right after the gains against the
        // row of the codebook for the signal type.
        ({
            let (ix, v1) = frame_type_spec(
                old(ps_range_dec)@,
                frame_active(old(ps_dec), frame_index, decode_lbrr),
            );
            let v2 = gains_spec(
                v1,
                cond_coding == CODE_CONDITIONALLY,
                ix / 2,
                old(ps_dec).nb_subfr as int,
                old(ps_dec).indices@.gains_indices,
            ).1;
            final(ps_dec).indices.nlsf_indices@[0] == dec8(
                v2,
                nlsf_cb1_row(
                    old(ps_dec).ps_nlsf_cb.unwrap(),
                    final(ps_dec).indices.signal_type as int,
                ),
            ).0
        }),
{
    proof {
        lemma_tables_terminated();
    }
    let ghost st0 = *ps_dec;
    let ghost v0 = ps_range_dec@;
    let mut ind = ps_dec.indices;

    // Frame type
    let ix: i32;
    if decode_lbrr != 0 || ps_dec.vad_flags[frame_index as usize] != 0 {
        ix = ps_range_dec.decode_icdf(&SILK_TYPE_OFFSET_VAD_ICDF, 8) + 2;
    } else {
        ix = ps_range_dec.decode_icdf(&SILK_TYPE_OFFSET_NO_VAD_ICDF, 8);
    }
    assert(ix >> 1 == ix / 2 && ix & 1 == ix % 2) by (bit_vector)
        requires
            0 <= ix < 8,
    ;
    ind.signal_type = (ix >> 1) as i8;
    ind.quant_offset_type = (ix & 1) as i8;
    let ghost v1 = ps_range_dec@;

    // Gains
    decode_gains(
        ps_range_dec,
        &mut ind.gains_indices,
        cond_coding == CODE_CONDITIONALLY,
        ind.signal_type,
        ps_dec.nb_subfr,
    );
    let ghost v2 = ps_range_dec@;

    // NLSF indices
    decode_nlsf(ps_range_dec, &mut ind.nlsf_indices, ps_dec.ps_nlsf_cb.unwrap(), ind.signal_type);
    let ghost v3 = ps_range_dec@;

    // NLSF interpolation factor
    if ps_dec.nb_subfr == MAX_NB_SUBFR as i32 {
        ind.nlsf_interp_coef_q2 = ps_range_dec.decode_icdf(&SILK_NLSF_INTERPOLATION_FACTOR_ICDF, 8) as i8;
    } else {
        ind.nlsf_interp_coef_q2 = 4;
    }
    let ghost v4 = ps_range_dec@;
    let ghost ind1 = ind@;
    assert((ind1, v4) == pre_pitch_spec(&st0, v0, frame_index, decode_lbrr, cond_coding));

    if ind.signal_type == TYPE_VOICED as i8 {
        assert(lag_state_bounds(ps_dec, cond_coding) || lag_arith_fits(
            v4,
            ps_dec,
            cond_coding == CODE_CONDITIONALLY,
        ));
        decode_pitch_ltp(ps_dec, ps_range_dec, &mut ind, cond_coding);
        ps_dec.ec_prev_lag_index = ind.lag_index;
    }
    ps_dec.ec_prev_signal_type = ind.signal_type as i32;

    // Seed
    ind.seed = ps_range_dec.decode_icdf(&SILK_UNIFORM4_ICDF, 8) as i8;
    ps_dec.indices = ind;
}

} // verus!
