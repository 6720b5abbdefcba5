//! Fixed probability tables (inverse cumulative distributions in units of
//! 1/256) and quantization tables of the SILK layer.
use vstd::prelude::*;

verus! {

/// Frame type (signal type and quantization offset type) of an active frame.
pub const SILK_TYPE_OFFSET_VAD_ICDF: [u8; 4] = [232, 158, 10, 0];

/// Frame type of an inactive frame.
pub const SILK_TYPE_OFFSET_NO_VAD_ICDF: [u8; 2] = [230, 0];

/// Most significant bits of an independently coded gain, by signal type.
pub const SILK_GAIN_ICDF: [[u8; 8]; 3] = [
    [224, 112, 44, 15, 3, 2, 1, 0],
    [254, 237, 192, 132, 70, 23, 4, 0],
    [255, 252, 226, 155, 61, 11, 2, 0],
];

/// Delta-coded gain.
pub const SILK_DELTA_GAIN_ICDF: [u8; 41] = [
    250, 245, 234, 203, 71, 50, 42, 38, 35, 33, 31, 29, 28, 27, 26, 25, 24, 23, 22, 21, 20, 19,
    18, 17, 16, 15, 14, 13, 12, 11, 10, 9, 8, 7, 6, 5, 4, 3, 2, 1, 0,
];

/// Uniform distributions over 3, 4, 5 and 8 symbols.
pub const SILK_UNIFORM3_ICDF: [u8; 3] = [171, 85, 0];

pub const SILK_UNIFORM4_ICDF: [u8; 4] = [192, 128, 64, 0];

pub const SILK_UNIFORM5_ICDF: [u8; 5] = [205, 154, 102, 51, 0];

pub const SILK_UNIFORM8_ICDF: [u8; 8] = [224, 192, 160, 128, 96, 64, 32, 0];

/// Extension of an NLSF residual beyond the largest amplitude.
pub const SILK_NLSF_EXT_ICDF: [u8; 7] = [100, 40, 16, 7, 3, 1, 0];

/// NLSF interpolation factor.
pub const SILK_NLSF_INTERPOLATION_FACTOR_ICDF: [u8; 5] = [243, 221, 192, 181, 0];

/// Delta-coded pitch lag.
pub const SILK_PITCH_DELTA_ICDF: [u8; 21] = [
    210, 208, 206, 203, 199, 193, 183, 168, 142, 104, 74, 52, 37, 27, 20, 14, 10, 6, 4, 2, 0,
];

/// High part of an absolutely coded pitch lag.
pub const SILK_PITCH_LAG_ICDF: [u8; 32] = [
    253, 250, 244, 233, 212, 182, 150, 131, 120, 110, 98, 85, 72, 60, 49, 40, 32, 25, 19, 15, 13,
    11, 9, 8, 7, 6, 5, 4, 3, 2, 1, 0,
];

/// Periodicity index, which selects the LTP filter codebook.
pub const SILK_LTP_PER_INDEX_ICDF: [u8; 3] = [179, 99, 0];

/// LTP filter index, for each of the three periodicity indices.
pub const SILK_LTP_GAIN_ICDF_0: [u8; 8] = [71, 56, 43, 30, 21, 12, 6, 0];

pub const SILK_LTP_GAIN_ICDF_1: [u8; 16] = [
    199, 165, 144, 124, 109, 96, 84, 71, 61, 51, 42, 32, 23, 15, 8, 0,
];

pub const SILK_LTP_GAIN_ICDF_2: [u8; 32] = [
    241, 225, 211, 199, 187, 175, 164, 153, 142, 132, 123, 114, 105, 96, 88, 80, 72, 64, 57, 50,
    44, 38, 33, 29, 24, 20, 16, 12, 9, 5, 2, 0,
];

/// The LTP filter distribution for periodicity index `per_index`.
pub open spec fn ltp_gain_icdf_spec(per_index: int) -> Seq<u8> {
    if per_index == 0 {
        SILK_LTP_GAIN_ICDF_0@
    } else if per_index == 1 {
        SILK_LTP_GAIN_ICDF_1@
    } else {
        SILK_LTP_GAIN_ICDF_2@
    }
}

/// Selects the LTP filter distribution for periodicity index `per_index`.
pub fn silk_ltp_gain_icdf(per_index: usize) -> (t: &'static [u8])
    requires
        per_index < 3,
    ensures
        t@ == ltp_gain_icdf_spec(per_index as int),
{
    if per_index == 0 {
        &SILK_LTP_GAIN_ICDF_0
    } else if per_index == 1 {
        &SILK_LTP_GAIN_ICDF_1
    } else {
        &SILK_LTP_GAIN_ICDF_2
    }
}

/// LTP scaling index.
pub const SILK_LTPSCALE_ICDF: [u8; 3] = [128, 64, 0];

/// Joint index of the two stereo predictors.
pub const SILK_STEREO_PRED_JOINT_ICDF: [u8; 25] = [
    249, 247, 246, 245, 244, 234, 210, 202, 201, 200, 197, 174, 82, 59, 56, 55, 54, 46, 22, 12, 11,
    10, 9, 7, 0,
];

/// Whether only the mid channel is coded.
pub const SILK_STEREO_ONLY_CODE_MID_ICDF: [u8; 2] = [64, 0];

/// Quantization levels of the stereo predictors, in Q13.
pub const SILK_STEREO_PRED_QUANT_Q13: [i16; 16] = [
    -13732, -10050, -8266, -7526, -6500, -5000, -2950, -820, 820, 2950, 5000, 6500, 7526, 8266,
    10050, 13732,
];

} // verus!
