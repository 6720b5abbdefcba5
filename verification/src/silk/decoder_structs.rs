//! The decoder-side structures that side-information decoding reads and fills.
use vstd::prelude::*;
use crate::range_coder::icdf_terminated;

verus! {

/// The quantization indices of one SILK frame, as read from the bitstream.
#[derive(Clone, Copy)]
pub struct SideInfoIndices {
    pub gains_indices: [i8; 4],
    pub ltp_index: [i8; 4],
    pub nlsf_indices: [i8; 17],
    pub lag_index: i16,
    pub contour_index: i8,
    pub signal_type: i8,
    pub quant_offset_type: i8,
    pub nlsf_interp_coef_q2: i8,
    pub per_index: i8,
    pub ltp_scale_index: i8,
    pub seed: i8,
}

/// `SideInfoIndices` with its arrays seen as sequences.
pub struct SideInfoIndicesView {
    pub gains_indices: Seq<i8>,
    pub ltp_index: Seq<i8>,
    pub nlsf_indices: Seq<i8>,
    pub lag_index: i16,
    pub contour_index: i8,
    pub signal_type: i8,
    pub quant_offset_type: i8,
    pub nlsf_interp_coef_q2: i8,
    pub per_index: i8,
    pub ltp_scale_index: i8,
    pub seed: i8,
}

impl View for SideInfoIndices {
    type V = SideInfoIndicesView;

    open spec fn view(&self) -> SideInfoIndicesView {
        SideInfoIndicesView {
            gains_indices: self.gains_indices@,
            ltp_index: self.ltp_index@,
            nlsf_indices: self.nlsf_indices@,
            lag_index: self.lag_index,
            contour_index: self.contour_index,
            signal_type: self.signal_type,
            quant_offset_type: self.quant_offset_type,
            nlsf_interp_coef_q2: self.nlsf_interp_coef_q2,
            per_index: self.per_index,
            ltp_scale_index: self.ltp_scale_index,
            seed: self.seed,
        }
    }
}

/// The parts of an NLSF codebook that the decoding of its indices reads.
pub struct SilkNlsfCb<'a> {
    /// Number of first-stage vectors.
    pub n_vectors: i16,
    /// LPC order.
    pub order: i16,
    /// First-stage index, one row of `n_vectors` entries per class of signal type
    /// (unvoiced, then voiced).
    pub cb1_icdf: &'a [u8],
    /// Prediction coefficients, two rows of `order` entries.
    pub pred_q8: &'a [u8],
    /// Selectors of residual distributions and predictors, `order / 2` bytes
    /// per first-stage vector.
    pub ec_sel: &'a [u8],
    /// Residual distributions, rows of `2 * NLSF_QUANT_MAX_AMPLITUDE + 1` entries.
    pub ec_icdf: &'a [u8],
}

impl<'a> SilkNlsfCb<'a> {
    /// The shape that the decoding of indices relies on: every ICDF row that a
    /// selector can pick ends with 0 inside its row, and every index computed
    /// from a first-stage index stays inside its table.
    pub open spec fn wf(&self) -> bool {
        &&& 1 <= self.n_vectors <= 128
        &&& 2 <= self.order <= 16
        &&& self.order % 2 == 0
        &&& self.cb1_icdf@.len() >= 2 * self.n_vectors
        &&& self.cb1_icdf@[self.n_vectors - 1] == 0
        &&& self.cb1_icdf@[2 * self.n_vectors - 1] == 0
        &&& self.pred_q8@.len() >= 2 * self.order
        &&& self.ec_sel@.len() >= self.n_vectors * self.order / 2
        &&& self.ec_icdf@.len() >= 72
        &&& forall|j: int| 0 <= j < 72 && j % 9 == 8 ==> #[trigger] self.ec_icdf@[j] == 0
    }
}

/// The state of a SILK channel decoder, as far as the decoding of the
/// side information reads and writes it.
pub struct SilkDecoderState<'a> {
    /// Voice activity flag of each frame of the packet.
    pub vad_flags: [i32; 3],
    /// The indices of the frame being decoded.
    pub indices: SideInfoIndices,
    /// Number of subframes of a frame (2 or 4).
    pub nb_subfr: i32,
    /// NLSF codebook for the current bandwidth.
    pub ps_nlsf_cb: Option<&'a SilkNlsfCb<'a>>,
    /// Signal type of the previous frame.
    pub ec_prev_signal_type: i32,
    /// Pitch lag index of the previous voiced frame.
    pub ec_prev_lag_index: i16,
    /// Internal sampling rate in kHz.
    pub fs_khz: i32,
    /// Distribution of the low part of an absolute pitch lag.
    pub pitch_lag_low_bits_icdf: &'a [u8],
    /// Distribution of the pitch contour.
    pub pitch_contour_icdf: &'a [u8],
}

impl<'a> SilkDecoderState<'a> {
    /// What the decoding of one frame's indices needs of the decoder state:
    /// a well-formed codebook and terminated pitch tables.
    pub open spec fn indices_decodable(&self) -> bool {
        &&& 0 <= self.nb_subfr <= 4
        &&& self.ps_nlsf_cb is Some
        &&& self.ps_nlsf_cb.unwrap().wf()
        &&& icdf_terminated(self.pitch_lag_low_bits_icdf@)
        &&& icdf_terminated(self.pitch_contour_icdf@)
    }
}

} // verus!
