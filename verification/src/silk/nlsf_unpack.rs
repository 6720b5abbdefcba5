//! Unpacking of the per-coefficient selectors of an NLSF codebook vector.
use vstd::prelude::*;
use crate::silk::decoder_structs::SilkNlsfCb;

verus! {

/// The selector byte that governs coefficient `i` of first-stage vector `cb1_index`
/// (one byte per pair of coefficients).
pub open spec fn nlsf_ec_sel_entry(cb: &SilkNlsfCb, cb1_index: int, i: int) -> int {
    cb.ec_sel@[(cb1_index * cb.order) / 2 + i / 2] as int
}

/// The 3-bit field of the selector byte that belongs to coefficient `i`
/// (bits 1..3 for even `i`, bits 5..7 for odd `i`).
pub open spec fn nlsf_ec_row(cb: &SilkNlsfCb, cb1_index: int, i: int) -> int {
    let e = nlsf_ec_sel_entry(cb, cb1_index, i);
    if i % 2 == 0 {
        (e / 2) % 8
    } else {
        (e / 32) % 8
    }
}

/// Offset of the residual distribution of coefficient `i`: its row times the
/// row length `2 * NLSF_QUANT_MAX_AMPLITUDE + 1`.
pub open spec fn nlsf_ec_ix_spec(cb: &SilkNlsfCb, cb1_index: int, i: int) -> int {
    nlsf_ec_row(cb, cb1_index, i) * 9
}

/// Prediction coefficient for coefficient `i`: from the first or second row of
/// `pred_q8`, as bit 0 (even `i`) or bit 4 (odd `i`) of the selector byte says.
pub open spec fn nlsf_pred_q8_spec(cb: &SilkNlsfCb, cb1_index: int, i: int) -> u8 {
    let e = nlsf_ec_sel_entry(cb, cb1_index, i);
    let bit = if i % 2 == 0 {
        e % 2
    } else {
        (e / 16) % 2
    };
    cb.pred_q8@[i + bit * (cb.order - 1)]
}

/// What unpacking needs of a codebook and a first-stage index.
pub open spec fn nlsf_unpack_ok(cb: &SilkNlsfCb, cb1_index: int) -> bool {
    &&& 0 <= cb.order <= 16
    &&& cb.order % 2 == 0
    &&& 0 <= cb1_index
    &&& cb1_index * cb.order <= usize::MAX
    &&& (cb1_index * cb.order) / 2 + cb.order / 2 <= cb.ec_sel@.len()
    &&& 2 * cb.order - 1 <= cb.pred_q8@.len()
}

/// Fills the first `order` entries of `ec_ix` and `pred_q8` for vector `cb1_index`.
pub fn silk_nlsf_unpack(
    ec_ix: &mut [i16; 16],
    pred_q8: &mut [u8; 16],
    ps_nlsf_cb: &SilkNlsfCb,
    cb1_index: usize,
)
    requires
        nlsf_unpack_ok(ps_nlsf_cb, cb1_index as int),
    ensures
        forall|i: int|
            0 <= i < ps_nlsf_cb.order ==> final(ec_ix)@[i] == nlsf_ec_ix_spec(
                ps_nlsf_cb,
                cb1_index as int,
                i,
            ) && final(pred_q8)@[i] == nlsf_pred_q8_spec(ps_nlsf_cb, cb1_index as int, i),
        forall|i: int|
            ps_nlsf_cb.order <= i < 16 ==> final(ec_ix)@[i] == old(ec_ix)@[i] && final(pred_q8)@[i]
                == old(pred_q8)@[i],
{
    let order: usize = ps_nlsf_cb.order as usize;
    let base: usize = cb1_index * order / 2;
    let mut i: usize = 0;
    while i < order
        invariant
            order == ps_nlsf_cb.order,
            base == (cb1_index * order) / 2,
            nlsf_unpack_ok(ps_nlsf_cb, cb1_index as int),
            i % 2 == 0,
            i <= order,
            forall|j: int|
                0 <= j < i ==> ec_ix@[j] == nlsf_ec_ix_spec(ps_nlsf_cb, cb1_index as int, j)
                    && pred_q8@[j] == nlsf_pred_q8_spec(ps_nlsf_cb, cb1_index as int, j),
            forall|j: int|
                order <= j < 16 ==> ec_ix@[j] == old(ec_ix)@[j] && pred_q8@[j] == old(pred_q8)@[j],
        decreases order - i,
    {
        assert(base + i / 2 < ps_nlsf_cb.ec_sel@.len());
        let entry: u8 = ps_nlsf_cb.ec_sel[base + i / 2];
        assert((entry >> 1) & 7 == (entry / 2) % 8) by (bit_vector);
        assert((entry >> 5) & 7 == (entry / 32) % 8) by (bit_vector);
        assert(entry & 1 == entry % 2) by (bit_vector);
        assert((entry >> 4) & 1 == (entry / 16) % 2) by (bit_vector);
        let lo_bit: usize = (entry & 1) as usize;
        let hi_bit: usize = ((entry >> 4) & 1) as usize;
        assert(lo_bit * (order - 1) <= order - 1 && hi_bit * (order - 1) <= order - 1) by (nonlinear_arith)
            requires
                lo_bit <= 1,
                hi_bit <= 1,
                order >= 1,
        ;
        let lo_row: i16 = ((entry >> 1) & 7) as i16;
        let hi_row: i16 = ((entry >> 5) & 7) as i16;
        ec_ix[i] = lo_row * 9;
        pred_q8[i] = ps_nlsf_cb.pred_q8[i + lo_bit * (order - 1)];
        ec_ix[i + 1] = hi_row * 9;
        pred_q8[i + 1] = ps_nlsf_cb.pred_q8[i + hi_bit * (order - 1) + 1];
        assert((i + 1) / 2 == i / 2);
        i = i + 2;
    }
}

} // verus!
