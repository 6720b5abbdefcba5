//! SILK side-information decoding of the Opus codec (RFC 6716), on top of a
//! verified range decoder, together with small compatibility helpers.
pub mod compat;
pub mod range_coder;
pub mod silk;
