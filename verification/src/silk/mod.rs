//! The SILK layer of the codec: decoding of the side information of a frame.
pub mod decode_indices;
pub mod decoder_structs;
pub mod define;
pub mod macros;
pub mod nlsf_unpack;
pub mod tables;
