//! UTF-8 byte classification, characters and a byte-at-a-time decoder.

mod byte;
mod char;
mod decoder;

pub use byte::{byte_type_of, encoding_len, is_cont, Utf8Byte, Utf8ByteType};
pub use char::{
    fold_codepoint, is_scalar, lemma_fold_is_decoded, no_invalid_byte, padded_array,
    partial_codepoint, zero_padded, Utf8Char,
};
pub use decoder::{
    decoder_run, decoder_step, expected_count, expecting, is_encoded_char, lemma_decodes_encoded_char,
    lemma_finished_decoder_errs,
    Utf8Decoder, Utf8DecoderState, Utf8DecoderStatus,
};
