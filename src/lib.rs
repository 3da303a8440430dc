//! Resumable decoding of partially length-prefixed (PLP) and
//! fixed-size-prefixed column values.

mod laws;
mod le;
mod plp;
mod source;

pub use laws::{
    encode_chunks, encode_fixed, encode_plp, lemma_chunks_decode, lemma_copy_segment, lemma_fixed_decode,
    lemma_plp_decode, lemma_plp_null, lemma_resume, lemma_run_within, lemma_step_prefix, valid_chunks,
};
pub use le::{le_bytes, le_value};
pub use plp::{ready_value, run, step, Error, Phase, Progress, ReadTyMode, ReadTyState, PLP_NULL, PLP_THRESHOLD};
pub use source::{ByteSource, SourceError};
