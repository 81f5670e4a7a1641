//! Chunked-upload assembly, durable byte-blob storage, and a budget-aware
//! autoregressive generation engine for serving a quantized language model
//! inside a metered, call-bounded host.
//!
//! The transformer forward pass, the sampler, and the tokenizer are consumed
//! as opaque capabilities behind the traits in [`engine`]; everything the
//! library itself computes is verified.

use vstd::prelude::*;

pub mod engine;
pub mod fmt;
pub mod laws;
pub mod scripted;
pub mod storage;
pub mod upload;

verus! {

/// Plain concatenation of byte sequences, in order: what a client obtains
/// by appending them one after another to the sequential buffer.
pub open spec fn flatten_bytes(chunks: Seq<Seq<u8>>) -> Seq<u8>
    decreases chunks.len(),
{
    if chunks.len() == 0 {
        Seq::empty()
    } else {
        flatten_bytes(chunks.drop_last()) + chunks.last()
    }
}

} // verus!
