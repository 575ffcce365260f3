//! The trusted boundary to the sequence-model collaborator.
//!
//! Everything in this module is a declaration that Verus believes without
//! proof: the opaque types of the model stack and one thin wrapper per
//! outside call. Each wrapper converts its arguments and its result and
//! nothing else; all decisions about what to call and what to do with the
//! answer live in verified code. Float-valued sampling knobs cross this
//! boundary as IEEE 754 bit patterns carried in plain integers, reinterpreted
//! with `bytemuck::cast`, because verified code holds no floating point.

use vstd::prelude::*;

use candle_core::Tensor;
use candle_transformers::generation::LogitsProcessor;
use candle_transformers::models::quantized_t5::{Config, T5ForConditionalGeneration, VarBuilder};
use tokenizers::Tokenizer;

verus! {

/// An opaque carrier for one candle tensor value (token ids, encoder state,
/// or logits). Verus refuses a declaration of the tensor type itself, so the
/// value is held behind this hidden field and only the wrappers below touch it.
#[verifier::external_body]
pub struct TensorValue(Tensor);

#[verifier::external_type_specification]
#[verifier::external_body]
pub struct ExT5ForConditionalGeneration(T5ForConditionalGeneration);

#[verifier::external_type_specification]
#[verifier::external_body]
pub struct ExVarBuilder(VarBuilder);

#[verifier::external_type_specification]
#[verifier::external_body]
pub struct ExTokenizer(Tokenizer);

#[verifier::external_type_specification]
#[verifier::external_body]
pub struct ExLogitsProcessor(LogitsProcessor);

/// Relies on quantized_t5::VarBuilder::from_gguf_buffer: reads model weights
/// from an in-memory gguf image onto the CPU device.
#[verifier::external_body]
pub(crate) fn gguf_var_builder(weights: &Vec<u8>) -> (r: Result<VarBuilder, String>) {
    match VarBuilder::from_gguf_buffer(weights.as_slice(), &candle_core::Device::Cpu) {
        Ok(vb) => Ok(vb),
        Err(e) => Err(e.to_string()),
    }
}

/// Relies on Tokenizer::from_bytes: builds a tokenizer from its JSON
/// definition.
#[verifier::external_body]
pub(crate) fn tokenizer_from_bytes(bytes: &Vec<u8>) -> (r: Result<Tokenizer, String>) {
    match Tokenizer::from_bytes(bytes.as_slice()) {
        Ok(t) => Ok(t),
        Err(e) => Err(e.to_string()),
    }
}

/// Whether the configuration JSON sets the encoder-decoder flag to an
/// explicit true: a function of the bytes alone. Bytes that are not valid
/// JSON, or whose flag is absent or not the boolean true, count as false.
pub uninterp spec fn config_encoder_decoder_flag(bytes: Seq<u8>) -> bool;

/// Relies on serde_json::from_slice (for Value and for Config) and on
/// T5ForConditionalGeneration::load. The loader asserts that the
/// configuration describes an encoder-decoder model; the flag is tested here,
/// inside the same trusted body that parses the configuration from the same
/// bytes, so no mismatched configuration can reach the assertion: a missing
/// or false flag is an error and the loader is never called.
#[verifier::external_body]
pub(crate) fn load_t5(vb: VarBuilder, config_bytes: &Vec<u8>) -> (r: Result<
    T5ForConditionalGeneration,
    String,
>)
    ensures
        !config_encoder_decoder_flag(config_bytes@) ==> r is Err,
{
    let flag = match serde_json::from_slice::<serde_json::Value>(config_bytes.as_slice()) {
        Ok(v) => matches!(v.get("is_encoder_decoder"), Some(serde_json::Value::Bool(true))),
        Err(_) => false,
    };
    if !flag {
        return Err("configuration does not describe an encoder-decoder model".to_string());
    }
    let config: Config = match serde_json::from_slice(config_bytes.as_slice()) {
        Ok(c) => c,
        Err(e) => return Err(e.to_string()),
    };
    match T5ForConditionalGeneration::load(vb, &config) {
        Ok(m) => Ok(m),
        Err(e) => Err(e.to_string()),
    }
}

/// The pad token id the configuration JSON carries, read as an unsigned
/// number and narrowed to the token-id width: a function of the bytes alone.
/// Unparsable bytes, an absent field or a non-number count as zero.
pub uninterp spec fn pad_id_of(bytes: Seq<u8>) -> u32;

/// The end-of-sequence token id the configuration JSON carries, read as an
/// unsigned number: a function of the bytes alone. Unparsable bytes, an
/// absent field or a non-number count as zero.
pub uninterp spec fn eos_id_of(bytes: Seq<u8>) -> usize;

/// Relies on serde_json::from_slice for Value, Value::get and Value::as_u64:
/// the configuration's pad token id. Whenever the full configuration parses,
/// this is its `pad_token_id` field narrowed as the session narrows it.
#[verifier::external_body]
pub(crate) fn json_pad_token_id(bytes: &Vec<u8>) -> (r: u32)
    ensures
        r == pad_id_of(bytes@),
{
    match serde_json::from_slice::<serde_json::Value>(bytes.as_slice()) {
        Ok(v) => match v.get("pad_token_id") {
            Some(x) => match x.as_u64() {
                Some(n) => n as u32,
                None => 0,
            },
            None => 0,
        },
        Err(_) => 0,
    }
}

/// Relies on serde_json::from_slice for Value, Value::get and Value::as_u64:
/// the configuration's end-of-sequence token id. Whenever the full
/// configuration parses, this is its `eos_token_id` field.
#[verifier::external_body]
pub(crate) fn json_eos_token_id(bytes: &Vec<u8>) -> (r: usize)
    ensures
        r == eos_id_of(bytes@),
{
    match serde_json::from_slice::<serde_json::Value>(bytes.as_slice()) {
        Ok(v) => match v.get("eos_token_id") {
            Some(x) => match x.as_u64() {
                Some(n) => n as usize,
                None => 0,
            },
            None => 0,
        },
        Err(_) => 0,
    }
}

/// Relies on T5ForConditionalGeneration::clear_kv_cache: resets the decoder's
/// attention cache so that independent generation calls share no state.
pub assume_specification[ T5ForConditionalGeneration::clear_kv_cache ](
    model: &mut T5ForConditionalGeneration,
);

/// Relies on Tokenizer::encode with special tokens added, and on
/// Encoding::get_ids: the prompt's model token ids.
#[verifier::external_body]
pub(crate) fn encode_prompt(tokenizer: &Tokenizer, prompt: &str) -> (r: Result<Vec<u32>, String>) {
    match tokenizer.encode(prompt, true) {
        Ok(enc) => Ok(enc.get_ids().to_vec()),
        Err(e) => Err(e.to_string()),
    }
}

/// The token ids a tensor built from ids holds, in order. Of a tensor that
/// holds anything else (encoder state, logits) nothing is stated.
pub uninterp spec fn tensor_ids(t: TensorValue) -> Seq<u32>;

/// Relies on Tensor::new: a rank-one tensor holding exactly the given token
/// ids on the CPU device.
#[verifier::external_body]
pub(crate) fn tensor_from_ids(ids: &Vec<u32>) -> (r: Result<TensorValue, String>)
    ensures
        r matches Ok(t) ==> tensor_ids(t) == ids@,
{
    match Tensor::new(ids.as_slice(), &candle_core::Device::Cpu) {
        Ok(t) => Ok(TensorValue(t)),
        Err(e) => Err(e.to_string()),
    }
}

/// Relies on Tensor::unsqueeze: inserts the leading batch dimension, a
/// reshape that keeps the data as it is.
#[verifier::external_body]
pub(crate) fn unsqueeze_batch(t: &TensorValue) -> (r: Result<TensorValue, String>)
    ensures
        r matches Ok(u) ==> tensor_ids(u) == tensor_ids(*t),
{
    match t.0.unsqueeze(0) {
        Ok(t) => Ok(TensorValue(t)),
        Err(e) => Err(e.to_string()),
    }
}

/// Relies on Tensor::squeeze: removes the leading batch dimension.
#[verifier::external_body]
pub(crate) fn squeeze_batch(t: &TensorValue) -> (r: Result<TensorValue, String>) {
    match t.0.squeeze(0) {
        Ok(t) => Ok(TensorValue(t)),
        Err(e) => Err(e.to_string()),
    }
}

/// Relies on T5ForConditionalGeneration::encode: the encoder forward pass
/// over the prompt token ids.
#[verifier::external_body]
pub(crate) fn t5_encode(
    model: &mut T5ForConditionalGeneration,
    input_ids: &TensorValue,
) -> (r: Result<TensorValue, String>) {
    match model.encode(&input_ids.0) {
        Ok(t) => Ok(TensorValue(t)),
        Err(e) => Err(e.to_string()),
    }
}

/// Relies on T5ForConditionalGeneration::decode: one decoder forward pass
/// against the encoder output, yielding next-token logits. The decoder
/// indexes the last position of its output sequence, so the decoder ids must
/// hold at least one token.
#[verifier::external_body]
pub(crate) fn t5_decode(
    model: &mut T5ForConditionalGeneration,
    decoder_ids: &TensorValue,
    encoder_output: &TensorValue,
) -> (r: Result<TensorValue, String>)
    requires
        tensor_ids(*decoder_ids).len() > 0,
{
    match model.decode(&decoder_ids.0, &encoder_output.0) {
        Ok(t) => Ok(TensorValue(t)),
        Err(e) => Err(e.to_string()),
    }
}

/// Relies on LogitsProcessor::new. The temperature and nucleus threshold
/// arrive as IEEE 754 double bit patterns; an absent temperature selects
/// greedy arg-max decoding.
#[verifier::external_body]
pub(crate) fn new_logits_processor(
    seed: u64,
    temperature_bits: Option<u64>,
    top_p_bits: Option<u64>,
) -> (r: LogitsProcessor) {
    let temperature = match temperature_bits {
        Some(b) => Some(bytemuck::cast(b)),
        None => None,
    };
    let top_p = match top_p_bits {
        Some(b) => Some(bytemuck::cast(b)),
        None => None,
    };
    LogitsProcessor::new(seed, temperature, top_p)
}

/// Relies on candle_transformers::utils::apply_repeat_penalty: rescales the
/// logits of every token id present in `context`. The penalty factor arrives
/// as an IEEE 754 single bit pattern.
#[verifier::external_body]
pub(crate) fn apply_penalty(
    logits: &TensorValue,
    penalty_bits: u32,
    context: &Vec<u32>,
) -> (r: Result<TensorValue, String>) {
    match candle_transformers::utils::apply_repeat_penalty(
        &logits.0,
        bytemuck::cast(penalty_bits),
        context.as_slice(),
    ) {
        Ok(t) => Ok(TensorValue(t)),
        Err(e) => Err(e.to_string()),
    }
}

/// Relies on LogitsProcessor::sample: draws the next token id from the
/// logits under the processor's sampling policy.
#[verifier::external_body]
pub(crate) fn sample_token(processor: &mut LogitsProcessor, logits: &TensorValue) -> (r: Result<
    u32,
    String,
>) {
    match processor.sample(&logits.0) {
        Ok(id) => Ok(id),
        Err(e) => Err(e.to_string()),
    }
}

/// Relies on Tokenizer::id_to_token: the displayable fragment for a token id,
/// if the vocabulary has one.
#[verifier::external_body]
pub(crate) fn id_to_token(tokenizer: &Tokenizer, id: u32) -> (r: Option<String>) {
    tokenizer.id_to_token(id)
}

} // verus!
