//! The generation engine: the autoregressive token loop.
//!
//! The engine drives the external encoder-decoder model: it tokenizes the
//! prompt, runs the encoder once, then repeatedly decodes one step, applies
//! the repeat penalty, samples the next token, and stops at the end-of-sequence
//! token or at the length bound. Sampling knobs that are floating-point values
//! at the model boundary are carried here as their IEEE 754 bit patterns in
//! plain integers; the predicates below mirror the comparisons the engine
//! makes on them exactly, bit for bit.

use vstd::prelude::*;

use crate::model::{
    apply_penalty, config_encoder_decoder_flag, encode_prompt, eos_id_of, gguf_var_builder,
    id_to_token, json_eos_token_id, json_pad_token_id, load_t5, new_logits_processor, pad_id_of,
    sample_token, squeeze_batch, t5_decode, t5_encode, tensor_from_ids, tokenizer_from_bytes,
    unsqueeze_batch,
};
use candle_transformers::generation::LogitsProcessor;
use candle_transformers::models::quantized_t5::T5ForConditionalGeneration;
use tokenizers::Tokenizer;

verus! {

/// Bit pattern of the double value one.
pub const F64_ONE_BITS: u64 = 0x3FF0_0000_0000_0000;

/// Bit pattern of the double value negative zero: the smallest pattern with
/// the sign bit set.
pub const F64_NEG_ZERO_BITS: u64 = 0x8000_0000_0000_0000;

/// Bit pattern of double negative infinity: the largest negative non-NaN
/// pattern.
pub const F64_NEG_INF_BITS: u64 = 0xFFF0_0000_0000_0000;

/// Bit pattern of double positive infinity: the largest positive non-NaN
/// pattern.
pub const F64_POS_INF_BITS: u64 = 0x7FF0_0000_0000_0000;

/// Bit pattern of the single-precision value one: a repeat penalty with this
/// pattern leaves the logits untouched.
pub const F32_ONE_BITS: u32 = 0x3F80_0000;

/// Whether the double with this bit pattern compares less than or equal to
/// zero: exactly positive zero, or a negative non-NaN value. NaN patterns
/// (above either infinity's pattern) compare false, as the float comparison
/// does.
pub open spec fn f64_bits_nonpositive(bits: u64) -> bool {
    bits == 0 || (F64_NEG_ZERO_BITS <= bits && bits <= F64_NEG_INF_BITS)
}

/// Whether the double with this bit pattern compares greater than or equal to
/// one: a positive non-NaN pattern from one's up to positive infinity's.
pub open spec fn f64_bits_at_least_one(bits: u64) -> bool {
    F64_ONE_BITS <= bits && bits <= F64_POS_INF_BITS
}

/// Executable form of `f64_bits_nonpositive`.
pub fn f64_nonpositive(bits: u64) -> (r: bool)
    ensures
        r == f64_bits_nonpositive(bits),
{
    bits == 0 || (F64_NEG_ZERO_BITS <= bits && bits <= F64_NEG_INF_BITS)
}

/// Executable form of `f64_bits_at_least_one`.
pub fn f64_at_least_one(bits: u64) -> (r: bool)
    ensures
        r == f64_bits_at_least_one(bits),
{
    F64_ONE_BITS <= bits && bits <= F64_POS_INF_BITS
}

/// Parameters of one generation call. The temperature and nucleus threshold
/// are IEEE 754 double bit patterns, the repeat penalty an IEEE 754 single
/// bit pattern; a nonpositive temperature selects greedy arg-max decoding,
/// and a nucleus threshold outside (zero, one) disables nucleus sampling.
pub struct ConditionalGenerationParams {
    pub prompt: String,
    pub temperature_bits: u64,
    pub seed: u64,
    pub top_p_bits: u64,
    pub repeat_penalty_bits: u32,
    pub repeat_last_n: usize,
    pub max_length: Option<usize>,
}

/// The text produced by one generation call.
pub struct ConditionalGenerationOutput {
    pub generation: String,
}

/// Why a single generation call failed. Every variant carries the message of
/// the failing collaborator; the orchestrator recovers from each of these by
/// falling back to the untranslated source text.
pub enum GenerationError {
    Tokenize(String),
    Encode(String),
    Decode(String),
    Sample(String),
    TensorConstruction(String),
}

/// The sentencepiece word-boundary marker character.
pub open spec fn word_boundary_marker() -> char {
    '\u{2581}'
}

/// The tokenizer's newline marker, spelled as six characters.
pub open spec fn newline_marker() -> Seq<char> {
    seq!['<', '0', 'x', '0', 'A', '>']
}

/// One character after word-boundary substitution: the word-boundary marker
/// becomes a space, everything else is unchanged.
pub open spec fn boundary_mapped(c: char) -> char {
    if c == word_boundary_marker() {
        ' '
    } else {
        c
    }
}

/// Fragment text after marker substitution: each newline marker becomes a
/// newline character, and every remaining character has the word-boundary
/// substitution applied. Markers are replaced left to right and do not
/// overlap.
pub open spec fn substituted(s: Seq<char>) -> Seq<char>
    decreases s.len(),
{
    if s.len() >= 6 && s.subrange(0, 6) == newline_marker() {
        seq!['\n'] + substituted(s.subrange(6, s.len() as int))
    } else if s.len() == 0 {
        Seq::<char>::empty()
    } else {
        seq![boundary_mapped(s[0])] + substituted(s.subrange(1, s.len() as int))
    }
}

/// The concatenation of the marker-substituted forms of the given fragments:
/// what a generation call accumulates from the fragments of its sampled
/// tokens, in order.
pub open spec fn substituted_concat(fragments: Seq<Seq<char>>) -> Seq<char>
    decreases fragments.len(),
{
    if fragments.len() == 0 {
        Seq::<char>::empty()
    } else {
        substituted(fragments[0]) + substituted_concat(
            fragments.subrange(1, fragments.len() as int),
        )
    }
}

/// Appending one more fragment extends the concatenation at the end.
proof fn lemma_substituted_concat_push(fragments: Seq<Seq<char>>, f: Seq<char>)
    ensures
        substituted_concat(fragments.push(f)) == substituted_concat(fragments) + substituted(f),
    decreases fragments.len(),
{
    let pushed = fragments.push(f);
    if fragments.len() == 0 {
        assert(pushed[0] == f);
        let rest = pushed.subrange(1, 1);
        assert(rest =~= Seq::<Seq<char>>::empty());
        assert(substituted_concat(rest) =~= Seq::<char>::empty());
        assert(substituted_concat(pushed) =~= substituted(f) + substituted_concat(rest));
        assert(substituted(f) + Seq::<char>::empty() =~= substituted(f));
        assert(substituted_concat(fragments) + substituted(f) =~= substituted(f));
    } else {
        let tail = fragments.subrange(1, fragments.len() as int);
        assert(pushed.subrange(1, pushed.len() as int) =~= tail.push(f));
        lemma_substituted_concat_push(tail, f);
        assert(pushed[0] == fragments[0]);
        assert(substituted_concat(pushed) =~= substituted(fragments[0]) + (substituted_concat(tail)
            + substituted(f)));
        assert(substituted(fragments[0]) + (substituted_concat(tail) + substituted(f)) =~= (
        substituted(fragments[0]) + substituted_concat(tail)) + substituted(f));
    }
}

/// Appends the fragment to `out` with both marker substitutions applied.
pub fn append_substituted(out: &mut String, fragment: &str)
    ensures
        final(out)@ == old(out)@ + substituted(fragment@),
{
    let n = fragment.unicode_len();
    proof {
        assert(fragment@.subrange(0, n as int) =~= fragment@);
    }
    let mut i: usize = 0;
    while i < n
        invariant
            i <= n == fragment@.len(),
            out@ + substituted(fragment@.subrange(i as int, n as int)) == old(out)@ + substituted(
                fragment@,
            ),
        decreases n - i,
    {
        let ghost rem = fragment@.subrange(i as int, n as int);
        let ghost prev = out@;
        let marker = n - i >= 6 && fragment.get_char(i) == '<' && fragment.get_char(i + 1) == '0'
            && fragment.get_char(i + 2) == 'x' && fragment.get_char(i + 3) == '0'
            && fragment.get_char(i + 4) == 'A' && fragment.get_char(i + 5) == '>';
        if marker {
            proof {
                assert(rem.subrange(0, 6) =~= newline_marker());
                assert(rem.subrange(6, rem.len() as int) =~= fragment@.subrange(i + 6, n as int));
                reveal_strlit("\n");
            }
            out.append("\n");
            proof {
                assert(out@ =~= prev + seq!['\n']);
                assert(out@ + substituted(fragment@.subrange(i + 6, n as int)) =~= prev
                    + substituted(rem));
            }
            i = i + 6;
        } else {
            proof {
                if rem.len() >= 6 && rem.subrange(0, 6) == newline_marker() {
                    assert(rem.subrange(0, 6)[0] == rem[0] && rem.subrange(0, 6)[1] == rem[1]
                        && rem.subrange(0, 6)[2] == rem[2] && rem.subrange(0, 6)[3] == rem[3]
                        && rem.subrange(0, 6)[4] == rem[4] && rem.subrange(0, 6)[5] == rem[5]);
                    assert(newline_marker()[0] == '<' && newline_marker()[1] == '0'
                        && newline_marker()[2] == 'x' && newline_marker()[3] == '0'
                        && newline_marker()[4] == 'A' && newline_marker()[5] == '>');
                    assert(fragment@[i as int] == '<' && fragment@[i + 1] == '0' && fragment@[i + 2]
                        == 'x' && fragment@[i + 3] == '0' && fragment@[i + 4] == 'A' && fragment@[i
                        + 5] == '>');
                    assert(false);
                }
                assert(rem.subrange(1, rem.len() as int) =~= fragment@.subrange(i + 1, n as int));
            }
            let c = fragment.get_char(i);
            if c == '\u{2581}' {
                proof {
                    reveal_strlit(" ");
                }
                out.append(" ");
                proof {
                    assert(out@ =~= prev + seq![' ']);
                    assert(seq![' '] =~= seq![boundary_mapped(rem[0])]);
                }
            } else {
                let piece = fragment.substring_char(i, i + 1);
                proof {
                    assert(piece@ =~= seq![fragment@[i as int]]);
                    assert(seq![fragment@[i as int]] =~= seq![boundary_mapped(rem[0])]);
                }
                out.append(piece);
            }
            proof {
                assert(out@ + substituted(fragment@.subrange(i + 1, n as int)) =~= prev
                    + substituted(rem));
            }
            i = i + 1;
        }
    }
    proof {
        assert(fragment@.subrange(n as int, n as int) =~= Seq::<char>::empty());
        assert(substituted(Seq::<char>::empty()) =~= Seq::<char>::empty());
        assert(out@ =~= old(out)@ + substituted(fragment@));
    }
}

/// The copy of `v` from `start` to its end: the repeat-penalty context window.
fn copy_tail(v: &Vec<u32>, start: usize) -> (r: Vec<u32>)
    requires
        start <= v@.len(),
    ensures
        r@ == v@.subrange(start as int, v@.len() as int),
{
    let mut r: Vec<u32> = Vec::new();
    let mut i = start;
    while i < v.len()
        invariant
            start <= i <= v@.len(),
            r@ =~= v@.subrange(start as int, i as int),
        decreases v@.len() - i,
    {
        r.push(v[i]);
        proof {
            assert(r@ =~= v@.subrange(start as int, i + 1 as int));
        }
        i = i + 1;
    }
    proof {
        assert(r@ =~= v@.subrange(start as int, v@.len() as int));
    }
    r
}

/// The loaded model session: the external model and tokenizer, and the two
/// token ids the loop decisions read.
pub struct ModelConditionalGeneration {
    model: T5ForConditionalGeneration,
    tokenizer: Tokenizer,
    pad_token_id: u32,
    eos_token_id: usize,
}

impl ModelConditionalGeneration {
    /// The pad token id the session starts every output sequence with.
    pub closed spec fn spec_pad_token_id(&self) -> u32 {
        self.pad_token_id
    }

    /// The end-of-sequence token id the session stops at.
    pub closed spec fn spec_eos_token_id(&self) -> int {
        self.eos_token_id as int
    }

    /// Builds a session from raw weight bytes, tokenizer-definition bytes and
    /// configuration JSON bytes. Every load failure is reported as an error;
    /// in particular a configuration that does not describe an
    /// encoder-decoder model is an error rather than the loader's own
    /// ungraceful refusal. A session that loads carries the pad and
    /// end-of-sequence token ids of its configuration bytes.
    pub fn load(weights: Vec<u8>, tokenizer: Vec<u8>, config: Vec<u8>) -> (r: Result<
        ModelConditionalGeneration,
        String,
    >)
        ensures
            !config_encoder_decoder_flag(config@) ==> r is Err,
            r matches Ok(session) ==> session.spec_pad_token_id() == pad_id_of(config@)
                && session.spec_eos_token_id() == eos_id_of(config@) as int,
    {
        let vb = match gguf_var_builder(&weights) {
            Ok(v) => v,
            Err(e) => return Err(e),
        };
        let model = match load_t5(vb, &config) {
            Ok(m) => m,
            Err(e) => return Err(e),
        };
        let tok = match tokenizer_from_bytes(&tokenizer) {
            Ok(t) => t,
            Err(e) => return Err(e),
        };
        let pad_token_id = json_pad_token_id(&config);
        let eos_token_id = json_eos_token_id(&config);
        Ok(ModelConditionalGeneration { model, tokenizer: tok, pad_token_id, eos_token_id })
    }

    /// One full generation call. The recurrent cache is reset first, so
    /// independent calls share no state. The output token sequence starts
    /// from the pad token; the loop decodes incrementally, penalizes tokens
    /// seen in the lookback window when the penalty pattern is not one,
    /// samples under the configured policy, and stops at the end-of-sequence
    /// token (which is not emitted) or once the output holds `max_length`
    /// generated tokens, `max_length` being clamped to at most 512. The loop
    /// measure starts at `max_length` and falls every pass, so a call makes
    /// at most `max_length + 1` passes. Each sampled token's fragment joins
    /// the output text under the marker substitution of `substituted`: any
    /// generation returned is the concatenation of marker-substituted
    /// fragments, so in particular the end-of-sequence token (at which the
    /// loop stops before appending) and an unmappable token id contribute no
    /// text, and no raw word-boundary marker survives.
    pub fn decode(&mut self, input: ConditionalGenerationParams) -> (r: Result<
        ConditionalGenerationOutput,
        GenerationError,
    >)
        ensures
            final(self).spec_pad_token_id() == old(self).spec_pad_token_id(),
            final(self).spec_eos_token_id() == old(self).spec_eos_token_id(),
            r matches Ok(out) ==> exists|fragments: Seq<Seq<char>>|
                out.generation@ == substituted_concat(fragments),
    {
        self.model.clear_kv_cache();
        let mut output_token_ids: Vec<u32> = Vec::new();
        output_token_ids.push(self.pad_token_id);
        let max_length: usize = match input.max_length {
            Some(v) => if v > 512 {
                512
            } else {
                v
            },
            None => 512,
        };
        let temperature_bits = if f64_nonpositive(input.temperature_bits) {
            None
        } else {
            Some(input.temperature_bits)
        };
        let top_p_bits = if f64_nonpositive(input.top_p_bits) || f64_at_least_one(
            input.top_p_bits,
        ) {
            None
        } else {
            Some(input.top_p_bits)
        };
        let mut logits_processor = new_logits_processor(input.seed, temperature_bits, top_p_bits);
        let tokens = match encode_prompt(&self.tokenizer, input.prompt.as_str()) {
            Ok(t) => t,
            Err(m) => return Err(GenerationError::Tokenize(m)),
        };
        let prompt_tensor = match tensor_from_ids(&tokens) {
            Ok(t) => t,
            Err(m) => return Err(GenerationError::TensorConstruction(m)),
        };
        let input_token_ids = match unsqueeze_batch(&prompt_tensor) {
            Ok(t) => t,
            Err(m) => return Err(GenerationError::TensorConstruction(m)),
        };
        let encoder_output = match t5_encode(&mut self.model, &input_token_ids) {
            Ok(t) => t,
            Err(m) => return Err(GenerationError::Encode(m)),
        };
        let mut decoded = String::new();
        let ghost mut fragments = Seq::<Seq<char>>::empty();
        proof {
            assert(substituted_concat(fragments) =~= Seq::<char>::empty());
        }
        let mut first_step = true;
        while output_token_ids.len() <= max_length
            invariant
                1 <= output_token_ids@.len() <= max_length + 1,
                self.pad_token_id == old(self).pad_token_id,
                self.eos_token_id == old(self).eos_token_id,
                decoded@ == substituted_concat(fragments),
            decreases max_length + 1 - output_token_ids@.len(),
        {
            let step_base = if first_step {
                tensor_from_ids(&output_token_ids)
            } else {
                let last = output_token_ids[output_token_ids.len() - 1];
                let mut last_only: Vec<u32> = Vec::new();
                last_only.push(last);
                tensor_from_ids(&last_only)
            };
            let step_tensor = match step_base {
                Ok(t) => t,
                Err(m) => return Err(GenerationError::TensorConstruction(m)),
            };
            let decoder_token_ids = match unsqueeze_batch(&step_tensor) {
                Ok(t) => t,
                Err(m) => return Err(GenerationError::TensorConstruction(m)),
            };
            let raw_logits = match t5_decode(
                &mut self.model,
                &decoder_token_ids,
                &encoder_output,
            ) {
                Ok(t) => t,
                Err(m) => return Err(GenerationError::Decode(m)),
            };
            let mut logits = match squeeze_batch(&raw_logits) {
                Ok(t) => t,
                Err(m) => return Err(GenerationError::TensorConstruction(m)),
            };
            if input.repeat_penalty_bits != F32_ONE_BITS {
                let start_at = if input.repeat_last_n > output_token_ids.len() {
                    0
                } else {
                    output_token_ids.len() - input.repeat_last_n
                };
                let context = copy_tail(&output_token_ids, start_at);
                logits = match apply_penalty(&logits, input.repeat_penalty_bits, &context) {
                    Ok(t) => t,
                    Err(m) => return Err(GenerationError::TensorConstruction(m)),
                };
            }
            let next_token_id = match sample_token(&mut logits_processor, &logits) {
                Ok(id) => id,
                Err(m) => return Err(GenerationError::Sample(m)),
            };
            if next_token_id as usize == self.eos_token_id {
                break ;
            }
            output_token_ids.push(next_token_id);
            match id_to_token(&self.tokenizer, next_token_id) {
                Some(text) => {
                    append_substituted(&mut decoded, text.as_str());
                    proof {
                        lemma_substituted_concat_push(fragments, text@);
                        fragments = fragments.push(text@);
                    }
                },
                None => (),
            }
            first_step = false;
        }
        proof {
            assert(decoded@ == substituted_concat(fragments));
        }
        Ok(ConditionalGenerationOutput { generation: decoded })
    }
}

} // verus!
