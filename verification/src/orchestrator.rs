//! The sentence orchestrator.
//!
//! The buffer text is split into sentence units at terminal punctuation
//! marks (each mark kept at the end of its unit, any unterminated tail kept
//! as the final unit). A unit that is a lone punctuation mark passes through
//! as a single glyph. Any other unit is translated when it is not the final
//! unit, or when it is the final unit and ends in terminal punctuation; an
//! unterminated final fragment passes through unchanged. Translation goes
//! through the cache, and a failed generation falls back to the unit's own
//! text. Every emitted glyph receives the next sequential cluster index,
//! clamped to the last valid position of the original buffer once the output
//! outgrows it.

use vstd::prelude::*;

use crate::cache::TranslationCache;
use crate::engine::{ConditionalGenerationParams, ModelConditionalGeneration};
use crate::glyph::{advanced_counter, append_unit_glyphs, emitted_glyphs, Glyph};

verus! {

/// Sentence-terminal punctuation.
pub open spec fn is_terminal(c: char) -> bool {
    c == '.' || c == '!' || c == '?'
}

/// Executable test for sentence-terminal punctuation.
pub fn is_terminal_char(c: char) -> (r: bool)
    ensures
        r == is_terminal(c),
{
    c == '.' || c == '!' || c == '?'
}

/// Index of the first terminal punctuation mark in `s`, or `s.len()` if
/// there is none.
pub open spec fn first_terminal(s: Seq<char>) -> int
    decreases s.len(),
{
    if s.len() == 0 {
        0
    } else if is_terminal(s[0]) {
        0
    } else {
        1 + first_terminal(s.subrange(1, s.len() as int))
    }
}

/// `first_terminal` stays within bounds, marks a terminal character when it
/// is not the length, and nothing before it is terminal.
pub proof fn lemma_first_terminal(s: Seq<char>)
    ensures
        0 <= first_terminal(s) <= s.len(),
        first_terminal(s) < s.len() ==> is_terminal(s[first_terminal(s)]),
        forall|j: int| 0 <= j < first_terminal(s) ==> !is_terminal(#[trigger] s[j]),
    decreases s.len(),
{
    if s.len() == 0 {
    } else if is_terminal(s[0]) {
    } else {
        let t = s.subrange(1, s.len() as int);
        lemma_first_terminal(t);
        assert(forall|j: int| 0 <= j < t.len() ==> t[j] == s[j + 1]);
        assert(first_terminal(s) < s.len() ==> s[first_terminal(s)] == t[first_terminal(t)]);
        assert forall|j: int| 0 <= j < first_terminal(s) implies !is_terminal(#[trigger] s[j]) by {
            if j > 0 {
                assert(s[j] == t[j - 1]);
            }
        }
    }
}

/// The sentence units of `s`: maximal substrings each ending at a terminal
/// punctuation mark (kept), with any unterminated tail as the final unit.
pub open spec fn spec_units(s: Seq<char>) -> Seq<Seq<char>>
    decreases s.len(),
    via spec_units_decreases
{
    if s.len() == 0 {
        Seq::<Seq<char>>::empty()
    } else {
        let k = first_terminal(s);
        if k == s.len() {
            seq![s]
        } else {
            seq![s.subrange(0, k + 1)] + spec_units(s.subrange(k + 1, s.len() as int))
        }
    }
}

#[via_fn]
proof fn spec_units_decreases(s: Seq<char>) {
    lemma_first_terminal(s);
}

/// Every sentence unit is nonempty.
pub proof fn lemma_units_nonempty(s: Seq<char>)
    ensures
        forall|i: int| 0 <= i < spec_units(s).len() ==> (#[trigger] spec_units(s)[i]).len() > 0,
    decreases s.len(),
{
    if s.len() == 0 {
    } else {
        let k = first_terminal(s);
        lemma_first_terminal(s);
        if k < s.len() {
            let rest = s.subrange(k + 1, s.len() as int);
            lemma_units_nonempty(rest);
            assert forall|i: int| 0 <= i < spec_units(s).len() implies (
            #[trigger] spec_units(s)[i]).len() > 0 by {
                if i > 0 {
                    assert(spec_units(s)[i] == spec_units(rest)[i - 1]);
                }
            }
        }
    }
}

/// A scan that saw no terminal mark before `m`, and one (or the end) at `m`,
/// has found `first_terminal`.
proof fn lemma_first_terminal_scan(s: Seq<char>, m: int)
    requires
        0 <= m <= s.len(),
        forall|j: int| 0 <= j < m ==> !is_terminal(#[trigger] s[j]),
        m < s.len() ==> is_terminal(s[m]),
    ensures
        first_terminal(s) == m,
    decreases s.len(),
{
    if s.len() == 0 {
    } else if is_terminal(s[0]) {
        assert(m == 0);
    } else {
        assert(m >= 1);
        let t = s.subrange(1, s.len() as int);
        assert(forall|j: int| 0 <= j < m - 1 ==> !is_terminal(#[trigger] t[j])) by {
            assert(forall|j: int| 0 <= j < t.len() ==> t[j] == s[j + 1]);
        }
        assert(m - 1 < t.len() ==> is_terminal(t[m - 1]));
        lemma_first_terminal_scan(t, m - 1);
    }
}

/// Index of the first terminal punctuation mark at or after `a`, or the
/// length.
fn find_terminal(s: &str, a: usize) -> (k: usize)
    requires
        a <= s@.len(),
    ensures
        a <= k <= s@.len(),
        k - a == first_terminal(s@.subrange(a as int, s@.len() as int)),
        k < s@.len() ==> is_terminal(s@[k as int]),
{
    let n = s.unicode_len();
    let mut i = a;
    while i < n
        invariant
            a <= i <= n == s@.len(),
            forall|j: int| a <= j < i ==> !is_terminal(#[trigger] s@[j]),
        decreases n - i,
    {
        let c = s.get_char(i);
        if is_terminal_char(c) {
            proof {
                let t = s@.subrange(a as int, s@.len() as int);
                assert(forall|j: int| 0 <= j < t.len() ==> t[j] == s@[j + a]);
                lemma_first_terminal_scan(t, i - a);
            }
            return i;
        }
        i = i + 1;
    }
    proof {
        let t = s@.subrange(a as int, s@.len() as int);
        assert(forall|j: int| 0 <= j < t.len() ==> t[j] == s@[j + a]);
        lemma_first_terminal_scan(t, t.len() as int);
    }
    n
}

/// Splits the text into its sentence units.
pub fn split_sentences(s: &str) -> (units: Vec<String>)
    ensures
        units@.map_values(|u: String| u@) == spec_units(s@),
{
    let n = s.unicode_len();
    let mut units: Vec<String> = Vec::new();
    proof {
        assert(s@.subrange(0, n as int) =~= s@);
        assert(units@.map_values(|u: String| u@) + spec_units(s@) =~= spec_units(s@));
    }
    let mut i: usize = 0;
    while i < n
        invariant
            i <= n == s@.len(),
            spec_units(s@) == units@.map_values(|u: String| u@) + spec_units(
                s@.subrange(i as int, n as int),
            ),
        decreases n - i,
    {
        let ghost rem = s@.subrange(i as int, n as int);
        let ghost old_units = units@;
        let k = find_terminal(s, i);
        let end = if k < n {
            k + 1
        } else {
            n
        };
        let unit = s.substring_char(i, end).to_owned();
        proof {
            assert(unit@ =~= rem.subrange(0, end - i));
        }
        units.push(unit);
        proof {
            let ghost rem2 = s@.subrange(end as int, n as int);
            assert(rem.subrange(end - i, rem.len() as int) =~= rem2);
            if k < n {
                assert(spec_units(rem) == seq![rem.subrange(0, k - i + 1)] + spec_units(
                    rem.subrange(k - i + 1, rem.len() as int),
                ));
            } else {
                assert(rem.subrange(0, end - i) =~= rem);
                assert(rem2.len() == 0);
                assert(spec_units(rem2) =~= Seq::<Seq<char>>::empty());
                assert(spec_units(rem) == seq![rem]);
            }
            assert(units@.map_values(|u: String| u@) =~= old_units.map_values(|u: String| u@)
                + seq![rem.subrange(0, end - i)]);
            assert(units@.map_values(|u: String| u@) + spec_units(rem2) =~= old_units.map_values(
                |u: String| u@,
            ) + spec_units(rem));
        }
        i = end;
    }
    proof {
        assert(s@.subrange(n as int, n as int).len() == 0);
        assert(spec_units(s@.subrange(n as int, n as int)) =~= Seq::<Seq<char>>::empty());
        assert(units@.map_values(|u: String| u@) =~= spec_units(s@));
    }
    units
}

/// What the orchestrator does with one sentence unit.
#[derive(Clone, Copy, PartialEq, Eq, Structural, Debug)]
pub enum UnitAction {
    /// A lone terminal punctuation mark: one glyph, untranslated.
    Punctuation,
    /// An unterminated final fragment: emitted verbatim, untranslated.
    PassThrough,
    /// Translated through the cache and the generation engine.
    Translate,
}

/// The action for a unit: a lone punctuation mark passes through as a single
/// glyph; otherwise the unit is translated unless it is the final unit and
/// lacks terminal punctuation.
pub open spec fn spec_unit_action(unit: Seq<char>, is_last: bool) -> UnitAction {
    if unit.len() == 1 && is_terminal(unit[0]) {
        UnitAction::Punctuation
    } else if !is_last || is_terminal(unit[unit.len() - 1]) {
        UnitAction::Translate
    } else {
        UnitAction::PassThrough
    }
}

/// Executable unit classification.
pub fn classify_unit(unit: &str, is_last: bool) -> (r: UnitAction)
    requires
        unit@.len() > 0,
    ensures
        r == spec_unit_action(unit@, is_last),
{
    let n = unit.unicode_len();
    if n == 1 && is_terminal_char(unit.get_char(0)) {
        UnitAction::Punctuation
    } else if !is_last || is_terminal_char(unit.get_char(n - 1)) {
        UnitAction::Translate
    } else {
        UnitAction::PassThrough
    }
}

/// The task instruction prepended to each unit to form the prompt.
pub open spec fn prompt_prefix() -> Seq<char> {
    "translate English to German:"@
}

/// Composes the generation prompt for one unit.
pub fn compose_prompt(unit: &str) -> (r: String)
    ensures
        r@ == prompt_prefix() + unit@,
{
    let p = "translate English to German:".to_owned();
    p.concat(unit)
}

/// Single-precision bit pattern of the repeat-penalty factor the orchestrator
/// uses: eleven tenths.
pub const DEFAULT_REPEAT_PENALTY_BITS: u32 = 0x3F8C_CCCD;

/// Double-precision bit pattern of one: the orchestrator's nucleus threshold,
/// which disables nucleus sampling.
pub const DEFAULT_TOP_P_BITS: u64 = 0x3FF0_0000_0000_0000;

/// The fixed generation parameters of the orchestrator: zero temperature
/// (greedy decoding), seed zero, nucleus sampling disabled, the default
/// repeat penalty over a one-token lookback, and at most 512 output tokens.
pub fn build_gen_params(prompt: String) -> (r: ConditionalGenerationParams)
    ensures
        r.prompt@ == prompt@,
        r.temperature_bits == 0,
        r.seed == 0,
        r.top_p_bits == DEFAULT_TOP_P_BITS,
        r.repeat_penalty_bits == DEFAULT_REPEAT_PENALTY_BITS,
        r.repeat_last_n == 1,
        r.max_length == Some(512usize),
{
    ConditionalGenerationParams {
        prompt,
        temperature_bits: 0,
        seed: 0,
        top_p_bits: DEFAULT_TOP_P_BITS,
        repeat_penalty_bits: DEFAULT_REPEAT_PENALTY_BITS,
        repeat_last_n: 1,
        max_length: Some(512),
    }
}

/// Translates one unit through the cache. A hit returns the stored text and
/// touches neither the cache nor the model session, so the generation
/// computation runs at most once per distinct sentence. On a miss the engine
/// runs on the composed prompt; a successful generation is stored and
/// returned, and a failed generation leaves the cache unchanged and returns
/// the unit's own text.
pub fn translate_unit(
    session: &mut ModelConditionalGeneration,
    cache: &mut TranslationCache,
    unit: &str,
) -> (r: String)
    ensures
        old(cache)@.contains_key(unit@) ==> r@ == old(cache)@[unit@]
            && final(cache)@ == old(cache)@
            && *final(session) == *old(session),
        !old(cache)@.contains_key(unit@) ==> (final(cache)@ == old(cache)@ && r@ == unit@)
            || final(cache)@ == old(cache)@.insert(unit@, r@),
{
    match cache.lookup(unit) {
        Some(v) => v,
        None => {
            let prompt = compose_prompt(unit);
            let params = build_gen_params(prompt);
            let outcome = session.decode(params);
            let computed = match outcome {
                Ok(o) => Some(o.generation),
                Err(_) => None,
            };
            cache.settle_miss(unit, computed)
        },
    }
}

/// The cluster counter after emitting all the given unit outputs from
/// `start`, in order.
pub open spec fn counter_after(outputs: Seq<Seq<char>>, start: int, original_len: int) -> int
    decreases outputs.len(),
{
    if outputs.len() == 0 {
        start
    } else {
        counter_after(
            outputs.subrange(1, outputs.len() as int),
            advanced_counter(start, outputs[0].len() as int, original_len),
            original_len,
        )
    }
}

/// The full glyph sequence for the given unit outputs in order, the cluster
/// counter threaded through them from `start`.
pub open spec fn glyphs_for_outputs(outputs: Seq<Seq<char>>, start: int, original_len: int) -> Seq<
    Glyph,
>
    decreases outputs.len(),
{
    if outputs.len() == 0 {
        Seq::<Glyph>::empty()
    } else {
        emitted_glyphs(outputs[0], start, original_len) + glyphs_for_outputs(
            outputs.subrange(1, outputs.len() as int),
            advanced_counter(start, outputs[0].len() as int, original_len),
            original_len,
        )
    }
}

/// Emitting one more unit output extends the glyph sequence at the end and
/// advances the threaded counter by that output's length.
proof fn lemma_glyphs_for_outputs_push(
    outputs: Seq<Seq<char>>,
    out: Seq<char>,
    start: int,
    original_len: int,
)
    ensures
        glyphs_for_outputs(outputs.push(out), start, original_len) == glyphs_for_outputs(
            outputs,
            start,
            original_len,
        ) + emitted_glyphs(out, counter_after(outputs, start, original_len), original_len),
        counter_after(outputs.push(out), start, original_len) == advanced_counter(
            counter_after(outputs, start, original_len),
            out.len() as int,
            original_len,
        ),
    decreases outputs.len(),
{
    let pushed = outputs.push(out);
    if outputs.len() == 0 {
        let rest = pushed.subrange(1, 1);
        let start2 = advanced_counter(start, out.len() as int, original_len);
        assert(pushed[0] == out);
        assert(rest =~= Seq::<Seq<char>>::empty());
        assert(glyphs_for_outputs(rest, start2, original_len) =~= Seq::<Glyph>::empty());
        assert(counter_after(rest, start2, original_len) == start2);
        assert(glyphs_for_outputs(pushed, start, original_len) =~= emitted_glyphs(
            out,
            start,
            original_len,
        ));
        assert(glyphs_for_outputs(outputs, start, original_len) + emitted_glyphs(
            out,
            start,
            original_len,
        ) =~= emitted_glyphs(out, start, original_len));
    } else {
        let tail = outputs.subrange(1, outputs.len() as int);
        let start2 = advanced_counter(start, outputs[0].len() as int, original_len);
        assert(pushed.subrange(1, pushed.len() as int) =~= tail.push(out));
        assert(pushed[0] == outputs[0]);
        lemma_glyphs_for_outputs_push(tail, out, start2, original_len);
        assert(glyphs_for_outputs(pushed, start, original_len) =~= emitted_glyphs(
            outputs[0],
            start,
            original_len,
        ) + (glyphs_for_outputs(tail, start2, original_len) + emitted_glyphs(
            out,
            counter_after(tail, start2, original_len),
            original_len,
        )));
        assert(emitted_glyphs(outputs[0], start, original_len) + (glyphs_for_outputs(
            tail,
            start2,
            original_len,
        ) + emitted_glyphs(out, counter_after(tail, start2, original_len), original_len)) =~= (
        emitted_glyphs(outputs[0], start, original_len) + glyphs_for_outputs(
            tail,
            start2,
            original_len,
        )) + emitted_glyphs(out, counter_after(tail, start2, original_len), original_len));
        assert(counter_after(outputs, start, original_len) == counter_after(
            tail,
            start2,
            original_len,
        ));
        assert(counter_after(pushed, start, original_len) == counter_after(
            tail.push(out),
            start2,
            original_len,
        ));
    }
}

/// What the orchestrator emits for one unit: the unit's own text where it
/// passes through (a lone terminal mark, or an unterminated final fragment),
/// and for a translated unit either the translation the cache holds for it
/// or — where generation failed and nothing was stored — the unit's own text.
pub open spec fn unit_output_ok(
    unit: Seq<char>,
    output: Seq<char>,
    is_last: bool,
    cache: Map<Seq<char>, Seq<char>>,
) -> bool {
    match spec_unit_action(unit, is_last) {
        UnitAction::Translate => (cache.contains_key(unit) && output == cache[unit]) || output
            == unit,
        UnitAction::Punctuation => output == unit,
        UnitAction::PassThrough => output == unit,
    }
}

/// One admissible output text per sentence unit, judged against the cache as
/// the call leaves it.
pub open spec fn unit_outputs_ok(
    units: Seq<Seq<char>>,
    outputs: Seq<Seq<char>>,
    cache: Map<Seq<char>, Seq<char>>,
) -> bool {
    &&& outputs.len() == units.len()
    &&& forall|i: int|
        0 <= i < units.len() ==> unit_output_ok(
            #[trigger] units[i],
            outputs[i],
            i == units.len() - 1,
            cache,
        )
}

/// Shapes a non-numeric buffer: splits the text into sentence units, passes
/// lone punctuation and unterminated final fragments through, translates the
/// rest through the cache, and emits one glyph per output character with
/// sequential, clamped cluster indices. Every cluster lies inside the
/// original buffer, clusters never decrease, and every glyph leaves with
/// zeroed advances, offsets and flags, ready for the final resolution pass.
pub fn translate_buffer(
    session: &mut ModelConditionalGeneration,
    cache: &mut TranslationCache,
    text: &str,
    original_length: usize,
) -> (glyphs: Vec<Glyph>)
    requires
        original_length == text@.len(),
        original_length <= u32::MAX,
    ensures
        forall|i: int|
            0 <= i < glyphs@.len() ==> ((#[trigger] glyphs@[i]).cluster as int) < original_length
                as int,
        forall|i: int, j: int|
            0 <= i < j < glyphs@.len() ==> (#[trigger] glyphs@[i]).cluster <= (
            #[trigger] glyphs@[j]).cluster,
        forall|i: int|
            0 <= i < glyphs@.len() ==> (#[trigger] glyphs@[i]).x_advance == 0 && glyphs@[i].y_advance
                == 0 && glyphs@[i].x_offset == 0 && glyphs@[i].y_offset == 0 && glyphs@[i].flags
                == 0,
        text@.len() == 0 ==> glyphs@.len() == 0,
        exists|outputs: Seq<Seq<char>>|
            #[trigger] unit_outputs_ok(spec_units(text@), outputs, final(cache)@) && glyphs@
                == glyphs_for_outputs(outputs, 0, original_length as int),
{
    let units = split_sentences(text);
    let mut glyphs: Vec<Glyph> = Vec::new();
    let mut cluster_idx: usize = 0;
    let mut u: usize = 0;
    let ghost mut outputs = Seq::<Seq<char>>::empty();
    proof {
        if text@.len() == 0 {
            assert(spec_units(text@) =~= Seq::<Seq<char>>::empty());
            assert(units@.map_values(|x: String| x@).len() == units@.len());
        }
        assert(glyphs_for_outputs(outputs, 0, original_length as int) =~= Seq::<Glyph>::empty());
        assert(counter_after(outputs, 0, original_length as int) == 0);
    }
    while u < units.len()
        invariant
            u <= units@.len(),
            units@.map_values(|x: String| x@) == spec_units(text@),
            original_length == text@.len() <= u32::MAX,
            cluster_idx <= original_length,
            units@.len() > 0 ==> original_length >= 1,
            outputs.len() == u as int,
            glyphs@ == glyphs_for_outputs(outputs, 0, original_length as int),
            cluster_idx as int == counter_after(outputs, 0, original_length as int),
            forall|i: int|
                0 <= i < u ==> unit_output_ok(
                    #[trigger] spec_units(text@)[i],
                    outputs[i],
                    i == spec_units(text@).len() - 1,
                    cache@,
                ),
            forall|i: int|
                0 <= i < glyphs@.len() ==> ((#[trigger] glyphs@[i]).cluster as int)
                    < original_length as int && (glyphs@[i].cluster as int) <= cluster_idx as int,
            forall|i: int, j: int|
                0 <= i < j < glyphs@.len() ==> (#[trigger] glyphs@[i]).cluster <= (
                #[trigger] glyphs@[j]).cluster,
            forall|i: int|
                0 <= i < glyphs@.len() ==> (#[trigger] glyphs@[i]).x_advance == 0
                    && glyphs@[i].y_advance == 0 && glyphs@[i].x_offset == 0 && glyphs@[i].y_offset
                    == 0 && glyphs@[i].flags == 0,
            text@.len() == 0 ==> glyphs@.len() == 0,
        decreases units@.len() - u,
    {
        let is_last = u == units.len() - 1;
        let unit: &String = &units[u];
        proof {
            lemma_units_nonempty(text@);
            assert(units@.map_values(|x: String| x@)[u as int] == unit@);
            assert(unit@.len() > 0);
            if text@.len() == 0 {
                assert(spec_units(text@) =~= Seq::<Seq<char>>::empty());
                assert(false);
            }
        }
        let action = classify_unit(unit.as_str(), is_last);
        let ghost pre_cache = cache@;
        let out_text: String = match action {
            UnitAction::Translate => translate_unit(session, cache, unit.as_str()),
            _ => unit.clone(),
        };
        let ghost pre_glyphs = glyphs@;
        let ghost pre_idx = cluster_idx as int;
        append_unit_glyphs(&mut glyphs, out_text.as_str(), &mut cluster_idx, original_length);
        proof {
            let orig = original_length as int;
            let m = out_text@.len() as int;
            assert(pre_idx <= cluster_idx as int);
            assert forall|i: int|
                0 <= i < glyphs@.len() implies ((#[trigger] glyphs@[i]).cluster as int) < orig && (
            glyphs@[i].cluster as int) <= cluster_idx as int by {
                if i < pre_glyphs.len() {
                    assert(glyphs@[i] == pre_glyphs[i]);
                } else {
                    let j = i - pre_glyphs.len();
                    assert(glyphs@[i] == crate::glyph::pre_glyph(
                        out_text@[j],
                        crate::glyph::clamped_cluster(pre_idx + j, orig),
                    ));
                    let cl = crate::glyph::clamped_cluster(pre_idx + j, orig);
                    assert(0 <= cl < orig);
                    assert(glyphs@[i].cluster as int == cl);
                    if pre_idx + j < orig {
                        assert(cl == pre_idx + j);
                        if pre_idx + m <= orig {
                            assert(cluster_idx as int == pre_idx + m);
                        } else {
                            assert(cluster_idx as int == orig);
                        }
                    } else {
                        assert(cl == orig - 1);
                        assert(cluster_idx as int == orig);
                    }
                }
            }
            assert forall|i: int, j: int|
                0 <= i < j < glyphs@.len() implies (#[trigger] glyphs@[i]).cluster <= (
            #[trigger] glyphs@[j]).cluster by {
                if j >= pre_glyphs.len() {
                    let ja = j - pre_glyphs.len();
                    assert(glyphs@[j] == crate::glyph::pre_glyph(
                        out_text@[ja],
                        crate::glyph::clamped_cluster(pre_idx + ja, orig),
                    ));
                    assert(glyphs@[j].cluster as int == crate::glyph::clamped_cluster(
                        pre_idx + ja,
                        orig,
                    ));
                    if i < pre_glyphs.len() {
                        assert(glyphs@[i] == pre_glyphs[i]);
                        assert((glyphs@[i].cluster as int) <= pre_idx && (glyphs@[i].cluster
                            as int) < orig);
                    } else {
                        let ia = i - pre_glyphs.len();
                        assert(glyphs@[i] == crate::glyph::pre_glyph(
                            out_text@[ia],
                            crate::glyph::clamped_cluster(pre_idx + ia, orig),
                        ));
                        assert(glyphs@[i].cluster as int == crate::glyph::clamped_cluster(
                            pre_idx + ia,
                            orig,
                        ));
                    }
                } else {
                    assert(glyphs@[i] == pre_glyphs[i] && glyphs@[j] == pre_glyphs[j]);
                }
            }
            assert forall|i: int|
                0 <= i < glyphs@.len() implies (#[trigger] glyphs@[i]).x_advance == 0
                && glyphs@[i].y_advance == 0 && glyphs@[i].x_offset == 0 && glyphs@[i].y_offset == 0
                && glyphs@[i].flags == 0 by {
                if i < pre_glyphs.len() {
                    assert(glyphs@[i] == pre_glyphs[i]);
                } else {
                    let j = i - pre_glyphs.len();
                    assert(glyphs@[i] == crate::glyph::pre_glyph(
                        out_text@[j],
                        crate::glyph::clamped_cluster(pre_idx + j, orig),
                    ));
                }
            }
        }
        proof {
            let orig = original_length as int;
            let units_v = spec_units(text@);
            assert(units_v[u as int] == unit@);
            assert(units_v.len() == units@.len());
            lemma_glyphs_for_outputs_push(outputs, out_text@, 0, orig);
            let pre_outputs = outputs;
            outputs = outputs.push(out_text@);
            assert(glyphs@ == glyphs_for_outputs(outputs, 0, orig));
            assert(cluster_idx as int == counter_after(outputs, 0, orig));
            assert forall|i: int|
                0 <= i < u + 1 implies unit_output_ok(
                #[trigger] units_v[i],
                outputs[i],
                i == units_v.len() - 1,
                cache@,
            ) by {
                if i < u {
                    assert(outputs[i] == pre_outputs[i]);
                    assert(unit_output_ok(units_v[i], pre_outputs[i], i == units_v.len() - 1,
                        pre_cache,
                    ));
                    if cache@ != pre_cache {
                        assert(!pre_cache.contains_key(unit@) && cache@ == pre_cache.insert(
                            unit@,
                            out_text@,
                        ));
                        if pre_cache.contains_key(units_v[i]) {
                            assert(units_v[i] != unit@);
                            assert(cache@.contains_key(units_v[i]) && cache@[units_v[i]]
                                == pre_cache[units_v[i]]);
                        }
                    }
                } else {
                    assert(outputs[i] == out_text@);
                    assert(units_v[i] == unit@);
                    assert((i == units_v.len() - 1) == is_last);
                    assert(action == spec_unit_action(unit@, is_last));
                    if action == UnitAction::Translate {
                        if pre_cache.contains_key(unit@) {
                            assert(out_text@ == pre_cache[unit@] && cache@ == pre_cache);
                        }
                    } else {
                        assert(out_text@ == unit@);
                    }
                }
            }
        }
        u = u + 1;
    }
    proof {
        assert(outputs.len() == units@.len());
        assert(spec_units(text@).len() == units@.len());
        assert(unit_outputs_ok(spec_units(text@), outputs, cache@));
        assert(glyphs@ == glyphs_for_outputs(outputs, 0, original_length as int));
    }
    glyphs
}

/// What String::from_utf8_lossy yields on the given bytes: a function of the
/// bytes alone.
pub uninterp spec fn lossy_decoded(bytes: Seq<u8>) -> Seq<char>;

/// Relies on String::from_utf8_lossy: decodes the buffer's bytes as UTF-8,
/// replacing invalid sequences with the replacement character. The result is
/// a function of the bytes alone, and an empty input decodes to the empty
/// string.
#[verifier::external_body]
fn utf8_lossy(bytes: &Vec<u8>) -> (r: String)
    ensures
        r@ == lossy_decoded(bytes@),
        bytes@.len() == 0 ==> r@.len() == 0,
{
    String::from_utf8_lossy(bytes.as_slice()).into_owned()
}

/// The low byte of each buffer codepoint: how the host buffer carries the
/// text's bytes before shaping.
pub open spec fn low_bytes(codepoints: Seq<u32>) -> Seq<u8> {
    codepoints.map_values(|c: u32| (c % 256) as u8)
}

/// Reconstructs the text to shape from the host buffer's codepoints: their
/// low bytes decoded as UTF-8, invalid sequences replaced.
pub fn buffer_text(codepoints: &Vec<u32>) -> (r: String)
    ensures
        r@ == lossy_decoded(low_bytes(codepoints@)),
        codepoints@.len() == 0 ==> r@.len() == 0,
{
    let mut bytes: Vec<u8> = Vec::new();
    let mut i: usize = 0;
    while i < codepoints.len()
        invariant
            i <= codepoints@.len(),
            bytes@ =~= low_bytes(codepoints@.subrange(0, i as int)),
        decreases codepoints@.len() - i,
    {
        let b: u8 = (codepoints[i] % 256) as u8;
        proof {
            assert(codepoints@.subrange(0, i + 1 as int) =~= codepoints@.subrange(0, i as int).push(
                codepoints@[i as int],
            ));
            assert(low_bytes(codepoints@.subrange(0, i + 1 as int)) =~= low_bytes(
                codepoints@.subrange(0, i as int),
            ).push((codepoints@[i as int] % 256) as u8));
        }
        bytes.push(b);
        i = i + 1;
    }
    proof {
        assert(codepoints@.subrange(0, codepoints@.len() as int) =~= codepoints@);
        assert(bytes@ =~= low_bytes(codepoints@));
    }
    utf8_lossy(&bytes)
}

} // verus!
