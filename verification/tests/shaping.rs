//! Tests of the numeric fast path, sentence segmentation, cluster assignment
//! and the final glyph-resolution step.

use llamattf::glyph::{append_unit_glyphs, numeric_glyphs, resolved_glyph, Glyph};
use llamattf::numeric::is_number;
use llamattf::orchestrator::{
    buffer_text, classify_unit, compose_prompt, is_terminal_char, split_sentences, UnitAction,
};

fn glyph(codepoint: u32, cluster: u32) -> Glyph {
    Glyph {
        codepoint,
        cluster,
        x_advance: 0,
        y_advance: 0,
        x_offset: 0,
        y_offset: 0,
        flags: 0,
    }
}

#[test]
fn numeric_accepts_integers_and_floats() {
    for s in [
        "123", "+123", "-42", "0", "-0", "3.14", "+3.14", "-0.5", "1.", ".5", "12.5e3", "1e9",
        "1E-9", "2e+10", "inf", "Inf", "-inf", "infinity", "-INFINITY", "nan", "NaN", "-NaN",
        "99999999999999999999999999999999",
    ] {
        assert!(is_number(s), "expected numeric: {}", s);
    }
}

#[test]
fn numeric_rejects_non_numbers() {
    for s in [
        "", "+", "-", ".", "+.", "abc", "12a", "a12", "1.2.3", "1e", "1e+", "e9", "in", "infin",
        "na", "1 2", " 1", "1 ", "--1", "+-1", "1.2e3.4", "0x10",
    ] {
        assert!(!is_number(s), "expected non-numeric: {}", s);
    }
}

#[test]
fn numeric_matches_standard_parsers() {
    for s in [
        "123", "-42", "+0", "3.14", "1.", ".5", "1e5", "1e", "abc", "", "inf", "nan", "1.2.3",
        "12a", "99999999999999999999999999999999", "-1E-300", "5e-", "  7", "7.0e2",
    ] {
        let expected = s.parse::<isize>().is_ok() || s.parse::<f64>().is_ok();
        assert_eq!(is_number(s), expected, "disagreement on: {}", s);
    }
}

#[test]
fn numeric_buffer_maps_one_to_one() {
    let glyphs = numeric_glyphs("123");
    assert_eq!(glyphs.len(), 3);
    assert_eq!(glyphs[0], glyph('1' as u32, 0));
    assert_eq!(glyphs[1], glyph('2' as u32, 1));
    assert_eq!(glyphs[2], glyph('3' as u32, 2));
}

#[test]
fn split_keeps_terminal_punctuation() {
    let units = split_sentences("Hello. World!");
    assert_eq!(units, vec!["Hello.".to_string(), " World!".to_string()]);
}

#[test]
fn split_makes_lone_punctuation_its_own_unit() {
    let units = split_sentences("Wow!!");
    assert_eq!(units, vec!["Wow!".to_string(), "!".to_string()]);
}

#[test]
fn split_keeps_unterminated_tail() {
    let units = split_sentences("One. two");
    assert_eq!(units, vec!["One.".to_string(), " two".to_string()]);
    assert_eq!(split_sentences(""), Vec::<String>::new());
    assert_eq!(split_sentences("..."), vec![".".to_string(), ".".to_string(), ".".to_string()]);
}

#[test]
fn terminal_punctuation_marks() {
    assert!(is_terminal_char('.'));
    assert!(is_terminal_char('!'));
    assert!(is_terminal_char('?'));
    assert!(!is_terminal_char(','));
    assert!(!is_terminal_char('a'));
}

#[test]
fn classification_follows_the_lookahead_rule() {
    // a lone terminal mark passes through as a single glyph, translated never
    assert_eq!(classify_unit("!", true), UnitAction::Punctuation);
    assert_eq!(classify_unit("!", false), UnitAction::Punctuation);
    // any unit before the last is translated
    assert_eq!(classify_unit("Hello.", false), UnitAction::Translate);
    assert_eq!(classify_unit("fragment", false), UnitAction::Translate);
    // the final unit is translated only when it ends in a terminal mark
    assert_eq!(classify_unit(" World!", true), UnitAction::Translate);
    assert_eq!(classify_unit("fragment", true), UnitAction::PassThrough);
}

#[test]
fn clusters_are_sequential_then_clamped() {
    let mut out: Vec<Glyph> = Vec::new();
    let mut cluster_idx: usize = 0;
    append_unit_glyphs(&mut out, "abcd", &mut cluster_idx, 2);
    assert_eq!(cluster_idx, 2);
    let clusters: Vec<u32> = out.iter().map(|g| g.cluster).collect();
    assert_eq!(clusters, vec![0, 1, 1, 1]);
    // a later unit keeps clamping onto the last valid position
    append_unit_glyphs(&mut out, "e", &mut cluster_idx, 2);
    assert_eq!(out.last().unwrap().cluster, 1);
}

#[test]
fn resolution_rewrites_codepoint_and_advance_only() {
    let g = glyph('A' as u32, 7);
    let r = resolved_glyph(&g, 42, 512);
    assert_eq!(r.codepoint, 42);
    assert_eq!(r.x_advance, 512);
    assert_eq!(r.cluster, 7);
    assert_eq!(r.y_advance, 0);
    assert_eq!(r.x_offset, 0);
    assert_eq!(r.y_offset, 0);
    assert_eq!(r.flags, 0);
}

#[test]
fn buffer_text_decodes_low_bytes() {
    let codepoints: Vec<u32> = vec!['H' as u32, 'i' as u32, '!' as u32];
    assert_eq!(buffer_text(&codepoints), "Hi!".to_string());
    // only the low byte of each codepoint carries text
    let high: Vec<u32> = vec![0x148, 0x69];
    assert_eq!(buffer_text(&high), "Hi".to_string());
    // invalid UTF-8 decodes lossily
    let bad: Vec<u32> = vec![0xFF];
    assert_eq!(buffer_text(&bad), "\u{FFFD}".to_string());
    assert_eq!(buffer_text(&Vec::new()), String::new());
}

#[test]
fn prompt_carries_the_task_instruction() {
    assert_eq!(compose_prompt("Hello."), "translate English to German:Hello.".to_string());
}
