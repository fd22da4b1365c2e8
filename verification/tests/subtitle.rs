//! Subtitles: normalising, wrapping and the stabilizer.

use translator_core::protocol::{Float64, SubtitleKind};
use translator_core::subtitle::{
    normalize, trim_to_last, wrap, SubtitleConfig, SubtitleStabilizer,
};

fn one() -> Float64 {
    Float64 { bits: 1.0f64.to_bits() }
}

#[test]
fn keeps_only_the_last_lines() {
    let mut subs = SubtitleStabilizer::new(SubtitleConfig {
        max_lines: 2,
        ..Default::default()
    });
    subs.on_final("first", 0, 100, one(), "s").unwrap();
    subs.on_final("second", 100, 200, one(), "s").unwrap();
    let third = subs.on_final("third", 200, 300, one(), "s").unwrap();
    assert_eq!(third.lines, vec!["second".to_string(), "third".to_string()]);
}

#[test]
fn ignores_repeated_finals() {
    let mut subs = SubtitleStabilizer::new(SubtitleConfig::default());
    assert!(subs.on_final("same", 0, 100, one(), "s").is_some());
    assert!(subs.on_final("same", 100, 200, one(), "s").is_none());
}

#[test]
fn appends_partial_below_history() {
    let mut subs = SubtitleStabilizer::new(SubtitleConfig::default());
    subs.on_final("committed", 0, 100, one(), "s").unwrap();
    let partial = subs.on_partial("typing", 100, 200, "s").unwrap();
    assert_eq!(partial.lines, vec!["committed".to_string(), "typing".to_string()]);
    assert_eq!(partial.kind, SubtitleKind::Partial.value());
}

#[test]
fn wraps_long_lines() {
    let long = "あ".repeat(10);
    let wrapped = wrap(&long, 4);
    assert_eq!(wrapped, vec!["ああああ", "ああああ", "ああ"]);
}

#[test]
fn wrapping_at_the_edges() {
    assert_eq!(wrap("", 4), vec![""]);
    assert_eq!(wrap("abcd", 0), vec!["abcd"]);
    assert_eq!(wrap("abcd", 4), vec!["abcd"]);
    assert_eq!(wrap("abcde", 4), vec!["abcd", "e"]);
    assert_eq!(wrap("abcdefgh", 4), vec!["abcd", "efgh"]);
    assert_eq!(wrap("abc", 1), vec!["a", "b", "c"]);
    assert_eq!(wrap("some text that wraps", 7).concat(), "some text that wraps");
}

#[test]
fn normalising_keeps_single_spaces() {
    assert_eq!(normalize("  a \t b\n\u{3000}c  "), "a b c");
    assert_eq!(normalize(" \n "), "");
    assert_eq!(normalize(&normalize(" x  y ")), normalize(" x  y "));
}

#[test]
fn the_last_lines_stay() {
    let lines = |n: usize| (0..n).map(|i| i.to_string()).collect::<Vec<_>>();
    assert_eq!(trim_to_last(lines(8), 6), vec!["2", "3", "4", "5", "6", "7"]);
    assert_eq!(trim_to_last(lines(6), 6), lines(6));
    assert_eq!(trim_to_last(lines(2), 0), Vec::<String>::new());
}

#[test]
fn events_carry_everything() {
    let mut subs = SubtitleStabilizer::new(SubtitleConfig::default());
    let partial = subs.on_partial(" hello   there ", 5, 9, "id").unwrap();
    assert_eq!(partial.session_id, "id");
    assert_eq!(partial.seq, 1);
    assert_eq!(partial.text, "hello there");
    assert_eq!(partial.translated_text, "");
    assert_eq!(partial.language, "");
    assert_eq!((partial.start_us, partial.end_us), (5, 9));
    assert_eq!(partial.confidence, Float64 { bits: 0 });
    let last = subs.on_final("hello there", 5, 12, one(), "id").unwrap();
    assert_eq!(last.seq, 2);
    assert_eq!(last.kind, SubtitleKind::Committed.value());
    assert_eq!(last.confidence, one());
    assert_eq!(last.lines, vec!["hello there"]);
}

#[test]
fn empty_texts_show_nothing() {
    let mut subs = SubtitleStabilizer::new(SubtitleConfig::default());
    assert!(subs.on_partial("  ", 0, 1, "s").is_none());
    assert!(subs.on_final("\n", 0, 1, one(), "s").is_none());
    assert_eq!(subs.on_partial("x", 0, 1, "s").unwrap().seq, 1);
}

#[test]
fn a_reset_forgets_the_history_and_keeps_counting() {
    let mut subs = SubtitleStabilizer::new(SubtitleConfig::default());
    subs.on_final("same", 0, 1, one(), "s").unwrap();
    subs.reset();
    let again = subs.on_final("same", 1, 2, one(), "s").unwrap();
    assert_eq!(again.seq, 2);
    assert_eq!(again.lines, vec!["same"]);
}

#[test]
fn committed_lines_are_capped() {
    let mut subs = SubtitleStabilizer::new(SubtitleConfig {
        max_lines: 3,
        max_chars_per_line: 2,
        partial_interval_ms: 0,
    });
    subs.on_final("aabbcc", 0, 1, one(), "s").unwrap();
    subs.on_final("ddeeff", 0, 1, one(), "s").unwrap();
    let event = subs.on_final("gghh", 0, 1, one(), "s").unwrap();
    assert_eq!(event.lines, vec!["cc", "dd", "ee", "ff", "gg", "hh"]);
}

#[test]
fn at_least_one_utterance_is_kept() {
    let mut subs = SubtitleStabilizer::new(SubtitleConfig {
        max_lines: 0,
        ..Default::default()
    });
    subs.on_final("a", 0, 1, one(), "s").unwrap();
    assert_eq!(subs.on_final("b", 0, 1, one(), "s").unwrap().lines, vec!["b"]);
}

#[test]
fn the_default_layout() {
    let cfg = SubtitleConfig::default();
    assert_eq!((cfg.max_lines, cfg.max_chars_per_line, cfg.partial_interval_ms), (2, 42, 120));
}

#[test]
fn a_partial_leaves_the_history_alone() {
    let mut subs = SubtitleStabilizer::new(SubtitleConfig::default());
    subs.on_final("same", 0, 1, one(), "s").unwrap();
    subs.on_partial("other", 1, 2, "s").unwrap();
    assert!(subs.on_final("same", 2, 3, one(), "s").is_none());
    let event = subs.on_partial("next", 3, 120_002, "s").unwrap();
    assert_eq!(event.lines, vec!["same", "next"]);
}

#[test]
fn partial_lines_are_capped() {
    let mut subs = SubtitleStabilizer::new(SubtitleConfig {
        max_lines: 2,
        max_chars_per_line: 1,
        partial_interval_ms: 0,
    });
    let event = subs.on_partial("abcdefg", 0, 1, "s").unwrap();
    assert_eq!(event.lines, vec!["b", "c", "d", "e", "f", "g"]);
    subs.on_final("xyz", 1, 2, one(), "s").unwrap();
    let event = subs.on_partial("abcd", 2, 3, "s").unwrap();
    assert_eq!(event.lines, vec!["y", "z", "a", "b", "c", "d"]);
}

#[test]
fn partials_keep_their_distance() {
    let mut subs = SubtitleStabilizer::new(SubtitleConfig::default());
    assert_eq!(subs.on_partial("a", 0, 1_000, "s").unwrap().seq, 1);
    assert!(subs.on_partial("ab", 0, 1_000, "s").is_none());
    assert!(subs.on_partial("ab", 0, 120_999, "s").is_none());
    assert_eq!(subs.on_partial("ab", 0, 121_000, "s").unwrap().seq, 2);
    // A final text or a reset lets the next one show at once.
    subs.on_final("ab", 0, 121_001, one(), "s").unwrap();
    assert!(subs.on_partial("c", 0, 121_002, "s").is_some());
    subs.reset();
    assert!(subs.on_partial("d", 0, 121_003, "s").is_some());
    // A clock that went back does not hold texts up.
    assert!(subs.on_partial("e", 0, 5, "s").is_some());
}

#[test]
fn the_longest_spacing_does_not_overflow() {
    let mut subs = SubtitleStabilizer::new(SubtitleConfig {
        partial_interval_ms: u64::MAX,
        ..Default::default()
    });
    assert!(subs.on_partial("a", 0, 1, "s").is_some());
    assert!(subs.on_partial("b", 0, u64::MAX, "s").is_none());
}

#[test]
fn a_dropped_final_changes_nothing() {
    let mut subs = SubtitleStabilizer::new(SubtitleConfig::default());
    subs.on_final("same", 0, 1, one(), "s").unwrap();
    assert_eq!(subs.on_partial("a", 0, 1_000, "s").unwrap().seq, 2);
    for dropped in ["", " ", "same", " same "] {
        assert!(subs.on_final(dropped, 0, 1_000, one(), "s").is_none());
        assert!(subs.on_partial("b", 0, 1_001, "s").is_none());
    }
    assert_eq!(subs.on_partial("b", 0, 121_000, "s").unwrap().seq, 3);
}

#[test]
fn only_the_latest_final_counts_as_a_repeat() {
    let mut subs = SubtitleStabilizer::new(SubtitleConfig::default());
    let seqs: Vec<Option<u64>> = ["a", "b", "a", "a", "", "b"]
        .iter()
        .map(|text| subs.on_final(text, 0, 1, one(), "s").map(|e| e.seq))
        .collect();
    assert_eq!(seqs, vec![Some(1), Some(2), Some(3), None, None, Some(4)]);
}

#[test]
fn no_two_partials_end_close_together() {
    let mut subs = SubtitleStabilizer::new(SubtitleConfig::default());
    let shown: Vec<u64> = (0..20)
        .map(|i| i * 50_000)
        .filter(|end_us| subs.on_partial("x", 0, *end_us, "s").is_some())
        .collect();
    assert_eq!(shown, vec![0, 150_000, 300_000, 450_000, 600_000, 750_000, 900_000]);
}
