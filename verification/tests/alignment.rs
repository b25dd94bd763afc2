use live_captions::align::align;
use live_captions::caption::{
    build_from_alignment, display_duration_ms, timed_event, CaptionEvent, Media, MediaKind,
    Position, Style, ThresholdPolicy,
};
use live_captions::script::{ScriptContainer, ScriptLine};
use live_captions::similarity::{score, Score};

use textdistance::{Algorithm, SorensenDice};

fn corpus_of(texts: &[&str]) -> ScriptContainer {
    let mut c = ScriptContainer::new();
    for (i, t) in texts.iter().enumerate() {
        c.add_line(ScriptLine::new(
            i,
            format!("speaker{}", i),
            format!("00:00:0{}", i),
            t.to_string(),
        ));
    }
    c
}

fn default_style() -> Style {
    Style {
        color: "#FFCC00".to_string(),
        font_size: "28px".to_string(),
        font_family: "Arial".to_string(),
        position: Position {
            x: "50%".to_string(),
            y: "10%".to_string(),
        },
    }
}

#[test]
fn score_of_identical_strings_is_one() {
    for s in ["", "a", "Hello there", "abca bc"] {
        let r = score(s, s);
        assert_eq!(r.num, r.den);
        assert!(r.den >= 1);
    }
}

#[test]
fn score_stays_within_unit_interval() {
    let pairs = [
        ("", ""),
        ("nelson", ""),
        ("", "neilsen"),
        ("test", "text"),
        ("french", "quebec"),
        ("Hello there", "Goodbye now"),
    ];
    for (a, b) in pairs {
        let r = score(a, b);
        assert!(r.den >= 1);
        assert!(r.num <= r.den);
    }
}

#[test]
fn score_is_symmetric() {
    let pairs = [("test", "text"), ("Hello there", "Hello their"), ("", "a"), ("abc", "cab")];
    for (a, b) in pairs {
        let fwd = score(a, b);
        let bwd = score(b, a);
        assert_eq!((fwd.num, fwd.den), (bwd.num, bwd.den));
    }
}

#[test]
fn score_has_exact_expected_values() {
    // "test" vs "text": shared characters t, t, e -> 2*3 / (4+4).
    let r = score("test", "text");
    assert_eq!((r.num, r.den), (6, 8));
    // Empty vs empty is defined as 1; empty vs non-empty is 0.
    assert_eq!(score("", "").num, score("", "").den);
    assert_eq!(score("", "neilsen").num, 0);
    // No characters in common.
    // "french" vs "quebec" share one e and one c: 2*2 / (6+6).
    assert_eq!(score("french", "quebec").num, 4);
    assert_eq!(score("french", "quebec").den, 12);
}

#[test]
fn score_matches_reference_metric() {
    let pairs = [
        ("test", "text"),
        ("iphone", "iphone x"),
        ("healed", "sealed"),
        ("Hello there", "Hello their"),
        ("a", "a"),
        ("", "nelson"),
    ];
    for (a, b) in pairs {
        let r = score(a, b);
        let oracle = SorensenDice::default().for_str(a, b).nval();
        let ours = r.num as f64 / r.den as f64;
        assert!(
            (ours - oracle).abs() < 1e-9,
            "mismatch on ({a}, {b}): {ours} vs {oracle}"
        );
    }
}

#[test]
fn align_ranks_best_match_first() {
    // corpus = ["Hello there", "Goodbye now"], utterance = "Hello their"
    let corpus = corpus_of(&["Hello there", "Goodbye now"]);
    let top = align("Hello their", &corpus, 1);
    assert_eq!(top.len(), 1);
    assert_eq!(top[0].index, 0);
    // Top-1 score is above 0.5: 20/22 exactly.
    assert_eq!((top[0].score.num, top[0].score.den), (20, 22));
    assert!(2 * top[0].score.num > top[0].score.den);
}

#[test]
fn align_returns_min_k_corpus_candidates_descending() {
    let corpus = corpus_of(&["Hello there", "Goodbye now", "Hello there"]);
    let r = align("Hello their", &corpus, 2);
    assert_eq!(r.len(), 2);
    // Equal scores for lines 0 and 2: the earlier line wins the tie.
    assert_eq!(r[0].index, 0);
    assert_eq!(r[1].index, 2);
    assert_eq!(r[0].score, r[1].score);

    // k larger than the corpus: every line is returned, best first.
    let all = align("Hello their", &corpus, 10);
    assert_eq!(all.len(), 3);
    assert_eq!(all[0].index, 0);
    assert_eq!(all[1].index, 2);
    assert_eq!(all[2].index, 1);
    // Scores are descending.
    for w in all.windows(2) {
        assert!(
            (w[0].score.num as u128) * (w[1].score.den as u128)
                >= (w[1].score.num as u128) * (w[0].score.den as u128)
        );
    }
}

#[test]
fn align_on_empty_corpus_is_empty() {
    let corpus = ScriptContainer::new();
    let r = align("anything", &corpus, 5);
    assert!(r.is_empty());
}

#[test]
fn builder_accepts_match_at_threshold() {
    let corpus = corpus_of(&["Hello there", "Goodbye now"]);
    let cands = align("Hello their", &corpus, 1);
    let threshold = Score { num: 1, den: 2 };
    let ev = build_from_alignment(
        &corpus,
        &cands,
        &threshold,
        &ThresholdPolicy::Suppress,
        &None,
        &default_style(),
    );
    let ev = ev.expect("score 20/22 is above 1/2");
    assert_eq!(ev.text, "Hello there");
    assert_eq!(ev.speaker.as_deref(), Some("speaker0"));
    assert!(ev.media.is_none());
}

#[test]
fn builder_below_threshold_follows_policy() {
    let corpus = corpus_of(&["Hello there", "Goodbye now"]);
    let cands = align("zzzz", &corpus, 1);
    let threshold = Score { num: 9, den: 10 };

    // Suppress: nothing is emitted.
    let suppressed = build_from_alignment(
        &corpus,
        &cands,
        &threshold,
        &ThresholdPolicy::Suppress,
        &None,
        &default_style(),
    );
    assert!(suppressed.is_none());

    // HoldPrevious: the previous event is emitted again.
    let prev = CaptionEvent {
        text: "previous".to_string(),
        speaker: None,
        style: default_style(),
        media: None,
    };
    let held = build_from_alignment(
        &corpus,
        &cands,
        &threshold,
        &ThresholdPolicy::HoldPrevious,
        &Some(prev),
        &default_style(),
    );
    assert_eq!(held.expect("previous event is held").text, "previous");

    // EmitMarker: the caller's low-confidence marker is emitted.
    let marker = CaptionEvent {
        text: "[low confidence]".to_string(),
        speaker: None,
        style: default_style(),
        media: None,
    };
    let marked = build_from_alignment(
        &corpus,
        &cands,
        &threshold,
        &ThresholdPolicy::EmitMarker(marker),
        &None,
        &default_style(),
    );
    assert_eq!(marked.expect("marker is emitted").text, "[low confidence]");
}

#[test]
fn builder_paths_emit_nothing_on_empty_corpus() {
    let corpus = ScriptContainer::new();
    let cands = align("anything", &corpus, 3);
    let r = build_from_alignment(
        &corpus,
        &cands,
        &Score { num: 0, den: 1 },
        &ThresholdPolicy::Suppress,
        &None,
        &default_style(),
    );
    assert!(r.is_none());
    // Timer-driven path terminates at once.
    let mut position = 0;
    while let Some(_ev) = timed_event(&corpus, position, &default_style()) {
        position += 1;
    }
    assert_eq!(position, 0);
}

#[test]
fn timed_events_walk_the_script_in_order() {
    let corpus = corpus_of(&["one", "two"]);
    let style = default_style();
    let first = timed_event(&corpus, 0, &style).expect("line 0 exists");
    assert_eq!(first.text, "one");
    assert_eq!(first.speaker.as_deref(), Some("speaker0"));
    let second = timed_event(&corpus, 1, &style).expect("line 1 exists");
    assert_eq!(second.text, "two");
    assert!(timed_event(&corpus, 2, &style).is_none());
}

#[test]
fn display_duration_prefers_media_duration() {
    let style = default_style();
    let mut ev = CaptionEvent {
        text: "t".to_string(),
        speaker: None,
        style,
        media: Some(Media {
            kind: MediaKind::Video,
            url: "https://example.invalid/v.mp4".to_string(),
            duration_ms: Some(8000),
        }),
    };
    assert_eq!(display_duration_ms(&ev, 5000), 8000);
    // A media entry without a duration degrades to the default.
    ev.media = Some(Media {
        kind: MediaKind::Image,
        url: "https://example.invalid/i.png".to_string(),
        duration_ms: None,
    });
    assert_eq!(display_duration_ms(&ev, 5000), 5000);
    ev.media = None;
    assert_eq!(display_duration_ms(&ev, 5000), 5000);
}
