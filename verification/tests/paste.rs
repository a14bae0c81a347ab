//! The paste chord, and the permission that it needs.

use beckon_macos::paste::{
    paste_gated, paste_sequence, paste_to_frontmost, posted, KeyStroke, PasteStep, Recorder,
    UNTRUSTED_ERR,
};

fn strokes(recorder: &Recorder) -> Vec<KeyStroke> {
    recorder.posted.iter().map(|(stroke, _)| *stroke).collect()
}

#[test]
fn golden_paste_sequence_when_trusted() {
    let mut recorder = Recorder::new(9, "");
    let result = paste_gated(true, &mut recorder);
    assert_eq!(result, Ok(()));
    assert_eq!(
        strokes(&recorder),
        vec![
            KeyStroke { keycode: 9, flags: 1 << 20, down: true },
            KeyStroke { keycode: 9, flags: 1 << 20, down: false },
        ],
        "the chord must be exactly V-down then V-up, both command-flagged"
    );
}

#[test]
fn untrusted_refuses_and_posts_nothing() {
    let mut recorder = Recorder::new(9, "");
    let err = paste_gated(false, &mut recorder).unwrap_err();
    assert!(
        err.contains("Accessibility permission not granted"),
        "refusal must name the missing grant: {err}"
    );
    assert!(recorder.posted.is_empty(), "no stroke may reach the poster when untrusted");
}

#[test]
fn poster_error_aborts_the_sequence() {
    let mut recorder = Recorder::new(0, "post failed");
    let result = paste_gated(true, &mut recorder);
    assert_eq!(result, Err("post failed".to_string()));
    assert_eq!(recorder.posted.len(), 1, "the first failure must stop the sequence");
}

#[test]
fn a_refused_release_ends_the_paste() {
    let mut recorder = Recorder::new(1, "no release");
    assert_eq!(paste_gated(true, &mut recorder), Err("no release".to_string()));
    assert_eq!(strokes(&recorder), paste_sequence());
    // A second paste is added to what was posted before.
    recorder.accepts = 9;
    assert_eq!(paste_gated(true, &mut recorder), Ok(()));
    assert_eq!(recorder.posted.len(), 4);
}

#[test]
fn steps_follow_one_another() {
    let strokes = paste_sequence();
    assert_eq!(
        paste_to_frontmost(true),
        PasteStep::Post { position: 0, stroke: strokes[0] }
    );
    assert_eq!(posted(0, Ok(())), PasteStep::Post { position: 1, stroke: strokes[1] });
    assert_eq!(posted(1, Ok(())), PasteStep::Over(Ok(())));
    assert_eq!(posted(1, Err("no".to_string())), PasteStep::Over(Err("no".to_string())));
    assert_eq!(paste_to_frontmost(false), PasteStep::Over(Err(UNTRUSTED_ERR.to_string())));
}
