//! The steps of the tour.

use beckon_macos::walkthrough::{
    done_path_in, step_rows, steps, tips, Tour, FOOTER_HINT, OFFER_SUBTITLE, OFFER_TITLE,
    TOUR_FOOTER,
};

#[test]
fn steps_are_well_formed() {
    assert!(steps().len() >= 5);
    for step in steps() {
        assert!(!step.title.is_empty());
        assert!(!step.summary.is_empty());
        assert!(!step.examples.is_empty());
        for (q, why) in step.examples {
            assert!(!q.is_empty() && !why.is_empty());
        }
    }
}

#[test]
fn rows_lead_with_the_advance_row_and_end() {
    let n = steps().len();
    for i in 0..n {
        let rows = step_rows(i).unwrap();
        assert!(rows[0].2, "row 0 must be the activatable one");
        assert!(rows[1..].iter().all(|r| !r.2));
        if i + 1 == n {
            assert!(rows[0].0.starts_with('\u{2713}'));
        } else {
            assert!(rows[0].0.contains(&format!("{}/{}", i + 1, n)));
        }
    }
    assert!(step_rows(n).is_none());
}

#[test]
fn every_row_fits_the_panel_width() {
    const BUDGET: usize = 62;
    for i in 0..steps().len() {
        for (title, subtitle, _) in step_rows(i).unwrap() {
            let total = title.chars().count() + subtitle.chars().count();
            assert!(
                total <= BUDGET,
                "step {i} row too wide ({total} > {BUDGET}): {title:?} {subtitle:?}"
            );
        }
    }
    for (q, why) in tips() {
        let total = "try: ".len() + q.chars().count() + why.chars().count();
        assert!(total <= BUDGET, "tip too wide: {q:?} {why:?}");
    }
}

#[test]
fn tips_are_the_examples_of_all_steps() {
    let all: Vec<(&str, &str)> = steps().into_iter().flat_map(|s| s.examples).collect();
    assert_eq!(tips(), all);
    assert_eq!(tips()[0], ("saf", "fuzzy matches Safari"));
    assert_eq!(step_rows(0).unwrap()[1].0, "try: saf");
    assert_eq!(step_rows(0).unwrap()[0].0, "\u{25B8} 1/7 Welcome to beckon");
}

#[test]
fn the_marker_lies_below_the_store_root() {
    assert_eq!(done_path_in("/x/store"), "/x/store/walkthrough_done");
}

#[test]
fn the_offer_retires_once_the_tour_is_finished() {
    let mut tour = Tour::new(false);
    assert!(tour.is_offered("") && tour.is_offered("walkthrough"));
    assert!(!tour.is_offered("walk") && !tour.is_offered("Walkthrough"));
    for i in 0..steps().len() {
        assert!(!tour.go_on());
        assert_eq!(tour.step, Some(i));
        assert!(!tour.done);
    }
    assert!(tour.go_on());
    assert_eq!(tour, Tour { done: true, step: None });
    assert!(!tour.is_offered("") && tour.is_offered("walkthrough"));
    // It can be taken again, and stays finished.
    assert!(!tour.go_on());
    assert_eq!(tour, Tour { done: true, step: Some(0) });
    tour.leave();
    assert_eq!(tour, Tour { done: true, step: None });
}

#[test]
fn the_foot_of_the_panel_says_what_return_does() {
    let mut tour = Tour::new(false);
    assert_eq!(tour.footer(""), Some(FOOTER_HINT));
    assert_eq!(tour.footer("x"), None);
    tour.go_on();
    assert_eq!(tour.footer(""), Some(TOUR_FOOTER));
    tour.leave();
    assert_eq!(tour.footer(""), Some(FOOTER_HINT));
    assert_eq!(Tour::new(true).footer(""), None);
    assert!(OFFER_TITLE.chars().count() + OFFER_SUBTITLE.chars().count() <= 62);
}
