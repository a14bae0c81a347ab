//! Window geometry on concrete screens.

use beckon_macos::cycle::wrap;
use beckon_macos::router::ItemKind;
use beckon_macos::winmgmt::{
    activate, all_actions, appkit_to_ax, apply, can_flip, can_place, compute_target, frame_matches, items, placement,
    screen_index, screens_ax, span, ApplyEvent, ApplyStage, ApplyStep, Rect, REACH,
};

/// A 1600x1000 primary display with a 25 point menu bar.
const SCREEN: Rect = Rect { x: 0, y: 25, w: 1600, h: 975 };

fn win() -> Rect {
    Rect { x: 100, y: 100, w: 800, h: 600 }
}

fn one() -> Vec<Rect> {
    vec![SCREEN]
}

fn t(id: &str) -> Rect {
    compute_target(id, &one(), win()).expect("known action")
}

fn r(x: i64, y: i64, w: i64, h: i64) -> Rect {
    Rect { x, y, w, h }
}

#[test]
fn golden_halves() {
    assert_eq!(t("window.left-half"), r(0, 25, 800, 975));
    assert_eq!(t("window.right-half"), r(800, 25, 800, 975));
    assert_eq!(t("window.top-half"), r(0, 25, 1600, 487));
    assert_eq!(t("window.bottom-half"), r(0, 512, 1600, 488));
}

#[test]
fn golden_thirds() {
    assert_eq!(t("window.left-third"), r(0, 25, 533, 975));
    assert_eq!(t("window.center-third"), r(533, 25, 533, 975));
    assert_eq!(t("window.right-third"), r(1066, 25, 534, 975));
    assert_eq!(t("window.left-two-thirds"), r(0, 25, 1066, 975));
    assert_eq!(t("window.right-two-thirds"), r(533, 25, 1067, 975));
}

#[test]
fn golden_quarters() {
    assert_eq!(t("window.top-left-quarter"), r(0, 25, 800, 487));
    assert_eq!(t("window.top-right-quarter"), r(800, 25, 800, 487));
    assert_eq!(t("window.bottom-left-quarter"), r(0, 512, 800, 488));
    assert_eq!(t("window.bottom-right-quarter"), r(800, 512, 800, 488));
}

#[test]
fn golden_maximize_and_center() {
    assert_eq!(t("window.maximize"), SCREEN);
    // Center keeps the size and splits the margins evenly:
    // x = (1600 - 800) / 2, y = 25 + (975 - 600) / 2.
    assert_eq!(t("window.center"), r(400, 212, 800, 600));
}

// Odd dimensions: segments must tile exactly, remainder to the last.
#[test]
fn segments_tile_odd_dimensions_exactly() {
    let s = r(7, 3, 1601, 977);
    let screens = vec![s];
    let w = Rect { x: 10, y: 10, w: 100, h: 100 };
    let lh = compute_target("window.left-half", &screens, w).unwrap();
    let rh = compute_target("window.right-half", &screens, w).unwrap();
    assert_eq!(lh.x + lh.w, rh.x);
    assert_eq!(lh.w + rh.w, s.w);
    let lt = compute_target("window.left-third", &screens, w).unwrap();
    let ct = compute_target("window.center-third", &screens, w).unwrap();
    let rt = compute_target("window.right-third", &screens, w).unwrap();
    assert_eq!(lt.x + lt.w, ct.x);
    assert_eq!(ct.x + ct.w, rt.x);
    assert_eq!(lt.w + ct.w + rt.w, s.w);
    let th = compute_target("window.top-half", &screens, w).unwrap();
    let bh = compute_target("window.bottom-half", &screens, w).unwrap();
    assert_eq!(th.y + th.h, bh.y);
    assert_eq!(th.h + bh.h, s.h);
    // Two-thirds boundaries coincide with the one-third boundaries.
    let l2 = compute_target("window.left-two-thirds", &screens, w).unwrap();
    let r2 = compute_target("window.right-two-thirds", &screens, w).unwrap();
    assert_eq!(l2.x + l2.w, rt.x);
    assert_eq!(r2.x, ct.x);
    assert_eq!(r2.x + r2.w, s.x + s.w);
}

// The coordinate flip: golden values plus the involution property.
#[test]
fn appkit_to_ax_flip() {
    assert_eq!(appkit_to_ax(1000, r(0, 0, 1600, 975)), r(0, 25, 1600, 975));
    assert_eq!(appkit_to_ax(1000, r(-2560, 0, 2560, 1400)), r(-2560, -400, 2560, 1400));
    // The flip is its own inverse.
    let rects = [r(0, 25, 1600, 975), r(-3, -7, 11, 13), r(500, 900, 1, 1)];
    for rect in rects {
        assert_eq!(appkit_to_ax(1000, appkit_to_ax(1000, rect)), rect);
    }
}

#[test]
fn screen_index_prefers_containment_then_nearest() {
    let screens = vec![r(0, 0, 1600, 1000), r(1600, 0, 1280, 800)];
    // Center inside the second screen.
    assert_eq!(screen_index(&screens, r(1700, 100, 400, 300)), 1);
    // Center inside the first.
    assert_eq!(screen_index(&screens, r(100, 100, 400, 300)), 0);
    // Straddling: the center decides.
    assert_eq!(screen_index(&screens, r(1500, 100, 400, 300)), 1);
    // Off every screen: nearest center wins.
    assert_eq!(screen_index(&screens, r(-5000, 100, 100, 100)), 0);
    assert_eq!(screen_index(&screens, r(9000, 100, 100, 100)), 1);
}

// Golden: display moves preserve relative geometry by proportional scaling.
#[test]
fn golden_next_display_scales_proportionally() {
    let screens = vec![r(0, 0, 1600, 1000), r(1600, 0, 800, 500)];
    let w = r(200, 100, 800, 600);
    let moved = compute_target("window.next-display", &screens, w).unwrap();
    // Half the source width and height, offsets halved too.
    assert_eq!(moved, r(1700, 50, 400, 300));
    // And back: the scale factors are exact inverses here.
    let back = compute_target("window.previous-display", &screens, moved).unwrap();
    assert_eq!(back, w);
}

#[test]
fn display_moves_wrap_around() {
    let screens = vec![
        r(0, 0, 1600, 1000),
        r(1600, 0, 1600, 1000),
        r(3200, 0, 1600, 1000),
    ];
    let w = r(100, 100, 800, 600);
    // next from 0 lands on 1, again on 2, again wraps to 0.
    let a = compute_target("window.next-display", &screens, w).unwrap();
    assert_eq!(screen_index(&screens, a), 1);
    let b = compute_target("window.next-display", &screens, a).unwrap();
    assert_eq!(screen_index(&screens, b), 2);
    let c = compute_target("window.next-display", &screens, b).unwrap();
    assert_eq!(screen_index(&screens, c), 0);
    assert_eq!(c, w);
    // previous from 0 wraps to the last.
    let p = compute_target("window.previous-display", &screens, w).unwrap();
    assert_eq!(screen_index(&screens, p), 2);
}

#[test]
fn display_move_clamps_into_the_target_frame() {
    let screens = vec![r(0, 0, 1000, 1000), r(1000, 200, 500, 400)];
    // A window filling the whole source screen.
    let w = r(0, 0, 1000, 1000);
    let moved = compute_target("window.next-display", &screens, w).unwrap();
    assert_eq!(moved, r(1000, 200, 500, 400));
    // A window in the source's bottom-right corner: the scaled offsets
    // (1350, 520) overshoot the target's far edges, so both axes clamp and
    // the window still lands fully inside.
    let corner = r(700, 800, 400, 300);
    let m = compute_target("window.next-display", &screens, corner).unwrap();
    assert_eq!(m, r(1300, 480, 200, 120));
    assert!(m.x >= 1000 && m.x + m.w <= 1500);
    assert!(m.y >= 200 && m.y + m.h <= 600);
}

#[test]
fn every_action_has_a_target_and_ids_are_unique() {
    for a in all_actions() {
        assert!(compute_target(a.id(), &one(), win()).is_some(), "no geometry for {}", a.id());
    }
    let mut ids: Vec<&str> = all_actions().into_iter().map(|a| a.id()).collect();
    ids.sort_unstable();
    ids.dedup();
    assert_eq!(ids.len(), all_actions().len(), "duplicate action id");
}

#[test]
fn unknown_id_and_empty_screens_yield_none() {
    assert_eq!(compute_target("window.bogus", &one(), win()), None);
    assert_eq!(compute_target("window.maximize", &[], win()), None);
}

#[test]
fn items_are_deterministic_system_commands_in_actions_order() {
    let a = items();
    let b = items();
    assert_eq!(a, b);
    assert_eq!(a.len(), all_actions().len());
    for (item, action) in a.iter().zip(all_actions()) {
        assert_eq!(item.id, action.id());
        assert_eq!(item.title, action.title());
        assert_eq!(item.kind, ItemKind::SystemCommand);
    }
    assert_eq!(a[0].id, "window.left-half");
}

#[test]
fn activate_rejects_unknown_ids_before_touching_ax() {
    let err = activate("window.bogus", true).unwrap_err();
    assert!(err.contains("unknown window action"), "{err}");
    // The unknown id is named before the missing permission is.
    let err = activate("window.bogus", false).unwrap_err();
    assert_eq!(err, "unknown window action: window.bogus");
}

#[test]
fn activation_needs_the_permission() {
    assert_eq!(activate("window.center", true), Ok(()));
    let err = activate("window.center", false).unwrap_err();
    assert!(err.starts_with("beckon cannot move windows yet"), "{err}");
}

#[test]
fn placement_names_what_is_missing() {
    assert_eq!(placement("window.maximize", &one(), win()), Ok(SCREEN));
    assert!(placement("window.bogus", &one(), win()).is_err());
    assert!(placement("window.maximize", &[], win()).is_err());
}

#[test]
fn spans_share_boundaries() {
    assert_eq!(span(7, 1601, 0, 1, 3), (7, 533));
    assert_eq!(span(7, 1601, 1, 2, 3), (540, 534));
    assert_eq!(span(7, 1601, 2, 3, 3), (1074, 534));
    assert_eq!(span(7, 1601, 0, 3, 3), (7, 1601));
}

#[test]
fn wrapping_goes_both_ways() {
    assert_eq!(wrap(-1, 3), 2);
    assert_eq!(wrap(3, 3), 0);
    assert_eq!(wrap(-7, 3), 2);
    assert_eq!(wrap(1, 3), 1);
}

#[test]
fn frames_match_within_tolerance() {
    assert!(frame_matches(Some(r(10, 10, 100, 100)), r(10, 10, 100, 100)));
    assert!(frame_matches(Some(r(12, 8, 102, 98)), r(10, 10, 100, 100)));
    assert!(!frame_matches(Some(r(13, 10, 100, 100)), r(10, 10, 100, 100)));
    assert!(!frame_matches(None, r(10, 10, 100, 100)));
}

#[test]
fn a_move_is_written_twice_and_judged_once() {
    let want = r(0, 25, 800, 975);
    let mut stage = ApplyStage::Move;
    let mut steps = Vec::new();
    // The first pass, and a second one because the frame did not hold.
    loop {
        steps.push(stage.step());
        let event = match stage.step() {
            ApplyStep::ReadFrame => ApplyEvent::Read(Some(r(500, 500, 100, 100))),
            _ => ApplyEvent::Wrote(Ok(())),
        };
        match apply(stage, event, want) {
            Ok(next) => stage = next,
            Err(outcome) => {
                assert_eq!(outcome, Ok(()));
                break;
            }
        }
    }
    assert_eq!(
        steps,
        vec![
            ApplyStep::SetPosition,
            ApplyStep::SetSize,
            ApplyStep::SetPosition,
            ApplyStep::ReadFrame,
            ApplyStep::SetPosition,
            ApplyStep::SetSize,
            ApplyStep::SetPosition,
        ]
    );
    // A frame that holds ends the move.
    assert_eq!(apply(ApplyStage::Judge, ApplyEvent::Read(Some(want)), want), Err(Ok(())));
    // A write that fails passes unnoticed in the first pass and ends the
    // second one.
    let refused = || ApplyEvent::Wrote(Err("no".to_string()));
    assert_eq!(apply(ApplyStage::Resize, refused(), want), Ok(ApplyStage::MoveAgain));
    assert_eq!(apply(ApplyStage::RetryResize, refused(), want), Err(Err("no".to_string())));
}

#[test]
fn windows_are_placed_as_far_as_machine_words_go() {
    let screens = vec![r(0, 25, 1440, 875), r(1440, 0, 2560, 1440)];
    for action in all_actions() {
        assert!(can_place(action.id(), &screens, r(100, 100, 800, 600)));
        assert!(can_place(action.id(), &screens, r(-REACH, REACH, REACH, REACH)));
        // A window on a screen is placed wherever the screen lies.
        let far = vec![r(i64::MAX - 2000, 0, 1440, 900)];
        let w = r(i64::MAX - 1900, 100, 800, 600);
        assert!(can_place(action.id(), &far, w));
        assert!(compute_target(action.id(), &far, w).is_some());
    }
    let left = "window.left-half";
    // The distance to a screen this far away is out of range.
    assert!(!can_place(left, &[r(i64::MIN, 0, 1, 1)], r(0, 0, 1, 1)));
    assert!(can_place(left, &[r(-3_000_000_000, 0, 1, 1)], r(0, 0, 1, 1)));
    assert!(!can_place(left, &[r(-3_100_000_000, 0, 1, 1)], r(0, 0, 1, 1)));
    // So is a centered window whose edge would lie beyond the range.
    let wide = r(0, 0, i64::MIN, 1);
    assert!(!can_place("window.center", &[r(i64::MAX - 10, 0, 10, 10)], wide));
    // Without a screen or an action there is nothing to place.
    assert!(can_place(left, &[], r(0, 0, 1, 1)));
    assert!(can_place("window.sideways", &[r(i64::MIN, 0, 1, 1)], r(0, 0, 1, 1)));
    assert!(can_flip(1000, &vec![r(0, 80, 1600, 895)]));
    assert!(!can_flip(1000, &vec![r(0, 80, 1600, 895), r(0, i64::MIN, 1, 1)]));
}

#[test]
fn screens_are_flipped_against_the_primary_height() {
    let visible = vec![r(0, 80, 1600, 895), r(1600, -200, 1920, 1080)];
    assert_eq!(
        screens_ax(1000, Some(visible)),
        Ok(vec![r(0, 25, 1600, 895), r(1600, 120, 1920, 1080)])
    );
    assert_eq!(screens_ax(1000, Some(Vec::new())), Err("no displays".to_string()));
    assert_eq!(screens_ax(1000, None), Err("NSScreen screens returned nil".to_string()));
}

#[test]
fn equal_displays_give_the_window_back() {
    // Side by side and one below, all of one size.
    let screens = vec![
        r(0, 25, 1599, 997),
        r(1599, -300, 1599, 997),
        r(0, 1022, 1599, 997),
        r(-1599, 25, 1599, 997),
    ];
    for i in 0..screens.len() {
        let s = screens[i];
        let w = r(s.x + 13, s.y + 7, 701, 333);
        let next = compute_target("window.next-display", &screens, w).unwrap();
        let to = screens[(i + 1) % screens.len()];
        assert_eq!(next, r(to.x + 13, to.y + 7, 701, 333));
        assert_eq!(compute_target("window.previous-display", &screens, next), Some(w));
        let previous = compute_target("window.previous-display", &screens, w).unwrap();
        assert_eq!(compute_target("window.next-display", &screens, previous), Some(w));
        let mut round = w;
        for _ in 0..screens.len() {
            round = compute_target("window.next-display", &screens, round).unwrap();
        }
        assert_eq!(round, w);
    }
}

#[test]
fn the_last_cell_is_never_the_shorter_one() {
    // 5 points over 3 cells leave 2 over: the first cell takes none of them.
    assert_eq!(span(0, 5, 0, 1, 3), (0, 1));
    assert_eq!(span(0, 5, 1, 2, 3), (1, 2));
    assert_eq!(span(0, 5, 2, 3, 3), (3, 2));
    // 4 points over 3 cells leave 1 over, and the last cell takes it.
    assert_eq!(span(0, 4, 0, 1, 3), (0, 1));
    assert_eq!(span(0, 4, 1, 2, 3), (1, 1));
    assert_eq!(span(0, 4, 2, 3, 3), (2, 2));
    for len in 0..40 {
        for n in 1..7 {
            let (start, last) = span(3, len, n - 1, n, n);
            assert_eq!(last, (len + n - 1) / n);
            assert_eq!(start + last, 3 + len);
            for i in 0..n {
                let (_, cell) = span(3, len, i, i + 1, n);
                assert!(len / n <= cell && cell <= last);
            }
        }
    }
}
