use fm::layout::{right_widths, solve, taper, Layout, PanelLayout, PREVIEW_MIN};

/// The worked example: 1600px window minus a 152px sidebar.
const AREA: i32 = 1448;

#[test]
fn reproduces_the_worked_example() {
    let plan = solve(AREA, 7, 5).expect("a 1448px area is laid out");

    let widths: Vec<i32> = plan.panels.iter().map(|panel| panel.width).collect();
    assert_eq!(widths, vec![43, 62, 89, 127, 182, 434, 182]);
    assert_eq!(plan.gutter, 4);
}

#[test]
fn centres_the_cursor_column() {
    // From depth 1 on: the ancestors plus the gutter fill the side budget,
    // which is what puts the cursor column in the middle.
    for cursor in 1..6 {
        let plan = solve(AREA, 7, cursor).expect("laid out");
        let left: i32 = plan.panels[..cursor]
            .iter()
            .filter(|panel| panel.visible)
            .map(|panel| panel.width)
            .sum();
        let budget = (AREA - plan.panels[cursor].width) / 2;
        assert_eq!(
            plan.gutter + left,
            budget,
            "left side must equal the budget at depth {cursor}"
        );
    }
}

#[test]
fn the_root_column_hugs_the_left_edge() {
    // Centring the root column would mean reserving a whole side budget of
    // nothing to its left, which just looks broken on startup.
    let plan = solve(AREA, 3, 0).expect("laid out");
    assert_eq!(plan.gutter, 0);
}

#[test]
fn evicting_every_ancestor_also_drops_the_gutter() {
    // A budget too cramped to hold even one ancestor leaves nothing to
    // centre against, so the same left-edge rule applies.
    let plan = solve(900, 30, 29).expect("laid out");
    assert!(plan.panels[..29].iter().any(|panel| panel.visible)
        || plan.gutter == 0);
}

#[test]
fn ancestors_thin_out_towards_the_left() {
    let plan = solve(AREA, 7, 5).expect("laid out");
    let widths: Vec<i32> = plan.panels[..5].iter().map(|panel| panel.width).collect();
    for pair in widths.windows(2) {
        assert!(pair[0] < pair[1], "{:?} must increase rightwards", widths);
    }
}

#[test]
fn narrow_ancestors_are_flagged_as_slivers() {
    let plan = solve(AREA, 7, 5).expect("laid out");
    let slivers: Vec<bool> = plan.panels[..5].iter().map(|panel| panel.sliver).collect();
    assert_eq!(slivers, vec![true, true, false, false, false]);
}

#[test]
fn the_child_panel_mirrors_the_nearest_ancestor() {
    let plan = solve(AREA, 7, 5).expect("laid out");
    assert_eq!(plan.panels[6].width, plan.panels[4].width);
}

#[test]
fn a_long_tail_of_right_panels_never_starves_the_preview() {
    let plan = solve(AREA, 12, 2).expect("laid out");
    let budget = (AREA - plan.panels[2].width) / 2;
    let right: i32 = plan.panels[3..]
        .iter()
        .filter(|panel| panel.visible)
        .map(|panel| panel.width)
        .sum();
    assert!(
        budget - right >= 200,
        "the preview kept {} of its 200px floor",
        budget - right
    );
}

/// 900px rather than the 400px this test first used: 400 cannot hold the
/// cursor's 260px column and the preview's 200px floor at once, so it is now
/// the uniform-columns escape hatch's problem, not a layout to assert on.
/// A 900px area still leaves 39 ancestors far too little room, which is what
/// this test is about.
#[test]
fn very_deep_stacks_drop_their_oldest_columns() {
    let plan = solve(900, 40, 39).expect("laid out");
    assert!(
        plan.panels.iter().any(|panel| !panel.visible),
        "some ancestors must drop out of a 900px area"
    );
    let left: i32 = plan
        .panels
        .iter()
        .filter(|panel| panel.visible)
        .map(|panel| panel.width)
        .sum::<i32>()
        - plan.panels[39].width;
    assert!(left <= (900 - plan.panels[39].width) / 2);
}

#[test]
fn a_window_too_narrow_to_lay_out_returns_none() {
    assert_eq!(solve(270, 3, 1), None);
}

/// The columns area of a 700px window. The cursor's column takes its 260px
/// minimum, leaving 144px a side: enough for the gutter, not enough for the
/// preview, which would be clipped against the window edge.
#[test]
fn an_area_too_narrow_for_the_preview_floor_returns_none() {
    // With ancestors the layout is symmetric, so each side gets
    // (548 - 260) / 2 = 144 — under the preview's floor, and the preview
    // would be clipped at the window edge. Decline and let the caller fall
    // back to uniform columns.
    assert_eq!(solve(548, 3, 1), None);
}

#[test]
fn the_same_area_fits_at_the_root_because_there_is_no_gutter() {
    // No ancestors means no reserved left side, so the whole 288px past the
    // cursor column is the preview's: it fits, and declining here would
    // hand the user a scrollbar for nothing.
    let plan = solve(548, 1, 0).expect("laid out");
    assert_eq!(plan.gutter, 0);
    assert_eq!(548 - plan.panels[0].width, 288);
}

/// The promise of the whole design: whatever `solve` returns fits inside the
/// area it was given, preview included. Anything wider overflows the paned
/// past the scroller and clips the preview at the window edge.
#[test]
fn a_layout_that_fits_or_no_layout_at_all() {
    for area in (0..2400).step_by(4) {
        for panel_count in 1..8usize {
            for cursor in 0..panel_count {
                let Some(plan) = solve(area, panel_count, cursor) else {
                    continue;
                };

                let columns: i32 = plan
                    .panels
                    .iter()
                    .filter(|panel| panel.visible)
                    .map(|panel| panel.width)
                    .sum();
                assert!(
                    i64::from(plan.gutter + columns) + PREVIEW_MIN <= i64::from(area),
                    "area {area}, {panel_count} panels, cursor {cursor}: gutter {} \
                     + columns {columns} + preview {PREVIEW_MIN} overflows",
                    plan.gutter,
                );
            }
        }
    }
}

#[test]
fn nonsense_input_returns_none() {
    assert_eq!(solve(AREA, 0, 0), None);
    assert_eq!(solve(AREA, 3, 3), None);
}

fn visible(width: i32, sliver: bool) -> PanelLayout {
    PanelLayout { width, sliver, visible: true }
}

fn hidden(width: i32) -> PanelLayout {
    PanelLayout { width, sliver: false, visible: false }
}

#[test]
fn every_pixel_of_a_small_layout() {
    // C = 434, A = 507; one ancestor takes all of A, the child mirrors it as far
    // as the preview's floor lets it.
    assert_eq!(
        solve(AREA, 3, 1),
        Some(Layout {
            gutter: 0,
            panels: vec![visible(507, false), visible(434, false), hidden(434)],
        })
    );
}

#[test]
fn the_root_column_lends_its_child_a_share_of_the_budget() {
    // 45% of a budget of 507, then 7/10 of 228 and 49/100 of it.
    assert_eq!(
        solve(AREA, 4, 0),
        Some(Layout {
            gutter: 0,
            panels: vec![
                visible(434, false),
                visible(228, false),
                visible(159, false),
                visible(111, false),
            ],
        })
    );
}

#[test]
fn the_exact_share_is_floored_and_not_rounded() {
    assert_eq!(taper(507, 5), vec![43, 62, 89, 127, 182]);
    assert_eq!(taper(17, 1), vec![17]);
    // 34 splits as 14 and 20 exactly.
    assert_eq!(taper(34, 2), vec![14, 20]);
    assert_eq!(taper(0, 0), Vec::<i32>::new());
    // A budget without room for a sliver leaves slivers all the same.
    assert_eq!(taper(0, 2), vec![12, 12]);
    assert_eq!(taper(-400, 3), vec![12, 12, 12]);
    assert_eq!(taper(i32::MIN, 1), vec![12]);
}

#[test]
fn right_panels_drop_out_until_the_rest_fits() {
    assert_eq!(right_widths(100, 3, 1000), vec![100, 70, 49]);
    assert_eq!(right_widths(100, 3, 200), vec![100, 70]);
    assert_eq!(right_widths(100, 3, 99), Vec::<i32>::new());
    // A sliver is never thinner than its minimum.
    assert_eq!(right_widths(13, 3, 1000), vec![13, 12, 12]);
    assert_eq!(right_widths(-1, 2, 1000), vec![12, 12]);
    assert_eq!(right_widths(100, 2, -1), Vec::<i32>::new());
}

#[test]
fn no_ancestor_is_dropped_while_there_is_room() {
    for depth in 1..30usize {
        let plan = solve(AREA, depth + 1, depth).expect("laid out");
        let shown = plan.panels[..depth].iter().filter(|panel| panel.visible).count();
        if shown < depth {
            let budget = (AREA - plan.panels[depth].width) / 2;
            let wanted: i32 = taper(budget, shown + 1).iter().sum();
            assert!(wanted > budget);
        }
    }
}

#[test]
fn the_widest_area_is_still_exact() {
    let plan = solve(i32::MAX, 3, 1).expect("laid out");
    assert_eq!(plan.panels[1].width, 520);
    assert_eq!(plan.panels[0].width, (i32::MAX - 520) / 2);
    assert_eq!(plan.gutter, 0);
}

#[test]
fn areas_below_the_columns_minimum_are_declined() {
    assert_eq!(solve(0, 1, 0), None);
    assert_eq!(solve(-5, 1, 0), None);
    assert_eq!(solve(i32::MIN, 1, 0), None);
    assert_eq!(solve(459, 1, 0), None);
    assert!(solve(460, 1, 0).is_some());
    assert_eq!(solve(658, 2, 1), None);
    assert_eq!(solve(659, 2, 1), None);
    assert!(solve(660, 2, 1).is_some());
    // At the root the preview has all that the cursor's column leaves.
    assert!(solve(659, 2, 0).is_some());
}
