use stitchlands::cli::{window_plan, WindowPlan};

#[test]
fn window_plan_follows_view_flags() {
    assert_eq!(
        window_plan(false, false, false, 800, 600),
        WindowPlan { run_renderer: true, surface_width: 800, surface_height: 600, hide_window: false }
    );
    assert_eq!(
        window_plan(true, true, false, 0, 0),
        WindowPlan { run_renderer: true, surface_width: 1, surface_height: 1, hide_window: true }
    );
    assert_eq!(
        window_plan(true, false, true, 5, 0),
        WindowPlan { run_renderer: false, surface_width: 5, surface_height: 1, hide_window: true }
    );
}
