use pmenu::geometry::{negotiate, ConfigError, Extent, Rect};
use pmenu::hooks::StartupScript;
use pmenu::widgets::{list_draw_ops, list_extent, visible_rows, DrawOp, Shade, WidgetState};

fn screens() -> Vec<Rect> {
    vec![Rect { x: 0, y: 0, w: 1000, h: 800 }, Rect { x: 1000, y: 0, w: 1920, h: 1080 }]
}

fn ext(w: u32, h: u32) -> Extent {
    Extent { w, h }
}

#[test]
fn negotiate_rejects_fraction_above_one() {
    let r = negotiate(&screens(), 0, 1500, 800, ext(10, 10), ext(10, 10), ext(10, 10));
    assert_eq!(r, Err(ConfigError::FractionOutOfRange));
    let r = negotiate(&screens(), 0, 800, -1, ext(10, 10), ext(10, 10), ext(10, 10));
    assert_eq!(r, Err(ConfigError::FractionOutOfRange));
    let r = negotiate(&screens(), 9, 1500, 800, ext(10, 10), ext(10, 10), ext(10, 10));
    assert_eq!(r, Err(ConfigError::FractionOutOfRange));
}

#[test]
fn negotiate_rejects_missing_screen() {
    let r = negotiate(&screens(), 2, 800, 800, ext(10, 10), ext(10, 10), ext(10, 10));
    assert_eq!(r, Err(ConfigError::ScreenIndexOutOfRange));
}

#[test]
fn negotiate_fits_content_with_margin() {
    let r = negotiate(&screens(), 0, 800, 800, ext(100, 20), ext(50, 20), ext(300, 200));
    assert_eq!(r, Ok(Rect { x: 335, y: 279, w: 330, h: 242 }));
}

#[test]
fn negotiate_clamps_to_fraction_of_screen() {
    let r = negotiate(&screens(), 1, 500, 1000, ext(100, 30), ext(50, 30), ext(3000, 2000));
    assert_eq!(r, Ok(Rect { x: 1480, y: 0, w: 960, h: 1080 }));
    let r = negotiate(&screens(), 0, 0, 0, ext(1, 1), ext(1, 1), ext(1, 1));
    assert_eq!(r, Ok(Rect { x: 500, y: 400, w: 0, h: 0 }));
}

#[test]
fn visible_rows_pages_by_selection() {
    assert_eq!(visible_rows(0, 10, 3), (0, 3));
    assert_eq!(visible_rows(12, 10, 25), (10, 20));
    assert_eq!(visible_rows(24, 10, 25), (20, 25));
    assert_eq!(visible_rows(0, 0, 0), (0, 0));
    assert_eq!(visible_rows(0, 10, 0), (0, 0));
}

#[test]
fn list_extent_counts_shown_rows() {
    let rows = vec![ext(40, 10), ext(90, 12), ext(60, 14)];
    assert_eq!(list_extent(&rows, 2, 3), ext(96, 28));
    assert_eq!(list_extent(&rows, 10, 0), ext(90, 36));
    assert_eq!(list_extent(&Vec::new(), 10, 2), ext(4, 4));
    assert_eq!(list_extent(&vec![ext(u32::MAX, u32::MAX)], 1, 1), ext(u32::MAX, u32::MAX));
}

#[test]
fn widget_state_caches_until_content_changes() {
    let mut s = WidgetState::new();
    assert_eq!(s.cached_extent(), None);
    assert!(s.needs_redraw());
    s.remember_extent(ext(5, 6));
    assert_eq!(s.cached_extent(), Some(ext(5, 6)));
    s.drawn();
    assert!(!s.needs_redraw());
    assert_eq!(s.cached_extent(), Some(ext(5, 6)));
    s.content_changed();
    assert_eq!(s.cached_extent(), None);
    assert!(s.needs_redraw());
}

#[test]
fn list_draw_ops_highlight_selected_row() {
    let rows = vec![ext(40, 10), ext(90, 12)];
    let ops = list_draw_ops(11, 10, &rows, ext(200, 50), 2);
    assert_eq!(
        ops,
        vec![
            DrawOp::Fill { area: Rect { x: 0, y: 0, w: 200, h: 50 }, shade: Shade::Background },
            DrawOp::Text { row: 10, x: 4, y: 2, shade: Shade::Foreground },
            DrawOp::Fill { area: Rect { x: 2, y: 12, w: 94, h: 12 }, shade: Shade::HighlightBackground },
            DrawOp::Text { row: 11, x: 4, y: 12, shade: Shade::HighlightForeground },
        ]
    );
}

#[test]
fn startup_script_keeps_path() {
    let s = StartupScript::new("/home/me/.startup.sh");
    assert_eq!(s.path(), "/home/me/.startup.sh");
    let t = StartupScript::new(String::from("x"));
    assert_eq!(t.path(), "x");
}
