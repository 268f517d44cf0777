use embedded_video::geometry::{
    canvas_fits, cell_pixels, fullscreen_rect, inset_fits, panel_rect, sanitize_panel_rect, Rect,
    WindowSize,
};

fn rect(x: u16, y: u16, width: u16, height: u16) -> Rect {
    Rect { x, y, width, height }
}

#[test]
fn a_thumbnail_is_inset() {
    assert_eq!(sanitize_panel_rect(rect(10, 5, 40, 12)), Some(rect(11, 6, 40, 12)));
    assert_eq!(sanitize_panel_rect(rect(0, 0, 5, 3)), Some(rect(1, 1, 5, 3)));
}

#[test]
fn a_small_thumbnail_is_refused() {
    assert_eq!(sanitize_panel_rect(rect(0, 0, 4, 10)), None);
    assert_eq!(sanitize_panel_rect(rect(0, 0, 40, 2)), None);
    assert_eq!(sanitize_panel_rect(rect(u16::MAX, 0, 4, 10)), None);
}

#[test]
fn insets_past_the_grid_are_told() {
    assert!(inset_fits(rect(0, 0, 40, 12)));
    assert!(inset_fits(rect(u16::MAX, 0, 4, 12)));
    assert!(!inset_fits(rect(u16::MAX, 0, 40, 12)));
    assert!(!inset_fits(rect(0, u16::MAX, 40, 12)));
}

#[test]
fn the_panel_takes_thirty_percent() {
    assert_eq!(panel_rect((100, 40)), rect(1, 3, 30, 8));
    assert_eq!(panel_rect((200, 50)), rect(1, 3, 60, 16));
    assert_eq!(panel_rect((u16::MAX, u16::MAX)), rect(1, 3, 19660, 5529));
    assert_eq!(panel_rect((66, 40)).width, 20);
    for cols in 67..2000u16 {
        for rows in [0, 5, 10, 50] {
            assert_eq!(panel_rect((cols, rows)).width, cols * 30 / 100);
        }
    }
}

#[test]
fn the_panel_is_16_to_9() {
    assert_eq!(panel_rect((96, 40)), rect(1, 3, 28, 8));
    for cols in 97..2000u16 {
        let p = panel_rect((cols, 1000));
        assert_eq!(p.height, p.width * 9 / 32);
        assert_eq!(panel_rect((cols, p.height + 4)), p);
        assert_eq!(panel_rect((cols, p.height + 3)).height, p.height - 1);
    }
}

#[test]
fn the_panel_keeps_to_small_terminals() {
    assert_eq!(panel_rect((10, 5)), rect(1, 3, 10, 4));
    assert_eq!(panel_rect((30, 10)), rect(1, 3, 20, 6));
    assert_eq!(panel_rect((0, 0)), rect(1, 3, 0, 4));
}

#[test]
fn the_panel_fits() {
    for cols in 0..120 {
        for rows in 6..60 {
            let p = panel_rect((cols, rows));
            assert!(p.x + p.width - 1 <= cols);
            assert!(p.y + p.height - 1 <= rows);
        }
    }
}

#[test]
fn cells_come_from_the_window() {
    let ws = WindowSize { rows: 50, columns: 200, width: 2000, height: 1000 };
    assert_eq!(cell_pixels(Some(ws)), (10, 20));
    let tiny = WindowSize { rows: 50, columns: 200, width: 200, height: 100 };
    assert_eq!(cell_pixels(Some(tiny)), (4, 8));
}

#[test]
fn cells_have_a_default() {
    assert_eq!(cell_pixels(None), (12, 24));
    let unknown = WindowSize { rows: 50, columns: 200, width: 0, height: 0 };
    assert_eq!(cell_pixels(Some(unknown)), (12, 24));
    let empty = WindowSize { rows: 0, columns: 200, width: 2000, height: 1000 };
    assert_eq!(cell_pixels(Some(empty)), (12, 24));
}

#[test]
fn a_narrow_terminal_is_spanned() {
    assert_eq!(fullscreen_rect((80, 24), (12, 24)), rect(1, 1, 80, 22));
    assert_eq!(fullscreen_rect((80, 60), (10, 20)), rect(1, 19, 80, 22));
}

#[test]
fn a_wide_terminal_has_margins() {
    assert_eq!(fullscreen_rect((200, 50), (10, 20)), rect(12, 1, 177, 50));
}

#[test]
fn an_empty_terminal_counts_as_one_cell() {
    assert_eq!(fullscreen_rect((0, 0), (0, 0)), rect(1, 1, 1, 1));
    assert_eq!(fullscreen_rect((0, 0), (12, 24)), rect(1, 1, 1, 1));
}

#[test]
fn fullscreen_is_centered() {
    for cols in 1..150u16 {
        for rows in 1..60u16 {
            let r = fullscreen_rect((cols, rows), (9, 20));
            let left = r.x as i32 - 1;
            let right = cols as i32 - left - r.width as i32;
            let above = r.y as i32 - 1;
            let below = rows as i32 - above - r.height as i32;
            assert!(right >= 0 && below >= 0);
            assert!((-1..=2).contains(&(right - left)));
            assert!((-1..=2).contains(&(below - above)));
        }
    }
}

#[test]
fn canvases_past_the_range_are_told() {
    assert!(canvas_fits((u16::MAX, u16::MAX), (12, 24)));
    assert!(!canvas_fits((u16::MAX, 24), (u16::MAX, 24)));
    assert!(!canvas_fits((80, u16::MAX), (12, u16::MAX)));
}

#[test]
fn a_default_rect_is_empty() {
    assert_eq!(Rect::default(), rect(0, 0, 0, 0));
}
