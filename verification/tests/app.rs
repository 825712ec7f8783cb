use ultraborderless::app::{title_for_action, IconCache, Session};
use ultraborderless::config::Config;
use ultraborderless::icon::{load_icon, IconError};
use ultraborderless::window_manager::{Placement, WindowInfo};

fn window(hwnd: isize, title: &str) -> WindowInfo {
    WindowInfo {
        hwnd,
        title: title.to_string(),
        process_name: "p".to_string(),
        is_borderless: false,
        icon_data: None,
    }
}

#[test]
fn icons_expire_after_five_minutes_unused() {
    let mut cache: IconCache<u32> = IconCache::new();
    cache.insert("icon_1".to_string(), 11, 1_000);
    assert!(cache.contains_key("icon_1", 1_000));
    assert!(cache.contains_key("icon_1", 300_999));
    assert!(!cache.contains_key("icon_1", 301_000));
    assert_eq!(cache.get("icon_1", 200_000), Some(&11));
    // Using it renews it.
    assert!(cache.contains_key("icon_1", 499_999));
    assert_eq!(cache.get("icon_1", 500_000), None);
    assert_eq!(cache.len(), 0);
    assert_eq!(cache.get("icon_2", 0), None);
}

#[test]
fn a_full_cache_drops_the_least_recently_used_icon() {
    let mut cache: IconCache<usize> = IconCache::new();
    for i in 0..100usize {
        cache.insert(format!("icon_{}", i), i, 10 + i as u64);
    }
    assert_eq!(cache.len(), 100);
    assert_eq!(cache.get("icon_0", 500), Some(&0));
    cache.insert("icon_new".to_string(), 999, 600);
    assert_eq!(cache.len(), 100);
    assert!(cache.contains_key("icon_0", 600));
    assert!(!cache.contains_key("icon_1", 600));
    assert!(cache.contains_key("icon_new", 600));
    // Inserting into a full cache drops the oldest entry even when the key is
    // already there, and the key keeps a single entry.
    cache.insert("icon_new".to_string(), 1000, 700);
    assert_eq!(cache.get("icon_new", 700), Some(&1000));
    assert_eq!(cache.len(), 99);
    assert!(!cache.contains_key("icon_2", 700));
}

#[test]
fn expired_icons_are_dropped_before_inserting() {
    let mut cache: IconCache<u8> = IconCache::new();
    cache.insert("a".to_string(), 1, 0);
    cache.insert("b".to_string(), 2, 250_000);
    cache.insert("c".to_string(), 3, 320_000);
    assert_eq!(cache.len(), 2);
    cache.cleanup_expired(600_000);
    assert_eq!(cache.len(), 1);
    assert!(cache.contains_key("c", 600_000));
    cache.cleanup_expired(620_000);
    assert_eq!(cache.len(), 0);
}

#[test]
fn a_saved_display_index_is_clamped() {
    assert_eq!(Session::new(5, 2, 0).selected_display, Some(1));
    assert_eq!(Session::new(1, 3, 0).selected_display, Some(1));
    assert_eq!(Session::new(0, 0, 0).selected_display, None);
}

#[test]
fn the_selection_follows_its_window_across_refreshes() {
    let mut s = Session::new(0, 1, 0);
    s.selected_hwnd = Some(7);
    s.after_refresh(&[window(3, "a"), window(7, "b")], 100);
    assert_eq!(s.selected_hwnd, Some(7));
    assert_eq!(s.last_refresh, 100);
    assert!(s.take_repaint());
    assert!(!s.take_repaint());
    s.after_refresh(&[window(3, "a")], 200);
    assert_eq!(s.selected_hwnd, None);
}

#[test]
fn refreshes_are_started_every_five_seconds() {
    let mut s = Session::new(0, 1, 1_000);
    assert!(!s.refresh_due(false, 5_999));
    assert!(s.refresh_due(false, 6_000));
    assert!(!s.refresh_due(true, 60_000));
    s.after_lost_refresh(10_000);
    assert!(!s.refresh_due(false, 14_999));
    s.on_refresh_key();
    assert!(s.needs_repaint);
    s.selected_hwnd = Some(1);
    s.on_escape_key();
    assert_eq!(s.selected_hwnd, None);
}

#[test]
fn the_status_line_reports_and_then_expires() {
    let mut s = Session::new(0, 1, 0);
    let title = title_for_action(&[window(1, "Game")], 1);
    assert_eq!(title, "Game");
    s.after_action(&title, false, &Ok(()), 1_000);
    assert_eq!(s.current_status(1_500).unwrap().message, "Made borderless: Game");
    s.after_action(&title, true, &Ok(()), 2_000);
    assert_eq!(s.current_status(2_000).unwrap().message, "Restored borders on Game");
    let missing = title_for_action(&[], 1);
    assert_eq!(missing, "selected window");
    s.after_action(&missing, false, &Err("window no longer exists".to_string()), 3_000);
    let line = s.current_status(6_999).unwrap();
    assert_eq!(line.message, "selected window: window no longer exists");
    assert!(line.is_error);
    assert!(s.current_status(7_000).is_none());
    assert!(s.status.is_none());
}

#[test]
fn the_saved_settings_hold_the_selected_display() {
    let mut s = Session::new(0, 3, 0);
    s.selected_display = Some(2);
    let p = Placement::default();
    assert_eq!(s.config_to_save(&p), Config { placement: p, display_index: 2 });
    s.selected_display = None;
    assert_eq!(s.config_to_save(&p).display_index, 0);
}

/// An ICO file holding one 2x1 RGBA image stored as PNG.
fn two_pixel_ico() -> Vec<u8> {
    let mut ico = vec![0, 0, 1, 0, 1, 0, 2, 1, 0, 0, 1, 0, 32, 0];
    ico.extend_from_slice(&(TWO_PIXEL_PNG.len() as u32).to_le_bytes());
    ico.extend_from_slice(&22u32.to_le_bytes());
    ico.extend_from_slice(&TWO_PIXEL_PNG);
    ico
}

const TWO_PIXEL_PNG: [u8; 74] = [
    137, 80, 78, 71, 13, 10, 26, 10, 0, 0, 0, 13, 73, 72, 68, 82, 0, 0, 0, 2, 0, 0, 0, 1, 8, 6, 0,
    0, 0, 244, 34, 127, 138, 0, 0, 0, 17, 73, 68, 65, 84, 120, 156, 99, 224, 18, 145, 251, 175, 97,
    100, 211, 0, 0, 8, 194, 2, 82, 6, 203, 102, 190, 0, 0, 0, 0, 73, 69, 78, 68, 174, 66, 96, 130,
];

#[test]
fn an_ico_file_decodes_to_rgba_pixels() {
    let icon = load_icon(&two_pixel_ico()).expect("decode");
    assert_eq!((icon.width, icon.height), (2, 1));
    assert_eq!(icon.rgba, vec![10, 20, 30, 255, 40, 50, 60, 128]);
    // Only ICO files are read: a bare PNG is not one.
    assert_eq!(load_icon(&TWO_PIXEL_PNG).unwrap_err(), IconError::Undecodable);
    assert_eq!(load_icon(b"not an image").unwrap_err(), IconError::Undecodable);
    assert_eq!(load_icon(&[]).unwrap_err(), IconError::Undecodable);
}
