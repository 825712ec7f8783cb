use ultraborderless::ui::{
    action_button, display_selector_text, icon_cache_key, placement_preview, shows_display_selector,
    size_presets, window_count_text, window_selector_text, window_status_text, PlacementPreview,
};
use ultraborderless::window_manager::{Anchor, DisplayInfo, Placement, PlacementMode, WindowInfo};

fn ultrawide() -> DisplayInfo {
    DisplayInfo {
        name: "Display 1".to_string(),
        x: 0,
        y: 0,
        width: 7680,
        height: 2160,
        is_primary: true,
    }
}

fn window(hwnd: isize, title: &str, is_borderless: bool) -> WindowInfo {
    WindowInfo {
        hwnd,
        title: title.to_string(),
        process_name: "game".to_string(),
        is_borderless,
        icon_data: None,
    }
}

#[test]
fn the_header_counts_windows() {
    assert_eq!(window_count_text(1), "1 window found");
    assert_eq!(window_count_text(0), "0 windows found");
    assert_eq!(window_count_text(12), "12 windows found");
}

#[test]
fn window_markers_and_icon_keys() {
    assert_eq!(window_status_text(true), "[B]");
    assert_eq!(window_status_text(false), "[W]");
    assert_eq!(icon_cache_key(4242), "icon_4242");
    assert_eq!(icon_cache_key(-7), "icon_-7");
    assert_eq!(icon_cache_key(isize::MIN), format!("icon_{}", isize::MIN));
}

#[test]
fn the_selectors_show_the_selection_or_a_prompt() {
    let ws = vec![window(1, "One", false), window(2, "Two", true)];
    assert_eq!(window_selector_text(&ws, Some(2)), "Two (game)");
    assert_eq!(window_selector_text(&ws, Some(3)), "Select a window...");
    assert_eq!(window_selector_text(&ws, None), "Select a window...");
    let ds = vec![ultrawide()];
    assert_eq!(display_selector_text(&ds, Some(0)), "Display 1 - 7680x2160 (Primary)");
    assert_eq!(display_selector_text(&ds, Some(1)), "Select a display...");
    assert_eq!(display_selector_text(&ds, None), "Select a display...");
}

#[test]
fn the_action_button_never_invents_a_frame() {
    let ws = vec![window(1, "Windowed", false), window(2, "Borderless", true)];
    let b = action_button(&ws, Some(1), false);
    assert_eq!((b.label, b.enabled), ("Make Borderless", true));
    let b = action_button(&ws, Some(2), true);
    assert_eq!((b.label, b.enabled), ("Restore Borders", true));
    let b = action_button(&ws, Some(2), false);
    assert_eq!((b.label, b.enabled), ("Restore Borders", false));
    let b = action_button(&ws, None, false);
    assert_eq!((b.label, b.enabled), ("Make Borderless", false));
    let b = action_button(&ws, Some(9), true);
    assert_eq!((b.label, b.enabled), ("Make Borderless", false));
}

#[test]
fn the_preview_reads_out_the_target() {
    let p = Placement::default();
    match placement_preview(&p, &ultrawide()) {
        PlacementPreview::Placed { summary, detail, overflows } => {
            assert_eq!(summary, "→ 3840x2160 at (1920, 0)");
            assert_eq!(detail, "sides free: 1920px | 1920px");
            assert!(!overflows);
        }
        other => panic!("unexpected {:?}", other),
    }
    let tall = Placement { height: 4320, ..p };
    match placement_preview(&tall, &ultrawide()) {
        PlacementPreview::Placed { summary, detail, overflows } => {
            assert_eq!(summary, "→ 3840x4320 at (1920, -1080)");
            assert_eq!(detail, "extends past the display edge");
            assert!(overflows);
        }
        other => panic!("unexpected {:?}", other),
    }
    let leave = Placement { mode: PlacementMode::LeaveInPlace, ..p };
    match placement_preview(&leave, &ultrawide()) {
        PlacementPreview::Stays { text } => assert_eq!(text, "→ window is left where it is"),
        other => panic!("unexpected {:?}", other),
    }
    let left = Placement { anchor: Anchor::Left, width: 1000, ..p };
    match placement_preview(&left, &ultrawide()) {
        PlacementPreview::Placed { detail, .. } => assert_eq!(detail, "sides free: 0px | 6680px"),
        other => panic!("unexpected {:?}", other),
    }
}

#[test]
fn the_display_selector_needs_two_displays() {
    assert!(!shows_display_selector(0));
    assert!(!shows_display_selector(1));
    assert!(shows_display_selector(2));
}

#[test]
fn presets_set_only_the_size() {
    let presets = size_presets();
    let labels: Vec<(&str, i32, i32)> = presets.iter().map(|p| (p.label, p.width, p.height)).collect();
    assert_eq!(labels, vec![("4K", 3840, 2160), ("1440p", 2560, 1440), ("1080p", 1920, 1080)]);
    let mut p = Placement { anchor: Anchor::Custom, custom_x: 5, ..Placement::default() };
    p.apply_preset(&presets[2]);
    assert_eq!(p, Placement { width: 1920, height: 1080, anchor: Anchor::Custom, custom_x: 5, ..Placement::default() });
}
