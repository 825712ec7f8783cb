use ultraborderless::window_manager::{
    bgra_to_rgba, list_entry, monitor_display, process_stem, sort_displays,
    sort_windows_by_title, Anchor, DisplayInfo, FrameAction, Placement, PlacementMode, Rect,
    ToggleError, WindowInfo, WindowManager, WindowProbe, ZOrder, BORDER_STYLES, EX_TOPMOST,
};

/// The 7680x2160 ultrawide this feature was built for.
fn ultrawide() -> DisplayInfo {
    DisplayInfo {
        name: "Display 1".to_string(),
        x: 0,
        y: 0,
        width: 7680,
        height: 2160,
        is_primary: true,
    }
}

fn region(width: i32, height: i32, anchor: Anchor) -> Placement {
    Placement { mode: PlacementMode::Region, width, height, anchor, ..Placement::default() }
}

fn window(hwnd: isize, title: &str) -> WindowInfo {
    WindowInfo {
        hwnd,
        title: title.to_string(),
        process_name: "app".to_string(),
        is_borderless: false,
        icon_data: None,
    }
}

#[test]
fn centers_a_4k_region_on_the_ultrawide() {
    let rect = region(3840, 2160, Anchor::Centered).resolve(&ultrawide()).unwrap();

    assert_eq!((rect.left, rect.top), (1920, 0));
    assert_eq!((rect.right - rect.left, rect.bottom - rect.top), (3840, 2160));
    assert_eq!(rect.right, 5760);
}

#[test]
fn anchors_pin_to_the_correct_edge() {
    let display = ultrawide();

    assert_eq!(region(3840, 2160, Anchor::Left).resolve(&display).unwrap().left, 0);
    assert_eq!(region(3840, 2160, Anchor::Right).resolve(&display).unwrap().left, 3840);

    let custom = Placement { custom_x: 100, custom_y: 50, ..region(1920, 1080, Anchor::Custom) };
    let rect = custom.resolve(&display).unwrap();
    assert_eq!((rect.left, rect.top), (100, 50));
}

#[test]
fn a_shorter_region_is_centered_vertically() {
    let rect = region(3840, 1080, Anchor::Centered).resolve(&ultrawide()).unwrap();
    assert_eq!(rect.top, 540);
    assert_eq!(rect.bottom, 1620);
}

#[test]
fn full_display_and_leave_in_place_are_unchanged() {
    let display = ultrawide();

    let full = Placement { mode: PlacementMode::FullDisplay, ..Placement::default() };
    let rect = full.resolve(&display).unwrap();
    assert_eq!((rect.left, rect.top, rect.right, rect.bottom), (0, 0, 7680, 2160));
    assert!(!full.overflows(&display));

    let leave = Placement { mode: PlacementMode::LeaveInPlace, ..Placement::default() };
    assert!(leave.resolve(&display).is_none());
}

#[test]
fn oversized_regions_are_reported_as_overflowing() {
    let display = ultrawide();

    assert!(!region(3840, 2160, Anchor::Centered).overflows(&display));
    assert!(region(3840, 4320, Anchor::Centered).overflows(&display));
    assert!(region(8000, 2160, Anchor::Centered).overflows(&display));
}

#[test]
fn regions_follow_a_display_that_is_not_at_the_origin() {
    let secondary = DisplayInfo { x: -1920, y: 200, width: 1920, height: 1080, ..ultrawide() };

    let rect = region(1280, 720, Anchor::Centered).resolve(&secondary).unwrap();
    assert_eq!((rect.left, rect.top), (-1600, 380));
}

#[test]
fn default_placement_is_a_centered_4k_region_on_top() {
    let p = Placement::default();
    assert_eq!(p.mode, PlacementMode::Region);
    assert_eq!((p.width, p.height), (3840, 2160));
    assert_eq!(p.anchor, Anchor::Centered);
    assert_eq!((p.custom_x, p.custom_y), (0, 0));
    assert!(p.always_on_top);
}

#[test]
fn a_region_is_never_smaller_than_a_pixel() {
    let rect = region(0, -5, Anchor::Left).resolve(&ultrawide()).unwrap();
    assert_eq!((rect.right - rect.left, rect.bottom - rect.top), (1, 1));
}

#[test]
fn centering_an_odd_difference_rounds_toward_zero() {
    // (7680 - 7681) / 2 rounds toward zero, to 0.
    let rect = region(7681, 2160, Anchor::Centered).resolve(&ultrawide()).unwrap();
    assert_eq!(rect.left, 0);
    assert!(region(7681, 2160, Anchor::Centered).overflows(&ultrawide()));
    // (7680 - 3841) / 2 == 1919.
    let rect = region(3841, 2160, Anchor::Centered).resolve(&ultrawide()).unwrap();
    assert_eq!((rect.left, rect.right), (1919, 5760));
}

#[test]
fn a_custom_offset_may_overflow_the_display() {
    let custom = Placement { custom_x: -10, custom_y: 0, ..region(100, 100, Anchor::Custom) };
    assert!(custom.overflows(&ultrawide()));
    let inside = Placement { custom_x: 10, custom_y: 10, ..region(100, 100, Anchor::Custom) };
    assert!(!inside.overflows(&ultrawide()));
}

#[test]
fn moving_the_display_moves_the_region() {
    let moved = DisplayInfo { x: 500, y: -300, ..ultrawide() };
    for anchor in [Anchor::Centered, Anchor::Left, Anchor::Right, Anchor::Custom] {
        let p = region(1920, 1080, anchor);
        let a = p.resolve(&ultrawide()).unwrap();
        let b = p.resolve(&moved).unwrap();
        assert_eq!(b, Rect { left: a.left + 500, top: a.top - 300, right: a.right + 500, bottom: a.bottom - 300 });
    }
}

#[test]
fn window_labels_shorten_long_titles_and_processes() {
    let w = WindowInfo {
        hwnd: 1,
        title: "A very long window title that keeps going".to_string(),
        process_name: "averylongprocessname".to_string(),
        is_borderless: false,
        icon_data: None,
    };
    assert_eq!(w.display_text(), "A very long window title th... (averylongpro...)");
    let short = window(2, "Notepad");
    assert_eq!(short.display_text(), "Notepad (app)");
    let exactly = WindowInfo { title: "x".repeat(30), process_name: "y".repeat(15), ..window(3, "") };
    assert_eq!(exactly.display_text(), format!("{} ({})", "x".repeat(30), "y".repeat(15)));
}

#[test]
fn window_labels_count_characters_not_bytes() {
    let w = WindowInfo { title: "é".repeat(31), ..window(1, "") };
    assert_eq!(w.display_text(), format!("{}... (app)", "é".repeat(27)));
}

#[test]
fn display_labels_show_size_and_primary() {
    assert_eq!(ultrawide().display_text(), "Display 1 - 7680x2160 (Primary)");
    let other = DisplayInfo { name: "Display 2".to_string(), is_primary: false, width: 1920, height: 1080, ..ultrawide() };
    assert_eq!(other.display_text(), "Display 2 - 1920x1080");
}

fn probe(style: u32, ex_style: u32) -> WindowProbe {
    WindowProbe {
        exists: true,
        style,
        ex_style,
        rect: Some(Rect { left: 10, top: 20, right: 410, bottom: 320 }),
    }
}

#[test]
fn rejects_a_handle_that_is_not_a_window() {
    let mut manager = WindowManager::new();
    let placement = Placement::default();
    let gone = WindowProbe { exists: false, style: 0, ex_style: 0, rect: None };
    assert!(manager.toggle_borderless(0, &gone, &placement, None).is_err());
    assert!(manager.toggle_borderless(0xDEAD_BEEF, &gone, &placement, None).is_err());
    assert_eq!(
        manager.toggle_borderless(0, &gone, &placement, None),
        Err(ToggleError::WindowGone)
    );
    assert!(!manager.has_saved_frame(0));
}

/// Stripping then toggling again gives back the window's real style, not a
/// made-up one.
#[test]
fn restores_the_original_style_exactly() {
    // WS_OVERLAPPEDWINDOW | WS_VISIBLE, not topmost.
    let original = 0x10CF_0000u32;
    assert_ne!(original & BORDER_STYLES, 0, "fixture should start with borders");
    let handle: isize = 0x1234;

    let mut manager = WindowManager::new();
    let placement = Placement {
        mode: PlacementMode::LeaveInPlace,
        always_on_top: true,
        ..Placement::default()
    };

    let strip = manager
        .toggle_borderless(handle, &probe(original, 0), &placement, None)
        .expect("strip borders");
    match strip {
        FrameAction::Strip { style, z, keep_z_order, target } => {
            assert_eq!(style & BORDER_STYLES, 0, "border bits should be cleared");
            assert_eq!(style, original & !BORDER_STYLES);
            assert_eq!(z, ZOrder::Topmost, "always_on_top should make the window topmost");
            assert!(!keep_z_order);
            assert_eq!(target, None);
        }
        other => panic!("expected a strip, got {:?}", other),
    }
    assert!(manager.has_saved_frame(handle));

    let restore = manager
        .toggle_borderless(handle, &probe(original & !BORDER_STYLES, EX_TOPMOST), &placement, None)
        .expect("restore borders");
    assert_eq!(
        restore,
        FrameAction::Restore {
            style: original,
            rect: Rect { left: 10, top: 20, right: 410, bottom: 320 },
            z: ZOrder::NotTopmost,
        },
        "style must round-trip exactly and topmost must be dropped again"
    );
    assert!(!manager.has_saved_frame(handle));
}

#[test]
fn a_window_without_borders_is_not_given_one() {
    let mut manager = WindowManager::new();
    let placement = Placement::default();
    assert_eq!(
        manager.toggle_borderless(7, &probe(0x1000_0000, 0), &placement, None),
        Err(ToggleError::NoBorders)
    );
    assert_eq!(
        manager.toggle_borderless(7, &probe(0, 0), &placement, None),
        Err(ToggleError::StyleUnreadable)
    );
    let unreadable = WindowProbe { rect: None, ..probe(0x10CF_0000, 0) };
    assert_eq!(
        manager.toggle_borderless(7, &unreadable, &placement, None),
        Err(ToggleError::RectUnreadable)
    );
    assert!(!manager.has_saved_frame(7));
    assert_eq!(ToggleError::NoBorders.message(), "window has no borders to remove");
    assert_eq!(ToggleError::WindowGone.message(), "window no longer exists");
}

#[test]
fn stripping_onto_a_display_moves_the_window_there() {
    let mut manager = WindowManager::new();
    let placement = Placement { always_on_top: false, ..Placement::default() };
    let display = ultrawide();
    let action = manager
        .toggle_borderless(9, &probe(0x10CF_0000, EX_TOPMOST), &placement, Some(&display))
        .unwrap();
    assert_eq!(
        action,
        FrameAction::Strip {
            style: 0x100B_0000,
            z: ZOrder::Top,
            keep_z_order: true,
            target: Some(Rect { left: 1920, top: 0, right: 5760, bottom: 2160 }),
        }
    );
    // It was topmost before, so restoring puts it back in the topmost band.
    let back = manager.toggle_borderless(9, &probe(0x100B_0000, 0), &placement, None).unwrap();
    assert_eq!(
        back,
        FrameAction::Restore {
            style: 0x10CF_0000,
            rect: Rect { left: 10, top: 20, right: 410, bottom: 320 },
            z: ZOrder::Topmost,
        }
    );
}

#[test]
fn closed_windows_lose_their_saved_frames() {
    let mut manager = WindowManager::new();
    let placement = Placement::default();
    manager.toggle_borderless(1, &probe(0x10CF_0000, 0), &placement, None).unwrap();
    manager.toggle_borderless(2, &probe(0x10CF_0000, 0), &placement, None).unwrap();
    let mut saved = manager.saved_handles();
    saved.sort();
    assert_eq!(saved, vec![1, 2]);
    manager.set_windows(vec![window(2, "b")], &vec![1]);
    assert!(!manager.has_saved_frame(1));
    assert!(manager.has_saved_frame(2));
    assert_eq!(manager.get_windows().len(), 1);
    assert_eq!(manager.get_windows()[0].hwnd, 2);
}

#[test]
fn windows_are_listed_unless_they_are_blank_the_desktop_or_this_program() {
    let w = list_entry(5, "Notepad".to_string(), Some("notepad".to_string()), 0x10CF_0000).unwrap();
    assert_eq!((w.hwnd, w.title.as_str(), w.process_name.as_str()), (5, "Notepad", "notepad"));
    assert!(!w.is_borderless);
    assert!(w.icon_data.is_none());
    let b = list_entry(6, "Game".to_string(), None, 0x1000_0000).unwrap();
    assert!(b.is_borderless);
    assert_eq!(b.process_name, "Unknown");
    assert!(list_entry(1, "   ".to_string(), None, 0).is_none());
    assert!(list_entry(1, "".to_string(), None, 0).is_none());
    assert!(list_entry(1, "Program Manager".to_string(), None, 0).is_none());
    assert!(list_entry(1, "Program Manager 2".to_string(), None, 0).is_none());
    assert!(list_entry(1, "ultraborderless".to_string(), None, 0).is_none());
    assert!(list_entry(1, "Other".to_string(), Some("UltraBorderless".to_string()), 0).is_none());
    assert!(list_entry(1, "Ultraborderless".to_string(), Some("x".to_string()), 0).is_some());
}

#[test]
fn process_names_are_executable_stems() {
    assert_eq!(process_stem("notepad.exe\0\0\0"), "notepad");
    assert_eq!(process_stem("my.app.exe"), "my.app");
    assert_eq!(process_stem("noext\0"), "noext");
    assert_eq!(process_stem(".hidden"), "");
    assert_eq!(process_stem(""), "");
}

#[test]
fn monitors_become_numbered_displays() {
    let d = monitor_display(1, -1920, 100, 0, 1180, false);
    assert_eq!(d.name, "Display 2");
    assert_eq!((d.x, d.y, d.width, d.height, d.is_primary), (-1920, 100, 1920, 1080, false));
}

#[test]
fn icon_pixels_swap_blue_and_red() {
    let mut data = vec![1, 2, 3, 4, 5, 6, 7, 8, 9, 10];
    bgra_to_rgba(&mut data);
    assert_eq!(data, vec![3, 2, 1, 4, 7, 6, 5, 8, 9, 10]);
}

#[test]
fn windows_are_sorted_by_title_stably() {
    let mut ws = vec![window(1, "b"), window(2, "a"), window(3, "b"), window(4, "B"), window(5, "ab")];
    sort_windows_by_title(&mut ws);
    let order: Vec<isize> = ws.iter().map(|w| w.hwnd).collect();
    assert_eq!(order, vec![4, 2, 5, 1, 3]);
}

#[test]
fn the_primary_display_comes_first_then_by_name() {
    let d = |name: &str, primary: bool| DisplayInfo { name: name.to_string(), is_primary: primary, ..ultrawide() };
    let mut ds = vec![d("Display 3", false), d("Display 2", true), d("Display 1", false)];
    sort_displays(&mut ds);
    let names: Vec<&str> = ds.iter().map(|d| d.name.as_str()).collect();
    assert_eq!(names, vec!["Display 2", "Display 1", "Display 3"]);
}

#[test]
fn strips_only_a_bordered_window_not_yet_stripped() {
    let mut manager = WindowManager::new();
    let placement = Placement::default();
    let bordered = probe(0x10CF_0000, 0);
    assert!(manager.strips(7, &bordered));
    assert!(!manager.strips(7, &WindowProbe { exists: false, ..bordered }));
    assert!(!manager.strips(7, &probe(0, 0)));
    assert!(!manager.strips(7, &probe(0x1000_0000, 0)));
    assert!(!manager.strips(7, &WindowProbe { rect: None, ..bordered }));
    assert!(manager.toggle_borderless(7, &bordered, &placement, None).is_ok());
    // Once stripped, toggling it again restores it instead.
    assert!(!manager.strips(7, &bordered));
    assert!(manager.strips(8, &bordered));
}
