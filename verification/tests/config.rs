use ultraborderless::config::{set_dimension, set_offset, Config};
use ultraborderless::window_manager::{Anchor, Placement, PlacementMode};

#[test]
fn unknown_and_malformed_entries_fall_back_to_defaults() {
    // Exercised indirectly: the parser must never panic on junk.
    let mut config = Config::default();
    set_dimension(&mut config.placement.width, "not-a-number");
    set_dimension(&mut config.placement.height, "-5");
    assert_eq!(config.placement.width, Placement::default().width);
    assert_eq!(config.placement.height, Placement::default().height);

    set_dimension(&mut config.placement.width, "2560");
    assert_eq!(config.placement.width, 2560);

    // Negative offsets are legitimate (a region left of the display origin).
    set_offset(&mut config.placement.custom_x, "-100");
    assert_eq!(config.placement.custom_x, -100);
}

#[test]
fn numbers_are_read_as_str_parse_reads_them() {
    let mut v = 7;
    set_offset(&mut v, "+12");
    assert_eq!(v, 12);
    set_offset(&mut v, "-2147483648");
    assert_eq!(v, i32::MIN);
    set_offset(&mut v, "2147483648");
    assert_eq!(v, i32::MIN);
    set_offset(&mut v, "2147483647");
    assert_eq!(v, i32::MAX);
    set_offset(&mut v, "");
    set_offset(&mut v, "-");
    set_offset(&mut v, "+");
    set_offset(&mut v, " 5");
    set_offset(&mut v, "1_000");
    assert_eq!(v, i32::MAX);
    set_offset(&mut v, "000042");
    assert_eq!(v, 42);
    let mut d = 10;
    set_dimension(&mut d, "0");
    assert_eq!(d, 10);
    set_dimension(&mut d, "99999999999999999999");
    assert_eq!(d, 10);
}

#[test]
fn an_empty_file_gives_the_defaults() {
    assert_eq!(Config::from_text(""), Config::default());
    assert_eq!(Config::from_text("\n\n# nothing\n   \n"), Config::default());
    let d = Config::default();
    assert_eq!(d.display_index, 0);
    assert_eq!(d.placement, Placement::default());
}

#[test]
fn a_written_file_reads_back_the_same() {
    let configs = [
        Config::default(),
        Config {
            placement: Placement {
                mode: PlacementMode::LeaveInPlace,
                width: 1,
                height: 2147483647,
                anchor: Anchor::Custom,
                custom_x: -2147483648,
                custom_y: -1,
                always_on_top: false,
            },
            display_index: 3,
        },
        Config {
            placement: Placement {
                mode: PlacementMode::FullDisplay,
                width: 2560,
                height: 1440,
                anchor: Anchor::Right,
                custom_x: 0,
                custom_y: 12,
                always_on_top: true,
            },
            display_index: usize::MAX,
        },
        Config {
            placement: Placement { anchor: Anchor::Left, ..Placement::default() },
            display_index: 1,
        },
    ];
    for c in configs {
        assert_eq!(Config::from_text(&c.to_text()), c);
    }
}

#[test]
fn the_written_file_lists_every_setting() {
    assert_eq!(
        Config::default().to_text(),
        "# ultraborderless settings\nmode=region\nwidth=3840\nheight=2160\nanchor=centered\ncustom_x=0\ncustom_y=0\nalways_on_top=true\ndisplay_index=0\n"
    );
}

#[test]
fn lines_are_trimmed_and_junk_is_skipped() {
    let text = "  mode = leave_in_place \r\n\
                width=abc\n\
                height = 1080\n\
                # anchor=left\n\
                anchor\n\
                anchor=right=extra\n\
                custom_x\t=\t-40\n\
                unknown=1\n\
                always_on_top=yes\n\
                display_index=-1\n\
                display_index = 2";
    let c = Config::from_text(text);
    assert_eq!(c.placement.mode, PlacementMode::LeaveInPlace);
    assert_eq!(c.placement.width, 3840);
    assert_eq!(c.placement.height, 1080);
    assert_eq!(c.placement.anchor, Anchor::Centered);
    assert_eq!(c.placement.custom_x, -40);
    // "yes" is no flag: the default stays.
    assert!(c.placement.always_on_top);
    assert_eq!(c.display_index, 2);
}

#[test]
fn unknown_names_fall_back_to_the_defaults() {
    let c = Config::from_text("mode=stretched\nanchor=top");
    assert_eq!(c.placement, Placement::default());
    let c = Config::from_text("mode=bogus\n");
    assert_eq!(c.placement.mode, PlacementMode::Region);
    let c = Config::from_text("always_on_top=yes\n");
    assert!(c.placement.always_on_top);
    // An unreadable value gives the default, not what an earlier line set.
    let c = Config::from_text("anchor=left\nanchor=bogus");
    assert_eq!(c.placement.anchor, Anchor::Centered);
    let c = Config::from_text("always_on_top=false\nalways_on_top=maybe\n");
    assert!(c.placement.always_on_top);
    let c = Config::from_text("anchor=custom\nmode=full_display\nmode=other\nanchor=x\n");
    assert_eq!(c.placement.anchor, Anchor::Centered);
    assert_eq!(c.placement.mode, PlacementMode::Region);
    // Values are matched exactly, not ignoring case.
    let c = Config::from_text("anchor=left\nanchor=Right");
    assert_eq!(c.placement.anchor, Anchor::Centered);
}

#[test]
fn unicode_whitespace_is_trimmed_like_str_trim() {
    let c = Config::from_text("\u{3000}width\u{a0}=\u{2003}1280\u{85}");
    assert_eq!(c.placement.width, 1280);
}

#[test]
fn later_lines_override_earlier_ones() {
    let c = Config::from_text("width=100\nwidth=200\nwidth=0\n");
    assert_eq!(c.placement.width, 200);
}
