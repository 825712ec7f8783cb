//! What the interface shows: every label and every enabled or disabled state,
//! decided from the window list, the selection and the placement. Drawing them
//! is left to the caller.

use vstd::prelude::*;

use crate::text::{int_text, push_i32, push_i64, push_str, push_u64};
use crate::window_manager::{
    display_label, frame_overflows, overflows_fits, resolve_fits, target_frame, toggle_outcome,
    toggle_strips, window_label, DisplayInfo, FrameAction, OriginalFrame, Placement, WindowInfo,
    WindowProbe,
};

verus! {

/// The position of the first window with handle `hwnd`, or the length of the
/// list when there is none.
pub open spec fn window_position(ws: Seq<WindowInfo>, hwnd: isize) -> nat
    decreases ws.len(),
{
    if ws.len() == 0 {
        0
    } else if ws[0].hwnd == hwnd {
        0
    } else {
        1 + window_position(ws.drop_first(), hwnd)
    }
}

/// The first window with handle `hwnd`, if the list holds one.
pub open spec fn window_with(ws: Seq<WindowInfo>, hwnd: isize) -> Option<WindowInfo> {
    let i = window_position(ws, hwnd);
    if i < ws.len() {
        Some(ws[i as int])
    } else {
        None
    }
}

proof fn lemma_window_position(ws: Seq<WindowInfo>, hwnd: isize, k: int)
    requires
        0 <= k <= ws.len(),
        forall|j: int| 0 <= j < k ==> ws[j].hwnd != hwnd,
        k < ws.len() ==> ws[k].hwnd == hwnd,
    ensures
        window_position(ws, hwnd) == k,
    decreases ws.len(),
{
    if ws.len() > 0 && ws[0].hwnd != hwnd {
        assert forall|j: int| 0 <= j < k - 1 implies ws.drop_first()[j].hwnd != hwnd by {
            assert(ws[j + 1].hwnd != hwnd);
        }
        lemma_window_position(ws.drop_first(), hwnd, k - 1);
    }
}

/// The first window with a handle stands no later than any window with it.
proof fn lemma_window_position_at_most(ws: Seq<WindowInfo>, hwnd: isize, i: int)
    requires
        0 <= i < ws.len(),
        ws[i].hwnd == hwnd,
    ensures
        window_position(ws, hwnd) <= i,
    decreases ws.len(),
{
    if ws[0].hwnd != hwnd {
        assert(ws.drop_first()[i - 1] == ws[i]);
        lemma_window_position_at_most(ws.drop_first(), hwnd, i - 1);
    }
}

/// Where the first window with handle `hwnd` stands in `windows`, if anywhere.
pub fn find_window(windows: &[WindowInfo], hwnd: isize) -> (r: Option<usize>)
    ensures
        match r {
            Some(i) => i < windows@.len() && i == window_position(windows@, hwnd),
            None => window_position(windows@, hwnd) == windows@.len(),
        },
{
    let mut i: usize = 0;
    while i < windows.len()
        invariant
            i <= windows@.len(),
            forall|j: int| 0 <= j < i ==> windows@[j].hwnd != hwnd,
        decreases windows@.len() - i,
    {
        if windows[i].hwnd == hwnd {
            proof {
                lemma_window_position(windows@, hwnd, i as int);
            }
            return Some(i);
        }
        i = i + 1;
    }
    proof {
        lemma_window_position(windows@, hwnd, i as int);
    }
    None
}

/// `1 window found`, or `N windows found` for any other count.
pub open spec fn window_count_label(n: usize) -> Seq<char> {
    int_text(n as int) + if n == 1 {
        " window found"@
    } else {
        " windows found"@
    }
}

pub fn window_count_text(window_count: usize) -> (r: String)
    ensures
        r@ == window_count_label(window_count),
{
    let mut s = String::new();
    push_u64(&mut s, window_count as u64);
    if window_count == 1 {
        push_str(&mut s, " window found");
    } else {
        push_str(&mut s, " windows found");
    }
    s
}

/// The marker in front of each window in the list: borderless or windowed.
pub fn window_status_text(is_borderless: bool) -> (r: &'static str)
    ensures
        r@ == if is_borderless {
            "[B]"@
        } else {
            "[W]"@
        },
{
    if is_borderless {
        "[B]"
    } else {
        "[W]"
    }
}

/// The key under which a window's icon texture is cached.
pub fn icon_cache_key(hwnd: isize) -> (r: String)
    ensures
        r@ == "icon_"@ + int_text(hwnd as int),
{
    let mut s = String::new();
    push_str(&mut s, "icon_");
    push_i64(&mut s, hwnd as i64);
    s
}

/// The label of the window selector: the selected window's line, or a prompt
/// when nothing (or a window no longer listed) is selected.
pub open spec fn window_selector_label(ws: Seq<WindowInfo>, selected: Option<isize>) -> Seq<char> {
    match selected {
        Some(h) => match window_with(ws, h) {
            Some(w) => window_label(w.title@, w.process_name@),
            None => "Select a window..."@,
        },
        None => "Select a window..."@,
    }
}

pub fn window_selector_text(windows: &[WindowInfo], selected_hwnd: Option<isize>) -> (r: String)
    ensures
        r@ == window_selector_label(windows@, selected_hwnd),
{
    let mut s = String::new();
    match selected_hwnd {
        Some(h) => match find_window(windows, h) {
            Some(i) => windows[i].display_text(),
            None => {
                push_str(&mut s, "Select a window...");
                s
            },
        },
        None => {
            push_str(&mut s, "Select a window...");
            s
        },
    }
}

/// The label of the display selector: the selected display's line, or a
/// prompt when nothing (or an index past the list) is selected.
pub open spec fn display_selector_label(ds: Seq<DisplayInfo>, selected: Option<usize>) -> Seq<char> {
    match selected {
        Some(i) => if i < ds.len() {
            display_label(ds[i as int])
        } else {
            "Select a display..."@
        },
        None => "Select a display..."@,
    }
}

pub fn display_selector_text(displays: &[DisplayInfo], selected_display: Option<usize>) -> (r:
    String)
    ensures
        r@ == display_selector_label(displays@, selected_display),
{
    match selected_display {
        Some(i) => {
            if i < displays.len() {
                return displays[i].display_text();
            }
        },
        None => {},
    }
    let mut s = String::new();
    push_str(&mut s, "Select a display...");
    s
}

/// The action button: its label and whether it can be pressed.
#[derive(Debug, Clone, Copy, PartialEq, Eq)]
pub struct ActionButton {
    pub label: &'static str,
    pub enabled: bool,
}

/// A window this app stripped can be restored; a window with borders can be
/// made borderless; a window that is borderless for another reason is left
/// alone rather than given a frame it never had.
pub open spec fn action_button_spec(
    ws: Seq<WindowInfo>,
    selected: Option<isize>,
    can_restore: bool,
) -> (Seq<char>, bool) {
    match selected {
        Some(h) => match window_with(ws, h) {
            Some(w) => if can_restore {
                ("Restore Borders"@, true)
            } else if !w.is_borderless {
                ("Make Borderless"@, true)
            } else {
                ("Restore Borders"@, false)
            },
            None => ("Make Borderless"@, false),
        },
        None => ("Make Borderless"@, false),
    }
}

/// `can_restore` means this app saved the window's original frame and can put
/// it back exactly.
pub fn action_button(windows: &[WindowInfo], selected_hwnd: Option<isize>, can_restore: bool) -> (r:
    ActionButton)
    ensures
        (r.label@, r.enabled) == action_button_spec(windows@, selected_hwnd, can_restore),
{
    let selected = match selected_hwnd {
        Some(h) => find_window(windows, h),
        None => None,
    };
    match selected {
        Some(i) => {
            if can_restore {
                ActionButton { label: "Restore Borders", enabled: true }
            } else if !windows[i].is_borderless {
                ActionButton { label: "Make Borderless", enabled: true }
            } else {
                ActionButton { label: "Restore Borders", enabled: false }
            }
        },
        None => ActionButton { label: "Make Borderless", enabled: false },
    }
}

/// The readout of where the window will land.
#[derive(Debug, Clone)]
pub enum PlacementPreview {
    /// The window is left where it is.
    Stays { text: String },
    /// The window goes to a rectangle, which may run past the display edge.
    Placed { summary: String, detail: String, overflows: bool },
}

/// `→ WIDTHxHEIGHT at (X, Y)`.
pub open spec fn preview_summary(x: int, y: int, w: int, h: int) -> Seq<char> {
    "→ "@ + int_text(w) + "x"@ + int_text(h) + " at ("@ + int_text(x) + ", "@ + int_text(y)
        + ")"@
}

/// The free space on each side, or a warning when the region runs past the
/// display edge.
pub open spec fn preview_detail(p: Placement, d: DisplayInfo) -> Seq<char> {
    match target_frame(p, d) {
        Some((x, _, w, _)) => if frame_overflows(p, d) {
            "extends past the display edge"@
        } else {
            "sides free: "@ + int_text(x - d.x) + "px | "@ + int_text((d.x + d.width) - (x + w))
                + "px"@
        },
        None => Seq::<char>::empty(),
    }
}

/// Exactly where the window will land, so the numbers can be checked before
/// anything is moved.
pub fn placement_preview(placement: &Placement, display: &DisplayInfo) -> (r: PlacementPreview)
    requires
        overflows_fits(*placement, *display),
    ensures
        match (r, target_frame(*placement, *display)) {
            (PlacementPreview::Stays { text }, None) => text@ == "→ window is left where it is"@,
            (PlacementPreview::Placed { summary, detail, overflows }, Some((x, y, w, h))) => {
                &&& summary@ == preview_summary(x, y, w, h)
                &&& detail@ == preview_detail(*placement, *display)
                &&& overflows == frame_overflows(*placement, *display)
            },
            _ => false,
        },
{
    let rect = match placement.resolve(display) {
        Some(rect) => rect,
        None => {
            let mut text = String::new();
            push_str(&mut text, "→ window is left where it is");
            return PlacementPreview::Stays { text };
        },
    };
    let width = rect.right - rect.left;
    let height = rect.bottom - rect.top;
    let overflows = placement.overflows(display);
    let mut summary = String::new();
    push_str(&mut summary, "→ ");
    push_i32(&mut summary, width);
    push_str(&mut summary, "x");
    push_i32(&mut summary, height);
    push_str(&mut summary, " at (");
    push_i32(&mut summary, rect.left);
    push_str(&mut summary, ", ");
    push_i32(&mut summary, rect.top);
    push_str(&mut summary, ")");
    let mut detail = String::new();
    if overflows {
        push_str(&mut detail, "extends past the display edge");
    } else {
        let left_gap = rect.left - display.x;
        let right_gap = (display.x + display.width) - rect.right;
        push_str(&mut detail, "sides free: ");
        push_i32(&mut detail, left_gap);
        push_str(&mut detail, "px | ");
        push_i32(&mut detail, right_gap);
        push_str(&mut detail, "px");
    }
    PlacementPreview::Placed { summary, detail, overflows }
}

/// The display selector appears only when there is more than one display.
pub fn shows_display_selector(display_count: usize) -> (r: bool)
    ensures
        r == (display_count > 1),
{
    display_count > 1
}

/// A region size offered as a one-click choice.
#[derive(Debug, Clone, Copy, PartialEq, Eq)]
pub struct SizePreset {
    pub label: &'static str,
    pub width: i32,
    pub height: i32,
}

/// The region sizes offered as one-click choices, in the order shown: 4K,
/// 1440p and 1080p.
pub fn size_presets() -> (r: Vec<SizePreset>)
    ensures
        r@.len() == 3,
        r@[0].label@ == "4K"@ && r@[0].width == 3840 && r@[0].height == 2160,
        r@[1].label@ == "1440p"@ && r@[1].width == 2560 && r@[1].height == 1440,
        r@[2].label@ == "1080p"@ && r@[2].width == 1920 && r@[2].height == 1080,
{
    let mut r = Vec::new();
    r.push(SizePreset { label: "4K", width: 3840, height: 2160 });
    r.push(SizePreset { label: "1440p", width: 2560, height: 1440 });
    r.push(SizePreset { label: "1080p", width: 1920, height: 1080 });
    r
}

impl Placement {
    /// Choosing a preset sets the region's size and nothing else.
    pub fn apply_preset(&mut self, preset: &SizePreset)
        ensures
            *final(self) == (Placement { width: preset.width, height: preset.height, ..*old(self) }),
    {
        self.width = preset.width;
        self.height = preset.height;
    }
}

/// A window that is borderless for a reason other than this app cannot be
/// acted on: it is left alone rather than given a frame it never had.
pub proof fn a_borderless_window_not_stripped_here_is_left_alone(
    ws: Seq<WindowInfo>,
    hwnd: isize,
)
    requires
        window_with(ws, hwnd) matches Some(w) && w.is_borderless,
    ensures
        !action_button_spec(ws, Some(hwnd), false).1,
{
}

/// A listed window that this app stripped can always be restored, whatever the
/// list says of its borders: the window list is refreshed only every few
/// seconds, so a window stripped a moment ago may still be listed as framed.
pub proof fn a_window_stripped_here_can_be_restored(ws: Seq<WindowInfo>, hwnd: isize, i: int)
    requires
        0 <= i < ws.len(),
        ws[i].hwnd == hwnd,
    ensures
        action_button_spec(ws, Some(hwnd), true) == ("Restore Borders"@, true),
{
    lemma_window_position_at_most(ws, hwnd, i);
}

/// Without a listed window selected the button offers to make one borderless
/// but cannot be pressed; a listed window with borders that was not stripped
/// here can be made borderless.
pub proof fn the_button_acts_only_on_a_listed_window(
    ws: Seq<WindowInfo>,
    selected: Option<isize>,
    can_restore: bool,
)
    ensures
        (selected matches Some(h) ==> forall|j: int| 0 <= j < ws.len() ==> ws[j].hwnd != h)
            ==> action_button_spec(ws, selected, can_restore) == ("Make Borderless"@, false),
        (selected matches Some(h) && window_with(ws, h) matches Some(w) && !w.is_borderless
            && !can_restore) ==> action_button_spec(ws, selected, can_restore) == (
            "Make Borderless"@,
            true,
        ),
{
    if let Some(h) = selected {
        if forall|j: int| 0 <= j < ws.len() ==> ws[j].hwnd != h {
            lemma_window_position(ws, h, ws.len() as int);
        }
    }
}

/// The preview shows exactly where the window will land: when the window is
/// stripped onto a display, the rectangle it is moved to is the one the
/// preview reads out.
pub proof fn the_preview_is_where_the_window_lands(
    frames: Map<isize, OriginalFrame>,
    hwnd: isize,
    probe: WindowProbe,
    placement: Placement,
    display: DisplayInfo,
)
    requires
        toggle_strips(frames, hwnd, probe),
        resolve_fits(placement, display),
    ensures
        match toggle_outcome(frames, hwnd, probe, placement, Some(display)).0 {
            Ok(FrameAction::Strip { target, .. }) => match (target, target_frame(placement, display)) {
                (Some(r), Some((x, y, w, h))) => {
                    &&& r.left == x
                    &&& r.top == y
                    &&& r.right - r.left == w
                    &&& r.bottom - r.top == h
                },
                (None, None) => true,
                _ => false,
            },
            _ => false,
        },
{
}

} // verus!
