//! Windows, displays and where a stripped window is put.
//!
//! The geometry here is free of any system call: a [`Placement`] and a
//! [`DisplayInfo`] determine the target rectangle alone.

use vstd::prelude::*;

use std::collections::HashMap;
use vstd::std_specs::hash::spec_keys_iter;
use vstd::std_specs::iter::IteratorSpec;

use crate::text::{
    chars_of, int_text, push_char, push_chars, push_i32, push_str, push_u64, spells, text_before,
    text_precedes, trim, trim_bounds, lemma_text_before_irreflexive, lemma_text_before_transitive,
    lemma_text_before_total,
};
use crate::sorting::{
    equivalent, insert_sorted, is_strict_weak_order, sorted_by, stable_sort,
    stable_sort_is_a_sorted_rearrangement, stable_sort_keeps_equivalent_elements_in_order,
};

verus! {

/// A rectangle in desktop coordinates: `right` and `bottom` are exclusive.
#[derive(Clone, Copy, Debug, PartialEq, Eq, Structural)]
pub struct Rect {
    pub left: i32,
    pub top: i32,
    pub right: i32,
    pub bottom: i32,
}

#[derive(Debug, Clone)]
pub struct WindowInfo {
    pub hwnd: isize,
    pub title: String,
    pub process_name: String,
    pub is_borderless: bool,
    pub icon_data: Option<Vec<u8>>,
}

#[derive(Debug, Clone)]
pub struct DisplayInfo {
    pub name: String,
    pub x: i32,
    pub y: i32,
    pub width: i32,
    pub height: i32,
    pub is_primary: bool,
}

#[derive(Debug, Clone, Copy, PartialEq, Eq, Structural)]
pub enum PlacementMode {
    /// Strip the borders but leave the window where it is.
    LeaveInPlace,
    /// Fill the whole monitor.
    FullDisplay,
    /// Fill a sub-rectangle of the monitor.
    Region,
}

#[derive(Debug, Clone, Copy, PartialEq, Eq, Structural)]
pub enum Anchor {
    Centered,
    Left,
    Right,
    Custom,
}

/// Where a stripped window should be put.
#[derive(Debug, Clone, Copy, PartialEq, Eq, Structural)]
pub struct Placement {
    pub mode: PlacementMode,
    pub width: i32,
    pub height: i32,
    pub anchor: Anchor,
    pub custom_x: i32,
    pub custom_y: i32,
    pub always_on_top: bool,
}

/// A centered 4K region on top of everything else: the common case is fitting a
/// game into part of an ultrawide, not stretching it across the whole panel.
pub open spec fn default_placement() -> Placement {
    Placement {
        mode: PlacementMode::Region,
        width: 3840,
        height: 2160,
        anchor: Anchor::Centered,
        custom_x: 0,
        custom_y: 0,
        always_on_top: true,
    }
}

impl Default for Placement {
    fn default() -> (r: Self)
        ensures
            r == default_placement(),
    {
        Placement {
            mode: PlacementMode::Region,
            width: 3840,
            height: 2160,
            anchor: Anchor::Centered,
            custom_x: 0,
            custom_y: 0,
            always_on_top: true,
        }
    }
}

// ---------------------------------------------------------------------------
// Geometry
// ---------------------------------------------------------------------------

/// A region is never narrower or shorter than one pixel.
pub open spec fn region_extent(v: i32) -> int {
    if v < 1 {
        1
    } else {
        v as int
    }
}

/// Half of `a`, rounded toward zero, as integer division rounds.
pub open spec fn half(a: int) -> int {
    if a >= 0 {
        a / 2
    } else {
        -((-a) / 2)
    }
}

/// The target frame `(x, y, width, height)` in desktop coordinates, or `None`
/// when the window is to stay where it is. Offsets are relative to the display.
pub open spec fn target_frame(p: Placement, d: DisplayInfo) -> Option<(int, int, int, int)> {
    match p.mode {
        PlacementMode::LeaveInPlace => None,
        PlacementMode::FullDisplay => Some((d.x as int, d.y as int, d.width as int, d.height as int)),
        PlacementMode::Region => {
            let w = region_extent(p.width);
            let h = region_extent(p.height);
            let x = match p.anchor {
                Anchor::Centered => d.x + half(d.width - w),
                Anchor::Left => d.x as int,
                Anchor::Right => d.x + d.width - w,
                Anchor::Custom => d.x + p.custom_x,
            };
            let y = match p.anchor {
                Anchor::Custom => d.y + p.custom_y,
                _ => d.y + half(d.height - h),
            };
            Some((x, y, w, h))
        },
    }
}

pub open spec fn fits_i32(v: int) -> bool {
    i32::MIN <= v <= i32::MAX
}

/// Every intermediate value of the computation of the target rectangle fits
/// in an `i32`.
pub open spec fn resolve_fits(p: Placement, d: DisplayInfo) -> bool {
    match p.mode {
        PlacementMode::LeaveInPlace => true,
        PlacementMode::FullDisplay => fits_i32(d.x + d.width) && fits_i32(d.y + d.height),
        PlacementMode::Region => {
            let w = region_extent(p.width);
            let h = region_extent(p.height);
            let (x, y, _, _) = match target_frame(p, d) {
                Some(f) => f,
                None => (0, 0, 0, 0),
            };
            &&& match p.anchor {
                Anchor::Centered => fits_i32(d.width - w),
                Anchor::Right => fits_i32(d.x + d.width),
                _ => true,
            }
            &&& match p.anchor {
                Anchor::Custom => true,
                _ => fits_i32(d.height - h),
            }
            &&& fits_i32(x)
            &&& fits_i32(y)
            &&& fits_i32(x + w)
            &&& fits_i32(y + h)
        },
    }
}

/// The rectangle that `target_frame` describes.
pub open spec fn is_frame_rect(r: Rect, f: (int, int, int, int)) -> bool {
    let (x, y, w, h) = f;
    &&& r.left == x
    &&& r.top == y
    &&& r.right == x + w
    &&& r.bottom == y + h
}

/// The target frame as a rectangle.
pub open spec fn resolved_rect(p: Placement, d: DisplayInfo) -> Option<Rect> {
    match target_frame(p, d) {
        Some((x, y, w, h)) => Some(
            Rect { left: x as i32, top: y as i32, right: (x + w) as i32, bottom: (y + h) as i32 },
        ),
        None => None,
    }
}

/// The target frame sticks out past the display.
pub open spec fn frame_overflows(p: Placement, d: DisplayInfo) -> bool {
    match target_frame(p, d) {
        Some((x, y, w, h)) => x < d.x || y < d.y || x + w > d.x + d.width || y + h > d.y
            + d.height,
        None => false,
    }
}

/// The sums that `overflows` computes, as far as its tests get, fit in an `i32`.
pub open spec fn overflows_fits(p: Placement, d: DisplayInfo) -> bool {
    &&& resolve_fits(p, d)
    &&& match target_frame(p, d) {
        Some((x, y, w, h)) => {
            &&& (x >= d.x && y >= d.y) ==> fits_i32(d.x + d.width)
            &&& (x >= d.x && y >= d.y && x + w <= d.x + d.width) ==> fits_i32(d.y + d.height)
        },
        None => true,
    }
}

fn half_of(a: i32) -> (r: i32)
    ensures
        r == half(a as int),
{
    a / 2
}

impl Placement {
    /// The target rectangle in desktop coordinates, or `None` to leave the window
    /// where it is. Offsets are relative to the display, so the result stays
    /// correct if the monitor is moved or its mode changes.
    pub fn resolve(&self, display: &DisplayInfo) -> (r: Option<Rect>)
        requires
            resolve_fits(*self, *display),
        ensures
            match (r, target_frame(*self, *display)) {
                (None, None) => true,
                (Some(rect), Some(f)) => is_frame_rect(rect, f),
                _ => false,
            },
            r == resolved_rect(*self, *display),
    {
        let (x, y, width, height) = match self.mode {
            PlacementMode::LeaveInPlace => return None,
            PlacementMode::FullDisplay => (display.x, display.y, display.width, display.height),
            PlacementMode::Region => {
                let width = if self.width < 1 {
                    1
                } else {
                    self.width
                };
                let height = if self.height < 1 {
                    1
                } else {
                    self.height
                };
                let x = match self.anchor {
                    Anchor::Centered => display.x + half_of(display.width - width),
                    Anchor::Left => display.x,
                    Anchor::Right => display.x + display.width - width,
                    Anchor::Custom => display.x + self.custom_x,
                };
                let y = match self.anchor {
                    Anchor::Custom => display.y + self.custom_y,
                    _ => display.y + half_of(display.height - height),
                };
                (x, y, width, height)
            },
        };
        Some(Rect { left: x, top: y, right: x + width, bottom: y + height })
    }

    /// True when the resolved rectangle sticks out past the display, which is
    /// allowed but worth surfacing in the interface.
    pub fn overflows(&self, display: &DisplayInfo) -> (r: bool)
        requires
            overflows_fits(*self, *display),
        ensures
            r == frame_overflows(*self, *display),
    {
        match self.resolve(display) {
            Some(rect) => {
                rect.left < display.x || rect.top < display.y || rect.right > display.x
                    + display.width || rect.bottom > display.y + display.height
            },
            None => false,
        }
    }
}

fn fits(v: i64) -> (r: bool)
    ensures
        r == fits_i32(v as int),
{
    -2147483648 <= v && v <= 2147483647
}

impl Placement {
    /// The target frame as 64-bit integers, which never overflow.
    fn frame_wide(&self, display: &DisplayInfo) -> (r: Option<(i64, i64, i64, i64)>)
        ensures
            match (r, target_frame(*self, *display)) {
                (Some((x, y, w, h)), Some((fx, fy, fw, fh))) => x == fx && y == fy && w == fw && h
                    == fh,
                (None, None) => true,
                _ => false,
            },
    {
        let dx = display.x as i64;
        let dy = display.y as i64;
        let dw = display.width as i64;
        let dh = display.height as i64;
        match self.mode {
            PlacementMode::LeaveInPlace => None,
            PlacementMode::FullDisplay => Some((dx, dy, dw, dh)),
            PlacementMode::Region => {
                let w: i64 = if self.width < 1 {
                    1
                } else {
                    self.width as i64
                };
                let h: i64 = if self.height < 1 {
                    1
                } else {
                    self.height as i64
                };
                let x = match self.anchor {
                    Anchor::Centered => dx + (dw - w) / 2,
                    Anchor::Left => dx,
                    Anchor::Right => dx + dw - w,
                    Anchor::Custom => dx + self.custom_x as i64,
                };
                let y = match self.anchor {
                    Anchor::Custom => dy + self.custom_y as i64,
                    _ => dy + (dh - h) / 2,
                };
                Some((x, y, w, h))
            },
        }
    }

    /// Whether `resolve` can compute the target on `display` within `i32`.
    pub fn resolves_on(&self, display: &DisplayInfo) -> (r: bool)
        ensures
            r == resolve_fits(*self, *display),
    {
        let dx = display.x as i64;
        let dy = display.y as i64;
        let dw = display.width as i64;
        let dh = display.height as i64;
        match self.frame_wide(display) {
            None => true,
            Some((x, y, w, h)) => match self.mode {
                PlacementMode::FullDisplay => fits(dx + dw) && fits(dy + dh),
                _ => {
                    let first = match self.anchor {
                        Anchor::Centered => fits(dw - w),
                        Anchor::Right => fits(dx + dw),
                        _ => true,
                    };
                    let second = match self.anchor {
                        Anchor::Custom => true,
                        _ => fits(dh - h),
                    };
                    first && second && fits(x) && fits(y) && fits(x + w) && fits(y + h)
                },
            },
        }
    }

    /// Whether `resolve` and `overflows` can compute their results on
    /// `display` within `i32`.
    pub fn fits_on(&self, display: &DisplayInfo) -> (r: bool)
        ensures
            r == overflows_fits(*self, *display),
    {
        if !self.resolves_on(display) {
            return false;
        }
        let dx = display.x as i64;
        let dy = display.y as i64;
        let dw = display.width as i64;
        let dh = display.height as i64;
        match self.frame_wide(display) {
            None => true,
            Some((x, y, w, _)) => {
                let a = !(x >= dx && y >= dy) || fits(dx + dw);
                let b = !(x >= dx && y >= dy && x + w <= dx + dw) || fits(dy + dh);
                a && b
            },
        }
    }
}

// ---------------------------------------------------------------------------
// Laws of the geometry
// ---------------------------------------------------------------------------

/// A region is exactly the requested size (at least one pixel each way),
/// wherever it is anchored.
pub proof fn region_has_the_requested_size(p: Placement, d: DisplayInfo)
    requires
        p.mode == PlacementMode::Region,
    ensures
        match target_frame(p, d) {
            Some((_, _, w, h)) => {
                &&& w == region_extent(p.width)
                &&& h == region_extent(p.height)
                &&& p.width >= 1 ==> w == p.width
                &&& p.height >= 1 ==> h == p.height
            },
            None => false,
        },
{
}

/// A centered region leaves the same free space on both sides and above and
/// below, up to one pixel when the difference is odd (negative free space when
/// the region is larger than the display).
pub proof fn centered_region_splits_free_space_evenly(p: Placement, d: DisplayInfo)
    requires
        p.mode == PlacementMode::Region,
        p.anchor == Anchor::Centered,
    ensures
        ({
            let (x, y, w, h) = match target_frame(p, d) {
                Some(f) => f,
                None => (0, 0, 0, 0),
            };
            let left = x - d.x;
            let right = (d.x + d.width) - (x + w);
            let above = y - d.y;
            let below = (d.y + d.height) - (y + h);
            &&& -1 <= right - left <= 1
            &&& -1 <= below - above <= 1
            &&& left + right == d.width - w
            &&& above + below == d.height - h
        }),
{
}

/// Offsets are display-relative: moving a display moves the target with it,
/// by the same amount, and a left- or right-anchored region touches the edge
/// it is anchored to.
pub proof fn target_follows_the_display(p: Placement, d1: DisplayInfo, d2: DisplayInfo)
    requires
        d1.width == d2.width,
        d1.height == d2.height,
    ensures
        match (target_frame(p, d1), target_frame(p, d2)) {
            (Some((x1, y1, w1, h1)), Some((x2, y2, w2, h2))) => {
                &&& x2 == x1 + (d2.x - d1.x)
                &&& y2 == y1 + (d2.y - d1.y)
                &&& w2 == w1
                &&& h2 == h1
            },
            (None, None) => true,
            _ => false,
        },
        match target_frame(p, d1) {
            Some((x, _, w, _)) => {
                &&& (p.mode == PlacementMode::Region && p.anchor == Anchor::Left) ==> x == d1.x
                &&& (p.mode == PlacementMode::Region && p.anchor == Anchor::Right) ==> x + w == d1.x
                    + d1.width
            },
            None => true,
        },
{
}

/// Filling the display, or leaving the window in place, never overflows.
pub proof fn full_display_and_leave_in_place_never_overflow(p: Placement, d: DisplayInfo)
    requires
        p.mode != PlacementMode::Region,
    ensures
        !frame_overflows(p, d),
        p.mode == PlacementMode::FullDisplay ==> target_frame(p, d) == Some(
            (d.x as int, d.y as int, d.width as int, d.height as int),
        ),
        p.mode == PlacementMode::LeaveInPlace ==> target_frame(p, d) is None,
{
}

/// A region anchored to the center or to an edge overflows exactly when it is
/// wider or taller than the display.
pub proof fn anchored_region_overflows_iff_too_large(p: Placement, d: DisplayInfo)
    requires
        p.mode == PlacementMode::Region,
        p.anchor != Anchor::Custom,
    ensures
        frame_overflows(p, d) <==> (region_extent(p.width) > d.width || region_extent(p.height)
            > d.height),
{
}

/// A region anchored to the left or the right edge (or centered) is centered
/// vertically: the free space above and below it differs by at most one pixel,
/// and the two add up to what the region leaves of the display's height. Only
/// a custom anchor sets the top itself.
pub proof fn region_is_centered_vertically_unless_custom(p: Placement, d: DisplayInfo)
    requires
        p.mode == PlacementMode::Region,
        p.anchor != Anchor::Custom,
    ensures
        match target_frame(p, d) {
            Some((_, y, _, h)) => {
                let above = y - d.y;
                let below = (d.y + d.height) - (y + h);
                &&& -1 <= below - above <= 1
                &&& above + below == d.height - h
            },
            None => false,
        },
        resolve_fits(p, d) ==> match resolved_rect(p, d) {
            Some(r) => {
                let above = r.top - d.y;
                let below = (d.y + d.height) - r.bottom;
                &&& -1 <= below - above <= 1
                &&& above + below == d.height - (r.bottom - r.top)
            },
            None => false,
        },
{
}

/// A custom-anchored region puts its top-left corner at the display's origin
/// moved by the custom offsets, which may be negative.
pub proof fn custom_region_sits_at_its_offsets(p: Placement, d: DisplayInfo)
    requires
        p.mode == PlacementMode::Region,
        p.anchor == Anchor::Custom,
    ensures
        match target_frame(p, d) {
            Some((x, y, _, _)) => x - d.x == p.custom_x && y - d.y == p.custom_y,
            None => false,
        },
{
}

/// The point `(px, py)` lies inside the frame `(x, y, width, height)`.
pub open spec fn frame_covers(f: (int, int, int, int), px: int, py: int) -> bool {
    let (x, y, w, h) = f;
    x <= px < x + w && y <= py < y + h
}

/// The point `(px, py)` lies on the display.
pub open spec fn display_covers(d: DisplayInfo, px: int, py: int) -> bool {
    d.x <= px < d.x + d.width && d.y <= py < d.y + d.height
}

/// The overflow warning is raised exactly when some pixel of the target lies
/// off the display, on any side and for every anchor, a custom one included.
pub proof fn overflows_iff_some_pixel_is_off_the_display(p: Placement, d: DisplayInfo)
    ensures
        match target_frame(p, d) {
            Some(f) => frame_overflows(p, d) <==> exists|px: int, py: int|
                #[trigger] frame_covers(f, px, py) && !display_covers(d, px, py),
            None => !frame_overflows(p, d),
        },
{
    if let Some(f) = target_frame(p, d) {
        let (x, y, w, h) = f;
        if frame_overflows(p, d) {
            if p.mode == PlacementMode::FullDisplay {
                assert(false);
            }
            assert(w >= 1 && h >= 1);
            if x < d.x {
                assert(frame_covers(f, x, y) && !display_covers(d, x, y));
            } else if y < d.y {
                assert(frame_covers(f, x, y) && !display_covers(d, x, y));
            } else if x + w > d.x + d.width {
                assert(frame_covers(f, x + w - 1, y) && !display_covers(d, x + w - 1, y));
            } else {
                assert(frame_covers(f, x, y + h - 1) && !display_covers(d, x, y + h - 1));
            }
        }
    }
}

// ---------------------------------------------------------------------------
// Labels
// ---------------------------------------------------------------------------

/// `s` cut to `max - 3` characters followed by `...` when it is longer than
/// `max` characters.
pub open spec fn shorten(s: Seq<char>, max: nat) -> Seq<char> {
    if s.len() > max {
        s.take(max - 3) + "..."@
    } else {
        s
    }
}

/// `title (process)`, each part shortened to fit the window list.
pub open spec fn window_label(title: Seq<char>, process: Seq<char>) -> Seq<char> {
    shorten(title, 30) + " ("@ + shorten(process, 15) + ")"@
}

/// `name - WIDTHxHEIGHT`, followed by ` (Primary)` for the primary display.
pub open spec fn display_label(d: DisplayInfo) -> Seq<char> {
    d.name@ + " - "@ + int_text(d.width as int) + "x"@ + int_text(d.height as int) + (if d.is_primary {
        " (Primary)"@
    } else {
        Seq::<char>::empty()
    })
}

/// Appends `shorten(text, max)`.
fn push_shortened(s: &mut String, text: &String, max: usize)
    requires
        max >= 3,
    ensures
        final(s)@ == old(s)@ + shorten(text@, max as nat),
{
    let chars = chars_of(text.as_str());
    if chars.len() > max {
        let ghost start = s@;
        let mut i: usize = 0;
        while i < max - 3
            invariant
                max >= 3,
                chars@.len() > max,
                chars@ == text@,
                i <= max - 3,
                s@ == start + chars@.take(i as int),
            decreases max - 3 - i,
        {
            assert(chars@.take(i + 1) =~= chars@.take(i as int).push(chars@[i as int]));
            push_char(s, chars[i]);
            i = i + 1;
        }
        push_str(s, "...");
        assert(s@ =~= start + shorten(text@, max as nat));
    } else {
        push_chars(s, &chars);
    }
}

impl WindowInfo {
    /// The line shown for this window in the window list.
    pub fn display_text(&self) -> (r: String)
        ensures
            r@ == window_label(self.title@, self.process_name@),
    {
        let mut s = String::new();
        push_shortened(&mut s, &self.title, 30);
        push_str(&mut s, " (");
        push_shortened(&mut s, &self.process_name, 15);
        push_str(&mut s, ")");
        assert(s@ =~= window_label(self.title@, self.process_name@));
        s
    }
}

impl DisplayInfo {
    /// The line shown for this display in the display list.
    pub fn display_text(&self) -> (r: String)
        ensures
            r@ == display_label(*self),
    {
        let mut s = String::new();
        push_str(&mut s, self.name.as_str());
        push_str(&mut s, " - ");
        push_i32(&mut s, self.width);
        push_str(&mut s, "x");
        push_i32(&mut s, self.height);
        if self.is_primary {
            push_str(&mut s, " (Primary)");
        }
        assert(s@ =~= display_label(*self));
        s
    }
}

// ---------------------------------------------------------------------------
// Saved frames
// ---------------------------------------------------------------------------

/// The style bits cleared when making a window borderless: `WS_BORDER`,
/// `WS_CAPTION`, `WS_THICKFRAME` and `WS_DLGFRAME`.
pub const BORDER_STYLES: u32 = 0x00C4_0000;

/// The extended style bit of a window in the topmost band (`WS_EX_TOPMOST`).
pub const EX_TOPMOST: u32 = 0x0000_0008;

/// A window's frame as it was before its borders were stripped, so it can be
/// put back exactly.
#[derive(Debug, Clone, Copy, PartialEq, Eq, Structural)]
pub struct OriginalFrame {
    pub style: u32,
    pub rect: Rect,
    pub was_topmost: bool,
}

/// What the system reports about a window just before it is toggled.
#[derive(Debug, Clone, Copy, PartialEq, Eq, Structural)]
pub struct WindowProbe {
    /// The handle still names a window.
    pub exists: bool,
    /// Its style; zero when it could not be read.
    pub style: u32,
    /// Its extended style.
    pub ex_style: u32,
    /// Its rectangle, when it could be read.
    pub rect: Option<Rect>,
}

/// Where in the z-order a window is put.
#[derive(Debug, Clone, Copy, PartialEq, Eq, Structural)]
pub enum ZOrder {
    /// Into the topmost band.
    Topmost,
    /// Out of the topmost band.
    NotTopmost,
    /// To the top of its band, or left alone when `keep_z_order` is set.
    Top,
}

/// What the system is to be told to do with a window.
#[derive(Debug, Clone, Copy, PartialEq, Eq, Structural)]
pub enum FrameAction {
    /// Put back the saved style, then the saved rectangle in the saved band.
    Restore { style: u32, rect: Rect, z: ZOrder },
    /// Set the borderless style, then move the window to `target` (or leave it
    /// where it is when there is none) in the band `z`.
    Strip { style: u32, z: ZOrder, keep_z_order: bool, target: Option<Rect> },
}

/// Why a window was not toggled.
#[derive(Debug, Clone, Copy, PartialEq, Eq, Structural)]
pub enum ToggleError {
    WindowGone,
    StyleUnreadable,
    NoBorders,
    RectUnreadable,
}

impl ToggleError {
    /// The message shown for the error.
    pub fn message(&self) -> (r: &'static str)
        ensures
            r@ == match self {
                ToggleError::WindowGone => "window no longer exists"@,
                ToggleError::StyleUnreadable => "could not read window style"@,
                ToggleError::NoBorders => "window has no borders to remove"@,
                ToggleError::RectUnreadable => "could not read window rectangle"@,
            },
    {
        match self {
            ToggleError::WindowGone => "window no longer exists",
            ToggleError::StyleUnreadable => "could not read window style",
            ToggleError::NoBorders => "window has no borders to remove",
            ToggleError::RectUnreadable => "could not read window rectangle",
        }
    }
}

/// Toggling `hwnd` with these saved frames and this probe strips its borders
/// (rather than failing or restoring it).
pub open spec fn toggle_strips(frames: Map<isize, OriginalFrame>, hwnd: isize, probe: WindowProbe) -> bool {
    &&& probe.exists
    &&& probe.style != 0
    &&& !frames.contains_key(hwnd)
    &&& probe.style & BORDER_STYLES != 0
    &&& probe.rect is Some
}

/// Where a stripped window goes: nowhere without a display to resolve against.
pub open spec fn strip_target(placement: Placement, display: Option<DisplayInfo>) -> Option<Rect> {
    match display {
        Some(d) => resolved_rect(placement, d),
        None => None,
    }
}

/// The outcome of toggling `hwnd`: the answer, and the saved frames after it.
///
/// A window that this manager stripped gets its saved frame back; any other
/// window with borders is stripped and its frame saved; a frame is never
/// invented for a window that was not stripped here.
pub open spec fn toggle_outcome(
    frames: Map<isize, OriginalFrame>,
    hwnd: isize,
    probe: WindowProbe,
    placement: Placement,
    display: Option<DisplayInfo>,
) -> (Result<FrameAction, ToggleError>, Map<isize, OriginalFrame>) {
    if !probe.exists {
        (Err(ToggleError::WindowGone), frames)
    } else if probe.style == 0 {
        (Err(ToggleError::StyleUnreadable), frames)
    } else if frames.contains_key(hwnd) {
        let f = frames[hwnd];
        (
            Ok(
                FrameAction::Restore {
                    style: f.style,
                    rect: f.rect,
                    z: if f.was_topmost {
                        ZOrder::Topmost
                    } else {
                        ZOrder::NotTopmost
                    },
                },
            ),
            frames.remove(hwnd),
        )
    } else if probe.style & BORDER_STYLES == 0 {
        (Err(ToggleError::NoBorders), frames)
    } else {
        match probe.rect {
            None => (Err(ToggleError::RectUnreadable), frames),
            Some(rect) => (
                Ok(
                    FrameAction::Strip {
                        style: probe.style & !BORDER_STYLES,
                        z: if placement.always_on_top {
                            ZOrder::Topmost
                        } else {
                            ZOrder::Top
                        },
                        keep_z_order: !placement.always_on_top,
                        target: strip_target(placement, display),
                    },
                ),
                frames.insert(
                    hwnd,
                    OriginalFrame {
                        style: probe.style,
                        rect,
                        was_topmost: probe.ex_style & EX_TOPMOST != 0,
                    },
                ),
            ),
        }
    }
}

/// The windows last listed, and the frames saved for the windows stripped here.
pub struct WindowManager {
    windows: Vec<WindowInfo>,
    original_frames: HashMap<isize, OriginalFrame>,
}

impl WindowManager {
    /// The windows last listed.
    pub closed spec fn window_list(&self) -> Seq<WindowInfo> {
        self.windows@
    }

    /// The frames saved for the windows stripped here, by handle.
    pub closed spec fn saved_frames(&self) -> Map<isize, OriginalFrame> {
        self.original_frames@
    }

    pub fn new() -> (r: Self)
        ensures
            r.window_list() == Seq::<WindowInfo>::empty(),
            r.saved_frames() == Map::<isize, OriginalFrame>::empty(),
    {
        WindowManager { windows: Vec::new(), original_frames: HashMap::new() }
    }

    pub fn get_windows(&self) -> (r: &[WindowInfo])
        ensures
            r@ == self.window_list(),
    {
        self.windows.as_slice()
    }

    /// Replaces the window list, and drops the frames saved for the handles in
    /// `closed` (those that no longer name a window), so the saved frames cannot
    /// grow without bound over a long session.
    pub fn set_windows(&mut self, windows: Vec<WindowInfo>, closed: &Vec<isize>)
        ensures
            final(self).window_list() == windows@,
            final(self).saved_frames() == old(self).saved_frames().remove_keys(closed@.to_set()),
    {
        broadcast use vstd::std_specs::hash::group_hash_axioms;

        self.windows = windows;
        let ghost start = self.original_frames@;
        let ghost listed = self.windows@;
        let mut i: usize = 0;
        while i < closed.len()
            invariant
                i <= closed@.len(),
                self.windows@ == listed,
                self.original_frames@ == start.remove_keys(closed@.take(i as int).to_set()),
            decreases closed@.len() - i,
        {
            self.original_frames.remove(&closed[i]);
            assert(closed@.take(i + 1) =~= closed@.take(i as int).push(closed@[i as int]));
            proof { closed@.take(i as int).lemma_push_to_set_commute(closed@[i as int]); }
            assert(self.original_frames@ =~= start.remove_keys(closed@.take(i + 1).to_set()));
            i = i + 1;
        }
        assert(closed@.take(i as int) =~= closed@);
    }

    /// The handles of the windows whose frames are saved.
    pub fn saved_handles(&self) -> (r: Vec<isize>)
        ensures
            r@.to_set() == self.saved_frames().dom(),
            r@.no_duplicates(),
    {
        broadcast use vstd::std_specs::hash::group_hash_axioms;

        let mut r: Vec<isize> = Vec::new();
        for k in it: self.original_frames.keys()
            invariant
                r@ == it.seq().take(it.index() as int).unref(),
        {
            assert(it.seq().take(it.index() + 1).unref() =~= it.seq().take(
                it.index() as int,
            ).unref().push(*k));
            r.push(*k);
        }
        assert(r@ =~= spec_keys_iter(&self.original_frames).remaining().unref());
        r
    }

    /// Whether this manager stripped the given window and can put it back
    /// exactly.
    pub fn has_saved_frame(&self, hwnd: isize) -> (r: bool)
        ensures
            r == self.saved_frames().contains_key(hwnd),
    {
        broadcast use vstd::std_specs::hash::group_hash_axioms;

        self.original_frames.contains_key(&hwnd)
    }

    /// Whether toggling `hwnd`, of which the system reports `window`, would
    /// strip its borders (and so place it), rather than fail or restore it.
    pub fn strips(&self, hwnd: isize, window: &WindowProbe) -> (r: bool)
        ensures
            r == toggle_strips(self.saved_frames(), hwnd, *window),
    {
        window.exists && window.style != 0 && !self.has_saved_frame(hwnd) && window.style
            & BORDER_STYLES != 0 && window.rect.is_some()
    }

    /// Decides what toggling `hwnd` does, given what the system reports about it
    /// in `window`: restores the exact frame saved when this manager stripped it,
    /// or strips its borders (saving its frame) and places it per `placement` on
    /// `selected_display`. The caller carries out the returned action.
    pub fn toggle_borderless(
        &mut self,
        hwnd: isize,
        window: &WindowProbe,
        placement: &Placement,
        selected_display: Option<&DisplayInfo>,
    ) -> (r: Result<FrameAction, ToggleError>)
        requires
            toggle_strips(old(self).saved_frames(), hwnd, *window) ==> match selected_display {
                Some(d) => resolve_fits(*placement, *d),
                None => true,
            },
        ensures
            (r, final(self).saved_frames()) == toggle_outcome(
                old(self).saved_frames(),
                hwnd,
                *window,
                *placement,
                match selected_display {
                    Some(d) => Some(*d),
                    None => None,
                },
            ),
            final(self).window_list() == old(self).window_list(),
    {
        broadcast use vstd::std_specs::hash::group_hash_axioms;

        if !window.exists {
            return Err(ToggleError::WindowGone);
        }
        let style = window.style;
        if style == 0 {
            return Err(ToggleError::StyleUnreadable);
        }
        if let Some(original) = self.original_frames.remove(&hwnd) {
            let z = if original.was_topmost {
                ZOrder::Topmost
            } else {
                ZOrder::NotTopmost
            };
            return Ok(FrameAction::Restore { style: original.style, rect: original.rect, z });
        }
        if style & BORDER_STYLES == 0 {
            return Err(ToggleError::NoBorders);
        }
        let rect = match window.rect {
            Some(rect) => rect,
            None => return Err(ToggleError::RectUnreadable),
        };
        let was_topmost = window.ex_style & EX_TOPMOST != 0;
        self.original_frames.insert(hwnd, OriginalFrame { style, rect, was_topmost });
        let (z, keep_z_order) = if placement.always_on_top {
            (ZOrder::Topmost, false)
        } else {
            (ZOrder::Top, true)
        };
        let target = match selected_display {
            Some(display) => placement.resolve(display),
            None => None,
        };
        Ok(FrameAction::Strip { style: style & !BORDER_STYLES, z, keep_z_order, target })
    }
}

// ---------------------------------------------------------------------------
// Laws of the saved frames
// ---------------------------------------------------------------------------

/// Stripping a window clears exactly its border bits and saves its frame;
/// toggling it again restores that style exactly, with its rectangle and its
/// original band, and forgets the saved frame, so the saved frames are as they
/// were before.
pub proof fn strip_then_restore_round_trips(
    frames: Map<isize, OriginalFrame>,
    hwnd: isize,
    before: WindowProbe,
    after: WindowProbe,
    placement: Placement,
    display: Option<DisplayInfo>,
)
    requires
        toggle_strips(frames, hwnd, before),
        after.exists,
        after.style != 0,
    ensures
        ({
            let (first, saved) = toggle_outcome(frames, hwnd, before, placement, display);
            let (second, restored) = toggle_outcome(saved, hwnd, after, placement, display);
            &&& saved.contains_key(hwnd)
            &&& match first {
                Ok(FrameAction::Strip { style, .. }) => style & BORDER_STYLES == 0 && style
                    | (before.style & BORDER_STYLES) == before.style,
                _ => false,
            }
            &&& second == Ok::<FrameAction, ToggleError>(
                FrameAction::Restore {
                    style: before.style,
                    rect: before.rect->0,
                    z: if before.ex_style & EX_TOPMOST != 0 {
                        ZOrder::Topmost
                    } else {
                        ZOrder::NotTopmost
                    },
                },
            )
            &&& restored == frames
        }),
{
    let s = before.style;
    let b = BORDER_STYLES;
    assert((s & !b) & b == 0 && (s & !b) | (s & b) == s) by (bit_vector);
    let (_, saved) = toggle_outcome(frames, hwnd, before, placement, display);
    assert(saved.remove(hwnd) =~= frames);
}

/// A window that was not stripped here is never given a frame: toggling it
/// either strips it or fails, and a failure changes nothing.
pub proof fn no_frame_is_invented(
    frames: Map<isize, OriginalFrame>,
    hwnd: isize,
    probe: WindowProbe,
    placement: Placement,
    display: Option<DisplayInfo>,
)
    requires
        !frames.contains_key(hwnd),
    ensures
        ({
            let (r, after) = toggle_outcome(frames, hwnd, probe, placement, display);
            &&& !(r matches Ok(FrameAction::Restore { .. }))
            &&& r is Err ==> after == frames
        }),
{
}

/// Always-on-top alone decides where a stripped window goes in the z-order,
/// whatever the placement's mode and anchor: with it set, the window goes into
/// the topmost band (over the taskbar); without it, the window is raised to the
/// top of its own band and its z-order is otherwise kept. Two placements that
/// agree on always-on-top put the window in the same band.
pub proof fn stripped_window_is_topmost_iff_always_on_top(
    frames: Map<isize, OriginalFrame>,
    hwnd: isize,
    probe: WindowProbe,
    placement: Placement,
    other: Placement,
    display: Option<DisplayInfo>,
)
    requires
        toggle_strips(frames, hwnd, probe),
    ensures
        match toggle_outcome(frames, hwnd, probe, placement, display).0 {
            Ok(FrameAction::Strip { z, keep_z_order, .. }) => {
                &&& (z == ZOrder::Topmost) == placement.always_on_top
                &&& keep_z_order == !placement.always_on_top
                &&& !placement.always_on_top ==> z == ZOrder::Top
            },
            _ => false,
        },
        other.always_on_top == placement.always_on_top ==> match (
            toggle_outcome(frames, hwnd, probe, placement, display).0,
            toggle_outcome(frames, hwnd, probe, other, display).0,
        ) {
            (
                Ok(FrameAction::Strip { z: z1, keep_z_order: k1, .. }),
                Ok(FrameAction::Strip { z: z2, keep_z_order: k2, .. }),
            ) => z1 == z2 && k1 == k2,
            _ => false,
        },
{
}

// ---------------------------------------------------------------------------
// Listing windows and displays
// ---------------------------------------------------------------------------

/// The name of this program, which never lists its own window.
pub open spec fn own_name() -> Seq<char> {
    "ultraborderless"@
}

/// ASCII upper-case letters as lower-case ones; every other code unchanged.
pub open spec fn ascii_lower_code(u: u32) -> u32 {
    if 0x41 <= u <= 0x5a {
        (u + 32) as u32
    } else {
        u
    }
}

/// `a` and `b` are the same text up to the case of ASCII letters.
pub open spec fn same_ignoring_ascii_case(a: Seq<char>, b: Seq<char>) -> bool {
    &&& a.len() == b.len()
    &&& forall|i: int| 0 <= i < a.len() ==> ascii_lower_code(a[i] as u32) == ascii_lower_code(
        b[i] as u32,
    )
}

pub open spec fn starts_with(s: Seq<char>, prefix: Seq<char>) -> bool {
    s.len() >= prefix.len() && s.subrange(0, prefix.len() as int) == prefix
}

/// Windows that are not worth listing: blank titles, the desktop itself, and
/// this program's own window.
pub open spec fn title_is_skipped(title: Seq<char>) -> bool {
    ||| trim(title).len() == 0
    ||| starts_with(title, "Program Manager"@)
    ||| title == own_name()
}

/// The process name shown for a window whose process was not found.
pub open spec fn process_label(process_name: Option<String>) -> Seq<char> {
    match process_name {
        Some(p) => p@,
        None => "Unknown"@,
    }
}

fn same_ignoring_case(chars: &Vec<char>, word: &str) -> (r: bool)
    ensures
        r == same_ignoring_ascii_case(chars@, word@),
{
    let w = chars_of(word);
    if chars.len() != w.len() {
        return false;
    }
    let mut i: usize = 0;
    while i < w.len()
        invariant
            chars@.len() == w@.len(),
            w@ == word@,
            i <= w@.len(),
            forall|j: int|
                0 <= j < i ==> ascii_lower_code(chars@[j] as u32) == ascii_lower_code(
                    w@[j] as u32,
                ),
        decreases w@.len() - i,
    {
        let a = chars[i] as u32;
        let b = w[i] as u32;
        let la = if 0x41 <= a && a <= 0x5a {
            a + 32
        } else {
            a
        };
        let lb = if 0x41 <= b && b <= 0x5a {
            b + 32
        } else {
            b
        };
        if la != lb {
            return false;
        }
        i = i + 1;
    }
    true
}

/// The entry for a visible window with this title, process name (if its
/// process was found) and style, or `None` when it is not to be listed. Its
/// icon is left to be filled in.
pub fn list_entry(hwnd: isize, title: String, process_name: Option<String>, style: u32) -> (r:
    Option<WindowInfo>)
    ensures
        r is None <==> (title_is_skipped(title@) || same_ignoring_ascii_case(
            process_label(process_name),
            own_name(),
        )),
        match r {
            Some(w) => {
                &&& w.hwnd == hwnd
                &&& w.title@ == title@
                &&& w.process_name@ == process_label(process_name)
                &&& w.is_borderless == (style & BORDER_STYLES == 0)
                &&& w.icon_data is None
            },
            None => true,
        },
{
    let chars = chars_of(title.as_str());
    let n = chars.len();
    let (a, b) = trim_bounds(&chars, 0, n);
    assert(chars@.subrange(0, n as int) =~= title@);
    let program_manager = n >= 15 && spells(&chars, 0, 15, "Program Manager");
    proof {
        reveal_strlit("Program Manager");
    }
    if a == b || program_manager || spells(&chars, 0, n, "ultraborderless") {
        return None;
    }
    let process = match process_name {
        Some(p) => p,
        None => {
            let mut p = String::new();
            push_str(&mut p, "Unknown");
            p
        },
    };
    let process_chars = chars_of(process.as_str());
    if same_ignoring_case(&process_chars, "ultraborderless") {
        return None;
    }
    Some(
        WindowInfo {
            hwnd,
            title,
            process_name: process,
            is_borderless: style & BORDER_STYLES == 0,
            icon_data: None,
        },
    )
}

/// `s` without its trailing NUL characters.
pub open spec fn trim_nuls(s: Seq<char>) -> Seq<char>
    decreases s.len(),
{
    if s.len() > 0 && s.last() == '\0' {
        trim_nuls(s.drop_last())
    } else {
        s
    }
}

/// The position of the last `c` in `s`, or -1 when there is none.
pub open spec fn last_index_of(s: Seq<char>, c: char) -> int
    decreases s.len(),
{
    if s.len() == 0 {
        -1
    } else if s.last() == c {
        s.len() - 1
    } else {
        last_index_of(s.drop_last(), c)
    }
}

/// A process name from its executable's file name: trailing NULs dropped,
/// then everything from the last `.` on.
pub open spec fn executable_stem(file_name: Seq<char>) -> Seq<char> {
    let t = trim_nuls(file_name);
    let i = last_index_of(t, '.');
    if i >= 0 {
        t.take(i)
    } else {
        t
    }
}

pub fn process_stem(file_name: &str) -> (r: String)
    ensures
        r@ == executable_stem(file_name@),
{
    let chars = chars_of(file_name);
    let mut end = chars.len();
    assert(chars@.take(end as int) =~= chars@);
    while end > 0 && chars[end - 1] == '\0'
        invariant
            end <= chars@.len(),
            chars@ == file_name@,
            trim_nuls(file_name@) == trim_nuls(chars@.take(end as int)),
        decreases end,
    {
        assert(chars@.take(end as int).drop_last() =~= chars@.take(end - 1));
        end = end - 1;
    }
    let ghost t = chars@.take(end as int);
    assert(trim_nuls(t) == t);
    let mut dot = end;
    assert(t.take(dot as int) =~= t);
    while dot > 0 && chars[dot - 1] != '.'
        invariant
            dot <= end <= chars@.len(),
            last_index_of(t, '.') == last_index_of(t.take(dot as int), '.'),
            t == chars@.take(end as int),
        decreases dot,
    {
        assert(t.take(dot as int).drop_last() =~= t.take(dot - 1));
        dot = dot - 1;
    }
    let stop = if dot > 0 {
        assert(t.take(dot as int).last() == '.');
        dot - 1
    } else {
        end
    };
    let mut s = String::new();
    let mut i: usize = 0;
    while i < stop
        invariant
            stop <= end <= chars@.len(),
            i <= stop,
            s@ == chars@.take(i as int),
        decreases stop - i,
    {
        assert(chars@.take(i + 1) =~= chars@.take(i as int).push(chars@[i as int]));
        push_char(&mut s, chars[i]);
        i = i + 1;
    }
    assert(t.take(stop as int) =~= chars@.take(stop as int));
    s
}

/// The entry for the `index`-th monitor found (counting from zero), from its
/// rectangle in desktop coordinates: it is named `Display N`, counting from
/// one.
pub fn monitor_display(
    index: usize,
    left: i32,
    top: i32,
    right: i32,
    bottom: i32,
    is_primary: bool,
) -> (r: DisplayInfo)
    requires
        index < usize::MAX,
        fits_i32(right - left),
        fits_i32(bottom - top),
    ensures
        r.name@ == "Display "@ + int_text(index + 1),
        r.x == left,
        r.y == top,
        r.width == right - left,
        r.height == bottom - top,
        r.is_primary == is_primary,
{
    let mut name = String::new();
    push_str(&mut name, "Display ");
    push_u64(&mut name, (index + 1) as u64);
    DisplayInfo { name, x: left, y: top, width: right - left, height: bottom - top, is_primary }
}

/// An icon bitmap read in blue-green-red-alpha order becomes
/// red-green-blue-alpha: in every whole four-byte pixel the first and third
/// bytes trade places; bytes past the last whole pixel are kept.
pub open spec fn rgba_byte(old: Seq<u8>, i: int) -> u8 {
    let whole = (old.len() / 4) * 4;
    if i < whole && i % 4 == 0 {
        old[i + 2]
    } else if i < whole && i % 4 == 2 {
        old[i - 2]
    } else {
        old[i]
    }
}

#[verifier::spinoff_prover]
pub fn bgra_to_rgba(data: &mut Vec<u8>)
    ensures
        final(data)@.len() == old(data)@.len(),
        forall|i: int| 0 <= i < old(data)@.len() ==> #[trigger] final(data)@[i] == rgba_byte(old(data)@, i),
{
    let ghost start = data@;
    let n = data.len();
    let mut j: usize = 0;
    while n - j >= 4
        invariant
            data@.len() == n == start.len(),
            j % 4 == 0,
            j <= n,
            n - j < 4 ==> j == (n / 4) * 4,
            forall|i: int| 0 <= i < j ==> #[trigger] data@[i] == rgba_byte(start, i),
            forall|i: int| j <= i < n ==> #[trigger] data@[i] == start[i],
        decreases n - j,
    {
        let first = data[j];
        let third = data[j + 2];
        data.set(j, third);
        data.set(j + 2, first);
        proof {
            assert(j + 4 <= (n / 4) * 4);
            assert forall|i: int| j <= i < j + 4 implies #[trigger] data@[i] == rgba_byte(start, i) by {
                assert((i - j) % 4 == i % 4);
            }
        }
        j = j + 4;
    }
}

// ---------------------------------------------------------------------------
// Ordering the lists
// ---------------------------------------------------------------------------

/// Windows are listed by title.
pub open spec fn window_before(a: WindowInfo, b: WindowInfo) -> bool {
    text_before(a.title@, b.title@)
}

pub open spec fn window_order() -> spec_fn(WindowInfo, WindowInfo) -> bool {
    |a: WindowInfo, b: WindowInfo| window_before(a, b)
}

/// The windows ordered by title, windows with equal titles keeping their
/// order: what a stable sort by title gives.
pub open spec fn windows_by_title(s: Seq<WindowInfo>) -> Seq<WindowInfo> {
    stable_sort(s, window_order())
}

/// The primary display comes first, then the others by name.
pub open spec fn display_before(a: DisplayInfo, b: DisplayInfo) -> bool {
    ||| (a.is_primary && !b.is_primary)
    ||| (a.is_primary == b.is_primary && text_before(a.name@, b.name@))
}

pub open spec fn display_order() -> spec_fn(DisplayInfo, DisplayInfo) -> bool {
    |a: DisplayInfo, b: DisplayInfo| display_before(a, b)
}

/// The displays with the primary one first, then by name, displays that
/// compare equal keeping their order: what a stable sort gives.
pub open spec fn displays_in_order(s: Seq<DisplayInfo>) -> Seq<DisplayInfo> {
    stable_sort(s, display_order())
}

proof fn lemma_window_order()
    ensures
        is_strict_weak_order(window_order()),
{
    let f = window_order();
    assert forall|a: WindowInfo| !#[trigger] f(a, a) by {
        lemma_text_before_irreflexive(a.title@);
    }
    assert forall|a: WindowInfo, b: WindowInfo, c: WindowInfo|
        #[trigger] f(a, b) && #[trigger] f(b, c) implies f(a, c) by {
        lemma_text_before_transitive(a.title@, b.title@, c.title@);
    }
    assert forall|a: WindowInfo, b: WindowInfo, c: WindowInfo|
        !#[trigger] f(a, b) && !#[trigger] f(b, c) implies !f(a, c) by {
        lemma_text_weakly_ordered(a.title@, b.title@, c.title@);
    }
}

proof fn lemma_display_order()
    ensures
        is_strict_weak_order(display_order()),
{
    let f = display_order();
    assert forall|a: DisplayInfo| !#[trigger] f(a, a) by {
        lemma_text_before_irreflexive(a.name@);
    }
    assert forall|a: DisplayInfo, b: DisplayInfo, c: DisplayInfo|
        #[trigger] f(a, b) && #[trigger] f(b, c) implies f(a, c) by {
        if a.is_primary == b.is_primary && b.is_primary == c.is_primary {
            lemma_text_before_transitive(a.name@, b.name@, c.name@);
        }
    }
    assert forall|a: DisplayInfo, b: DisplayInfo, c: DisplayInfo|
        !#[trigger] f(a, b) && !#[trigger] f(b, c) implies !f(a, c) by {
        if a.is_primary == b.is_primary && b.is_primary == c.is_primary {
            lemma_text_weakly_ordered(a.name@, b.name@, c.name@);
        }
    }
}

/// Texts that neither come before the other are the same text.
proof fn lemma_text_equivalent(a: Seq<char>, b: Seq<char>)
    ensures
        (!text_before(a, b) && !text_before(b, a)) <==> a == b,
{
    if a != b {
        lemma_text_before_total(a, b);
    } else {
        lemma_text_before_irreflexive(a);
    }
}

/// The window list comes out sorted by title, with every window kept, and
/// windows with the same title in the order they were found.
pub proof fn window_list_is_sorted_by_title(s: Seq<WindowInfo>, x: WindowInfo)
    ensures
        sorted_by(windows_by_title(s), window_order()),
        windows_by_title(s).to_multiset() == s.to_multiset(),
        windows_by_title(s).filter(|w: WindowInfo| w.title@ == x.title@) == s.filter(
            |w: WindowInfo| w.title@ == x.title@,
        ),
{
    lemma_window_order();
    stable_sort_is_a_sorted_rearrangement(s, window_order());
    stable_sort_keeps_equivalent_elements_in_order(s, window_order(), x);
    let same = |w: WindowInfo| w.title@ == x.title@;
    let eq = |w: WindowInfo| equivalent(window_order(), x, w);
    assert forall|w: WindowInfo| #[trigger] eq(w) == same(w) by {
        lemma_text_equivalent(x.title@, w.title@);
    }
    assert(eq =~= same);
}

/// The display list comes out with the primary display first, then by name,
/// with every display kept, and displays that compare equal in the order they
/// were found.
pub proof fn display_list_is_ordered(s: Seq<DisplayInfo>, x: DisplayInfo)
    ensures
        sorted_by(displays_in_order(s), display_order()),
        displays_in_order(s).to_multiset() == s.to_multiset(),
        displays_in_order(s).filter(
            |d: DisplayInfo| d.is_primary == x.is_primary && d.name@ == x.name@,
        ) == s.filter(|d: DisplayInfo| d.is_primary == x.is_primary && d.name@ == x.name@),
{
    lemma_display_order();
    stable_sort_is_a_sorted_rearrangement(s, display_order());
    stable_sort_keeps_equivalent_elements_in_order(s, display_order(), x);
    let same = |d: DisplayInfo| d.is_primary == x.is_primary && d.name@ == x.name@;
    let eq = |d: DisplayInfo| equivalent(display_order(), x, d);
    assert forall|d: DisplayInfo| #[trigger] eq(d) == same(d) by {
        lemma_text_equivalent(x.name@, d.name@);
    }
    assert(eq =~= same);
}

/// "Not before" is transitive for text.
proof fn lemma_text_weakly_ordered(a: Seq<char>, b: Seq<char>, c: Seq<char>)
    requires
        !text_before(a, b),
        !text_before(b, c),
    ensures
        !text_before(a, c),
{
    if a != b {
        lemma_text_before_total(a, b);
    }
    if b != c {
        lemma_text_before_total(b, c);
    }
    if a != b && b != c {
        lemma_text_before_transitive(c, b, a);
    }
    if text_before(a, c) {
        if a == c {
            lemma_text_before_irreflexive(a);
        } else if a == b {
        } else if b == c {
        } else {
            lemma_text_before_transitive(a, c, a);
            lemma_text_before_irreflexive(a);
        }
    }
}

/// Orders the windows by title, stably.
pub fn sort_windows_by_title(windows: &mut Vec<WindowInfo>)
    ensures
        final(windows)@ == windows_by_title(old(windows)@),
{
    let ghost s = windows@;
    let n = windows.len();
    let mut i: usize = 0;
    assert(s.take(0) =~= Seq::<WindowInfo>::empty());
    while i < n
        invariant
            windows@.len() == n == s.len(),
            i <= n,
            windows@.take(i as int) == windows_by_title(s.take(i as int)),
            windows@.skip(i as int) == s.skip(i as int),
        decreases n - i,
    {
        let ghost p = windows@.take(i as int);
        assert(windows@[i as int] == s[i as int]) by {
            assert(windows@.skip(i as int)[0] == s.skip(i as int)[0]);
        }
        let ghost before_remove = windows@;
        let x = windows.remove(i);
        let ghost rest = windows@.skip(i as int);
        assert forall|k: int| 0 <= k < rest.len() implies rest[k] == s.skip(i + 1)[k] by {
            assert(before_remove.skip(i as int)[k + 1] == s.skip(i as int)[k + 1]);
        }
        assert(rest =~= s.skip(i + 1));
        assert(windows@.take(i as int) =~= p);
        let mut j = i;
        assert(p.take(i as int) =~= p && p.skip(i as int) =~= Seq::<WindowInfo>::empty());
        while j > 0 && text_precedes(&x.title, &windows[j - 1].title)
            invariant
                0 <= j <= i,
                i < n,
                windows@.len() == n - 1,
                windows@.take(i as int) == p,
                windows@.skip(i as int) == rest,
                p.len() == i,
                insert_sorted(p, x, window_order()) == insert_sorted(p.take(j as int), x, window_order()) + p.skip(j as int),
            decreases j,
        {
            proof {
                let q = p.take(j as int);
                assert(q.drop_last() =~= p.take(j - 1));
                assert(q.last() == p[j - 1]);
                assert(windows@[j - 1] == p[j - 1]);
                assert(insert_sorted(q, x, window_order()) == insert_sorted(p.take(j - 1), x, window_order()).push(p[j - 1]));
                assert(p.skip(j - 1) =~= seq![p[j - 1]] + p.skip(j as int));
                assert(insert_sorted(p.take(j - 1), x, window_order()).push(p[j - 1]) + p.skip(j as int)
                    =~= insert_sorted(p.take(j - 1), x, window_order()) + p.skip(j - 1));
            }
            j = j - 1;
        }
        proof {
            let q = p.take(j as int);
            if j > 0 {
                assert(windows@[j - 1] == p[j - 1]);
                assert(q.last() == p[j - 1]);
            }
            assert(insert_sorted(q, x, window_order()) == q.push(x));
        }
        windows.insert(j, x);
        proof {
            assert(s.take(i + 1).drop_last() =~= s.take(i as int));
            assert(s.take(i + 1).last() == x);
            assert(windows@.take(i + 1) =~= p.take(j as int).push(x) + p.skip(j as int));
            assert(windows@.skip(i + 1) =~= rest);
        }
        i = i + 1;
    }
    assert(windows@ =~= windows@.take(n as int));
    assert(s =~= s.take(n as int));
}

fn display_precedes(a: &DisplayInfo, b: &DisplayInfo) -> (r: bool)
    ensures
        r == display_before(*a, *b),
{
    if a.is_primary && !b.is_primary {
        true
    } else if !a.is_primary && b.is_primary {
        false
    } else {
        text_precedes(&a.name, &b.name)
    }
}

/// Orders the displays: the primary one first, then by name, stably.
pub fn sort_displays(displays: &mut Vec<DisplayInfo>)
    ensures
        final(displays)@ == displays_in_order(old(displays)@),
{
    let ghost s = displays@;
    let n = displays.len();
    let mut i: usize = 0;
    assert(s.take(0) =~= Seq::<DisplayInfo>::empty());
    while i < n
        invariant
            displays@.len() == n == s.len(),
            i <= n,
            displays@.take(i as int) == displays_in_order(s.take(i as int)),
            displays@.skip(i as int) == s.skip(i as int),
        decreases n - i,
    {
        let ghost p = displays@.take(i as int);
        assert(displays@[i as int] == s[i as int]) by {
            assert(displays@.skip(i as int)[0] == s.skip(i as int)[0]);
        }
        let ghost before_remove = displays@;
        let x = displays.remove(i);
        let ghost rest = displays@.skip(i as int);
        assert forall|k: int| 0 <= k < rest.len() implies rest[k] == s.skip(i + 1)[k] by {
            assert(before_remove.skip(i as int)[k + 1] == s.skip(i as int)[k + 1]);
        }
        assert(rest =~= s.skip(i + 1));
        assert(displays@.take(i as int) =~= p);
        let mut j = i;
        assert(p.take(i as int) =~= p && p.skip(i as int) =~= Seq::<DisplayInfo>::empty());
        while j > 0 && display_precedes(&x, &displays[j - 1])
            invariant
                0 <= j <= i,
                i < n,
                displays@.len() == n - 1,
                displays@.take(i as int) == p,
                displays@.skip(i as int) == rest,
                p.len() == i,
                insert_sorted(p, x, display_order()) == insert_sorted(p.take(j as int), x, display_order()) + p.skip(j as int),
            decreases j,
        {
            proof {
                let q = p.take(j as int);
                assert(q.drop_last() =~= p.take(j - 1));
                assert(q.last() == p[j - 1]);
                assert(displays@[j - 1] == p[j - 1]);
                assert(insert_sorted(q, x, display_order()) == insert_sorted(p.take(j - 1), x, display_order()).push(p[j - 1]));
                assert(p.skip(j - 1) =~= seq![p[j - 1]] + p.skip(j as int));
                assert(insert_sorted(p.take(j - 1), x, display_order()).push(p[j - 1]) + p.skip(j as int)
                    =~= insert_sorted(p.take(j - 1), x, display_order()) + p.skip(j - 1));
            }
            j = j - 1;
        }
        proof {
            let q = p.take(j as int);
            if j > 0 {
                assert(displays@[j - 1] == p[j - 1]);
                assert(q.last() == p[j - 1]);
            }
            assert(insert_sorted(q, x, display_order()) == q.push(x));
        }
        displays.insert(j, x);
        proof {
            assert(s.take(i + 1).drop_last() =~= s.take(i as int));
            assert(s.take(i + 1).last() == x);
            assert(displays@.take(i + 1) =~= p.take(j as int).push(x) + p.skip(j as int));
            assert(displays@.skip(i + 1) =~= rest);
        }
        i = i + 1;
    }
    assert(displays@ =~= displays@.take(n as int));
    assert(s =~= s.take(n as int));
}

} // verus!
