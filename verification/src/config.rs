//! Settings that survive a restart, stored as `key=value` lines.
//!
//! The format is a handful of integers and names. A malformed file is never an
//! error: a line that cannot be read changes nothing, an unknown name gives its
//! setting's default, and a number that cannot be read leaves its setting as it
//! was, so anything unreadable falls back to the default.

use vstd::prelude::*;

use crate::text::{
    chars_of, find_char, first_index_of, int_text, is_whitespace, lemma_first_index_of,
    lemma_int_text_ends, lemma_parse_i32_text, lemma_parse_usize_text, lemma_trim_empty,
    lemma_trim_unchanged, parse_i32, parse_i32_in, parse_usize, parse_usize_in, push_i32,
    push_str, push_u64, spells, trim, trim_bounds,
};
use crate::window_manager::{default_placement, Anchor, Placement, PlacementMode};

verus! {

#[derive(Debug, Clone, Copy, PartialEq, Eq, Structural)]
pub struct Config {
    pub placement: Placement,
    pub display_index: usize,
}

pub open spec fn default_config() -> Config {
    Config { placement: default_placement(), display_index: 0 }
}

impl Default for Config {
    fn default() -> (r: Self)
        ensures
            r == default_config(),
    {
        Config { placement: Placement::default(), display_index: 0 }
    }
}

// ---------------------------------------------------------------------------
// What a settings file means
// ---------------------------------------------------------------------------

/// A width or height only changes to a positive number.
pub open spec fn dimension_after(current: i32, value: Seq<char>) -> i32 {
    match parse_i32(value) {
        Some(v) => if v > 0 {
            v
        } else {
            current
        },
        None => current,
    }
}

/// An offset changes to any number, negative ones included (a region left of
/// or above the display's origin).
pub open spec fn offset_after(current: i32, value: Seq<char>) -> i32 {
    match parse_i32(value) {
        Some(v) => v,
        None => current,
    }
}

/// The mode a name stands for; an unknown name gives the default mode, a
/// region.
pub open spec fn mode_named(value: Seq<char>) -> PlacementMode {
    if value == "leave_in_place"@ {
        PlacementMode::LeaveInPlace
    } else if value == "full_display"@ {
        PlacementMode::FullDisplay
    } else if value == "region"@ {
        PlacementMode::Region
    } else {
        default_placement().mode
    }
}

/// The anchor a name stands for; an unknown name gives the default anchor,
/// centered.
pub open spec fn anchor_named(value: Seq<char>) -> Anchor {
    if value == "centered"@ {
        Anchor::Centered
    } else if value == "left"@ {
        Anchor::Left
    } else if value == "right"@ {
        Anchor::Right
    } else if value == "custom"@ {
        Anchor::Custom
    } else {
        default_placement().anchor
    }
}

/// `true` or `false`; any other text gives the default of staying on top.
pub open spec fn always_on_top_named(value: Seq<char>) -> bool {
    if value == "true"@ {
        true
    } else if value == "false"@ {
        false
    } else {
        default_placement().always_on_top
    }
}

/// The effect of the setting `key` with the text `value`; unknown keys change
/// nothing.
pub open spec fn apply_setting(c: Config, key: Seq<char>, value: Seq<char>) -> Config {
    let p = c.placement;
    if key == "mode"@ {
        Config { placement: Placement { mode: mode_named(value), ..p }, ..c }
    } else if key == "anchor"@ {
        Config { placement: Placement { anchor: anchor_named(value), ..p }, ..c }
    } else if key == "width"@ {
        Config { placement: Placement { width: dimension_after(p.width, value), ..p }, ..c }
    } else if key == "height"@ {
        Config { placement: Placement { height: dimension_after(p.height, value), ..p }, ..c }
    } else if key == "custom_x"@ {
        Config { placement: Placement { custom_x: offset_after(p.custom_x, value), ..p }, ..c }
    } else if key == "custom_y"@ {
        Config { placement: Placement { custom_y: offset_after(p.custom_y, value), ..p }, ..c }
    } else if key == "always_on_top"@ {
        Config { placement: Placement { always_on_top: always_on_top_named(value), ..p }, ..c }
    } else if key == "display_index"@ {
        match parse_usize(value) {
            Some(v) => Config { display_index: v, ..c },
            None => c,
        }
    } else {
        c
    }
}

/// The effect of one line: blank lines, `#` comments and lines without `=`
/// change nothing; otherwise the text before the first `=` names the setting
/// and the text after it is its value, both trimmed.
pub open spec fn apply_line(c: Config, line: Seq<char>) -> Config {
    let t = trim(line);
    if t.len() == 0 || t[0] == '#' {
        c
    } else {
        let e = first_index_of(t, '=');
        if e < t.len() {
            apply_setting(c, trim(t.take(e as int)), trim(t.skip(e + 1 as int)))
        } else {
            c
        }
    }
}

/// The effect of every line of `text`, in order, lines being separated by `\n`.
/// (A `\r` before the `\n` is trimmed away with the rest of the whitespace.)
pub open spec fn apply_text(c: Config, text: Seq<char>) -> Config
    decreases text.len(),
{
    let i = first_index_of(text, '\n');
    if i < text.len() {
        apply_text(apply_line(c, text.take(i as int)), text.skip(i + 1 as int))
    } else {
        apply_line(c, text)
    }
}

/// The settings that a file with the text `text` holds.
pub open spec fn config_from_text(text: Seq<char>) -> Config {
    apply_text(default_config(), text)
}

// ---------------------------------------------------------------------------
// What a settings file holds
// ---------------------------------------------------------------------------

pub open spec fn mode_name(m: PlacementMode) -> Seq<char> {
    match m {
        PlacementMode::LeaveInPlace => "leave_in_place"@,
        PlacementMode::FullDisplay => "full_display"@,
        PlacementMode::Region => "region"@,
    }
}

pub open spec fn anchor_name(a: Anchor) -> Seq<char> {
    match a {
        Anchor::Centered => "centered"@,
        Anchor::Left => "left"@,
        Anchor::Right => "right"@,
        Anchor::Custom => "custom"@,
    }
}

pub open spec fn bool_text(b: bool) -> Seq<char> {
    if b {
        "true"@
    } else {
        "false"@
    }
}

/// One `key=value` line, with its line break.
pub open spec fn entry(key: Seq<char>, value: Seq<char>) -> Seq<char> {
    key + "="@ + value + "\n"@
}

/// The text written for `c`: a comment line, then one line per setting.
pub open spec fn config_text(c: Config) -> Seq<char> {
    let p = c.placement;
    "# ultraborderless settings"@ + "\n"@ + (entry("mode"@, mode_name(p.mode)) + (entry(
        "width"@,
        int_text(p.width as int),
    ) + (entry("height"@, int_text(p.height as int)) + (entry("anchor"@, anchor_name(p.anchor))
        + (entry("custom_x"@, int_text(p.custom_x as int)) + (entry(
        "custom_y"@,
        int_text(p.custom_y as int),
    ) + (entry("always_on_top"@, bool_text(p.always_on_top)) + entry(
        "display_index"@,
        int_text(c.display_index as int),
    ))))))))
}

// ---------------------------------------------------------------------------
// Reading
// ---------------------------------------------------------------------------

/// Sets `target` to the number in `value` when it is a positive `i32`.
pub fn set_dimension(target: &mut i32, value: &str)
    ensures
        *final(target) == dimension_after(*old(target), value@),
{
    let chars = chars_of(value);
    match parse_i32_in(&chars, 0, chars.len()) {
        Some(v) => {
            if v > 0 {
                *target = v;
            }
        },
        None => {},
    }
    assert(chars@.subrange(0, chars@.len() as int) =~= value@);
}

/// Sets `target` to the number in `value` when it is an `i32`.
pub fn set_offset(target: &mut i32, value: &str)
    ensures
        *final(target) == offset_after(*old(target), value@),
{
    let chars = chars_of(value);
    match parse_i32_in(&chars, 0, chars.len()) {
        Some(v) => {
            *target = v;
        },
        None => {},
    }
    assert(chars@.subrange(0, chars@.len() as int) =~= value@);
}

fn dimension_in(current: i32, chars: &Vec<char>, lo: usize, hi: usize) -> (r: i32)
    requires
        lo <= hi <= chars@.len(),
    ensures
        r == dimension_after(current, chars@.subrange(lo as int, hi as int)),
{
    match parse_i32_in(chars, lo, hi) {
        Some(v) => if v > 0 {
            v
        } else {
            current
        },
        None => current,
    }
}

fn offset_in(current: i32, chars: &Vec<char>, lo: usize, hi: usize) -> (r: i32)
    requires
        lo <= hi <= chars@.len(),
    ensures
        r == offset_after(current, chars@.subrange(lo as int, hi as int)),
{
    match parse_i32_in(chars, lo, hi) {
        Some(v) => v,
        None => current,
    }
}

fn apply_setting_in(c: Config, chars: &Vec<char>, ka: usize, kb: usize, va: usize, vb: usize) -> (r:
    Config)
    requires
        ka <= kb <= chars@.len(),
        va <= vb <= chars@.len(),
    ensures
        r == apply_setting(
            c,
            chars@.subrange(ka as int, kb as int),
            chars@.subrange(va as int, vb as int),
        ),
{
    let mut p = c.placement;
    if spells(chars, ka, kb, "mode") {
        p.mode = if spells(chars, va, vb, "leave_in_place") {
            PlacementMode::LeaveInPlace
        } else if spells(chars, va, vb, "full_display") {
            PlacementMode::FullDisplay
        } else if spells(chars, va, vb, "region") {
            PlacementMode::Region
        } else {
            Placement::default().mode
        };
        Config { placement: p, ..c }
    } else if spells(chars, ka, kb, "anchor") {
        p.anchor = if spells(chars, va, vb, "centered") {
            Anchor::Centered
        } else if spells(chars, va, vb, "left") {
            Anchor::Left
        } else if spells(chars, va, vb, "right") {
            Anchor::Right
        } else if spells(chars, va, vb, "custom") {
            Anchor::Custom
        } else {
            Placement::default().anchor
        };
        Config { placement: p, ..c }
    } else if spells(chars, ka, kb, "width") {
        p.width = dimension_in(p.width, chars, va, vb);
        Config { placement: p, ..c }
    } else if spells(chars, ka, kb, "height") {
        p.height = dimension_in(p.height, chars, va, vb);
        Config { placement: p, ..c }
    } else if spells(chars, ka, kb, "custom_x") {
        p.custom_x = offset_in(p.custom_x, chars, va, vb);
        Config { placement: p, ..c }
    } else if spells(chars, ka, kb, "custom_y") {
        p.custom_y = offset_in(p.custom_y, chars, va, vb);
        Config { placement: p, ..c }
    } else if spells(chars, ka, kb, "always_on_top") {
        p.always_on_top = if spells(chars, va, vb, "true") {
            true
        } else if spells(chars, va, vb, "false") {
            false
        } else {
            Placement::default().always_on_top
        };
        Config { placement: p, ..c }
    } else if spells(chars, ka, kb, "display_index") {
        match parse_usize_in(chars, va, vb) {
            Some(v) => Config { display_index: v, ..c },
            None => c,
        }
    } else {
        c
    }
}

fn apply_line_in(c: Config, chars: &Vec<char>, lo: usize, hi: usize) -> (r: Config)
    requires
        lo <= hi <= chars@.len(),
    ensures
        r == apply_line(c, chars@.subrange(lo as int, hi as int)),
{
    let (a, b) = trim_bounds(chars, lo, hi);
    let ghost t = chars@.subrange(a as int, b as int);
    if a == b || chars[a] == '#' {
        return c;
    }
    let e = find_char(chars, a, b, '=');
    if e == b {
        return c;
    }
    assert(t.take(e - a) =~= chars@.subrange(a as int, e as int));
    assert(t.skip(e - a + 1) =~= chars@.subrange(e + 1, b as int));
    let (ka, kb) = trim_bounds(chars, a, e);
    let (va, vb) = trim_bounds(chars, e + 1, b);
    apply_setting_in(c, chars, ka, kb, va, vb)
}

impl Config {
    /// The settings that the text of a settings file holds. Lines and values
    /// that cannot be read are skipped, so this never fails.
    pub fn from_text(text: &str) -> (r: Config)
        ensures
            r == config_from_text(text@),
    {
        let chars = chars_of(text);
        let mut config = Config::default();
        let mut start: usize = 0;
        let mut i: usize = 0;
        assert(chars@.skip(0) =~= chars@);
        while i < chars.len()
            invariant
                start <= i <= chars@.len(),
                chars@ == text@,
                forall|j: int| start <= j < i ==> chars@[j] != '\n',
                config_from_text(text@) == apply_text(config, chars@.skip(start as int)),
            decreases chars@.len() - i,
        {
            if chars[i] == '\n' {
                proof {
                    let rest = chars@.skip(start as int);
                    assert forall|j: int| 0 <= j < i - start implies rest[j] != '\n' by {
                        assert(chars@[start + j] != '\n');
                    }
                    lemma_first_index_of(rest, '\n', i - start);
                    assert(rest.take(i - start) =~= chars@.subrange(start as int, i as int));
                    assert(rest.skip(i - start + 1) =~= chars@.skip(i + 1));
                }
                config = apply_line_in(config, &chars, start, i);
                start = i + 1;
            }
            i = i + 1;
        }
        proof {
            let rest = chars@.skip(start as int);
            assert forall|j: int| 0 <= j < rest.len() implies rest[j] != '\n' by {
                assert(chars@[start + j] != '\n');
            }
            lemma_first_index_of(rest, '\n', rest.len() as int);
            assert(rest =~= chars@.subrange(start as int, chars@.len() as int));
        }
        apply_line_in(config, &chars, start, chars.len())
    }

    /// The text of the settings file for these settings, one `key=value` line
    /// per setting.
    pub fn to_text(&self) -> (r: String)
        ensures
            r@ == config_text(*self),
    {
        let p = self.placement;
        let mut s = String::new();
        push_str(&mut s, "# ultraborderless settings");
        push_str(&mut s, "\n");
        match p.mode {
            PlacementMode::LeaveInPlace => push_entry(&mut s, "mode", "leave_in_place"),
            PlacementMode::FullDisplay => push_entry(&mut s, "mode", "full_display"),
            PlacementMode::Region => push_entry(&mut s, "mode", "region"),
        }
        push_i32_entry(&mut s, "width", p.width);
        push_i32_entry(&mut s, "height", p.height);
        match p.anchor {
            Anchor::Centered => push_entry(&mut s, "anchor", "centered"),
            Anchor::Left => push_entry(&mut s, "anchor", "left"),
            Anchor::Right => push_entry(&mut s, "anchor", "right"),
            Anchor::Custom => push_entry(&mut s, "anchor", "custom"),
        }
        push_i32_entry(&mut s, "custom_x", p.custom_x);
        push_i32_entry(&mut s, "custom_y", p.custom_y);
        if p.always_on_top {
            push_entry(&mut s, "always_on_top", "true");
        } else {
            push_entry(&mut s, "always_on_top", "false");
        }
        push_u64_entry(&mut s, "display_index", self.display_index as u64);
        proof {
            lemma_regroup(
                "# ultraborderless settings"@,
                "\n"@,
                entry("mode"@, mode_name(p.mode)),
                entry("width"@, int_text(p.width as int)),
                entry("height"@, int_text(p.height as int)),
                entry("anchor"@, anchor_name(p.anchor)),
                entry("custom_x"@, int_text(p.custom_x as int)),
                entry("custom_y"@, int_text(p.custom_y as int)),
                entry("always_on_top"@, bool_text(p.always_on_top)),
                entry("display_index"@, int_text(self.display_index as int)),
            );
        }
        s
    }
}

proof fn lemma_regroup(
    a: Seq<char>,
    b: Seq<char>,
    c: Seq<char>,
    d: Seq<char>,
    e: Seq<char>,
    f: Seq<char>,
    g: Seq<char>,
    h: Seq<char>,
    i: Seq<char>,
    j: Seq<char>,
)
    ensures
        a + b + c + d + e + f + g + h + i + j == a + b + (c + (d + (e + (f + (g + (h + (i
            + j))))))),
{
    assert(a + b + c + d + e + f + g + h + i + j =~= a + b + (c + (d + (e + (f + (g + (h + (i
        + j))))))));
}

/// Appends the line `key=value`.
fn push_entry(s: &mut String, key: &str, value: &str)
    ensures
        final(s)@ == old(s)@ + entry(key@, value@),
{
    let ghost start = s@;
    push_str(s, key);
    push_str(s, "=");
    push_str(s, value);
    push_str(s, "\n");
    assert(s@ =~= start + entry(key@, value@));
}

/// Appends the line `key=value` for a signed number.
fn push_i32_entry(s: &mut String, key: &str, value: i32)
    ensures
        final(s)@ == old(s)@ + entry(key@, int_text(value as int)),
{
    let ghost start = s@;
    push_str(s, key);
    push_str(s, "=");
    push_i32(s, value);
    push_str(s, "\n");
    assert(s@ =~= start + entry(key@, int_text(value as int)));
}

/// Appends the line `key=value` for an unsigned number.
fn push_u64_entry(s: &mut String, key: &str, value: u64)
    ensures
        final(s)@ == old(s)@ + entry(key@, int_text(value as int)),
{
    let ghost start = s@;
    push_str(s, key);
    push_str(s, "=");
    push_u64(s, value);
    push_str(s, "\n");
    assert(s@ =~= start + entry(key@, int_text(value as int)));
}

// ---------------------------------------------------------------------------
// Reading back what was written
// ---------------------------------------------------------------------------

/// No character of `s` is `c`.
pub open spec fn lacks(s: Seq<char>, c: char) -> bool {
    forall|j: int| 0 <= j < s.len() ==> s[j] != c
}

/// A line that ends in a line break is applied, then the rest is read.
proof fn lemma_apply_text_line(c: Config, line: Seq<char>, rest: Seq<char>)
    requires
        lacks(line, '\n'),
    ensures
        apply_text(c, line + "\n"@ + rest) == apply_text(apply_line(c, line), rest),
{
    reveal_strlit("\n");
    let s = line + "\n"@ + rest;
    lemma_first_index_of(s, '\n', line.len() as int);
    assert(s.take(line.len() as int) =~= line);
    assert(s.skip(line.len() + 1 as int) =~= rest);
}

/// A `key=value` line written by `to_text` reads back as the setting it holds.
proof fn lemma_entry(c: Config, key: Seq<char>, value: Seq<char>, rest: Seq<char>)
    requires
        key.len() > 0,
        value.len() > 0,
        !is_whitespace(key[0]),
        key[0] != '#',
        !is_whitespace(value.last()),
        !is_whitespace(key.last()),
        !is_whitespace(value[0]),
        lacks(key, '='),
        lacks(key, '\n'),
        lacks(value, '\n'),
    ensures
        apply_text(c, entry(key, value) + rest) == apply_text(apply_setting(c, key, value), rest),
{
    reveal_strlit("=");
    reveal_strlit("\n");
    let line = key + "="@ + value;
    assert(entry(key, value) + rest =~= line + "\n"@ + rest);
    assert(lacks(line, '\n')) by {
        assert forall|j: int| 0 <= j < line.len() implies line[j] != '\n' by {
            if j < key.len() {
                assert(line[j] == key[j]);
            } else if j > key.len() {
                assert(line[j] == value[j - key.len() - 1]);
            }
        }
    }
    lemma_apply_text_line(c, line, rest);
    lemma_trim_unchanged(line);
    lemma_first_index_of(line, '=', key.len() as int);
    assert(line.take(key.len() as int) =~= key);
    assert(line.skip(key.len() + 1 as int) =~= value);
    lemma_trim_unchanged(key);
    lemma_trim_unchanged(value);
}

/// The text of an integer can stand as the value of a line.
proof fn lemma_int_value(x: int)
    ensures
        int_text(x).len() > 0,
        !is_whitespace(int_text(x)[0]),
        !is_whitespace(int_text(x).last()),
        lacks(int_text(x), '\n'),
{
    lemma_int_text_ends(x);
}

/// The names of the settings are all different.
proof fn lemma_keys_differ()
    ensures
        "anchor"@ != "mode"@,
        "width"@ != "mode"@,
        "width"@ != "anchor"@,
        "height"@ != "mode"@,
        "height"@ != "anchor"@,
        "height"@ != "width"@,
        "custom_x"@ != "mode"@,
        "custom_x"@ != "anchor"@,
        "custom_x"@ != "width"@,
        "custom_x"@ != "height"@,
        "custom_y"@ != "mode"@,
        "custom_y"@ != "anchor"@,
        "custom_y"@ != "width"@,
        "custom_y"@ != "height"@,
        "custom_y"@ != "custom_x"@,
        "always_on_top"@ != "mode"@,
        "always_on_top"@ != "anchor"@,
        "always_on_top"@ != "width"@,
        "always_on_top"@ != "height"@,
        "always_on_top"@ != "custom_x"@,
        "always_on_top"@ != "custom_y"@,
        "display_index"@ != "mode"@,
        "display_index"@ != "anchor"@,
        "display_index"@ != "width"@,
        "display_index"@ != "height"@,
        "display_index"@ != "custom_x"@,
        "display_index"@ != "custom_y"@,
        "display_index"@ != "always_on_top"@,
{
    reveal_strlit("mode");
    reveal_strlit("anchor");
    reveal_strlit("width");
    reveal_strlit("height");
    reveal_strlit("custom_x");
    reveal_strlit("custom_y");
    reveal_strlit("always_on_top");
    reveal_strlit("display_index");
    assert("mode"@.len() == 4);
    assert("anchor"@.len() == 6);
    assert("width"@.len() == 5);
    assert("height"@.len() == 6);
    assert("custom_x"@.len() == 8);
    assert("custom_y"@.len() == 8);
    assert("always_on_top"@.len() == 13);
    assert("display_index"@.len() == 13);
    assert("height"@[0] != "anchor"@[0]);
    assert("custom_y"@[7] != "custom_x"@[7]);
    assert("display_index"@[0] != "always_on_top"@[0]);
}

/// A word made of lowercase letters and `_` can stand as the key or value of a
/// line.
proof fn lemma_word(w: Seq<char>)
    requires
        w.len() > 0,
        forall|j: int| 0 <= j < w.len() ==> ('a' <= #[trigger] w[j] <= 'z' || w[j] == '_'),
    ensures
        !is_whitespace(w[0]),
        !is_whitespace(w.last()),
        w[0] != '#',
        lacks(w, '='),
        lacks(w, '\n'),
{
    assert forall|j: int| 0 <= j < w.len() implies w[j] != '=' && w[j] != '\n' by {
        assert('a' <= w[j] <= 'z' || w[j] == '_');
    }
}

proof fn lemma_mode_line(c: Config, m: PlacementMode, rest: Seq<char>)
    ensures
        apply_text(c, entry("mode"@, mode_name(m)) + rest) == apply_text(
            Config { placement: Placement { mode: m, ..c.placement }, ..c },
            rest,
        ),
{
    reveal_strlit("mode");
    reveal_strlit("leave_in_place");
    reveal_strlit("full_display");
    reveal_strlit("region");
    lemma_word("mode"@);
    lemma_word(mode_name(m));
    lemma_entry(c, "mode"@, mode_name(m), rest);
}

proof fn lemma_anchor_line(c: Config, a: Anchor, rest: Seq<char>)
    ensures
        apply_text(c, entry("anchor"@, anchor_name(a)) + rest) == apply_text(
            Config { placement: Placement { anchor: a, ..c.placement }, ..c },
            rest,
        ),
{
    reveal_strlit("anchor");
    reveal_strlit("centered");
    reveal_strlit("left");
    reveal_strlit("right");
    reveal_strlit("custom");
    lemma_keys_differ();
    lemma_word("anchor"@);
    lemma_word(anchor_name(a));
    lemma_entry(c, "anchor"@, anchor_name(a), rest);
}

proof fn lemma_width_line(c: Config, w: i32, rest: Seq<char>)
    requires
        w > 0,
    ensures
        apply_text(c, entry("width"@, int_text(w as int)) + rest) == apply_text(
            Config { placement: Placement { width: w, ..c.placement }, ..c },
            rest,
        ),
{
    reveal_strlit("width");
    lemma_keys_differ();
    lemma_word("width"@);
    lemma_int_value(w as int);
    lemma_parse_i32_text(w);
    lemma_entry(c, "width"@, int_text(w as int), rest);
}

proof fn lemma_height_line(c: Config, h: i32, rest: Seq<char>)
    requires
        h > 0,
    ensures
        apply_text(c, entry("height"@, int_text(h as int)) + rest) == apply_text(
            Config { placement: Placement { height: h, ..c.placement }, ..c },
            rest,
        ),
{
    reveal_strlit("height");
    lemma_keys_differ();
    lemma_word("height"@);
    lemma_int_value(h as int);
    lemma_parse_i32_text(h);
    lemma_entry(c, "height"@, int_text(h as int), rest);
}

proof fn lemma_custom_x_line(c: Config, x: i32, rest: Seq<char>)
    ensures
        apply_text(c, entry("custom_x"@, int_text(x as int)) + rest) == apply_text(
            Config { placement: Placement { custom_x: x, ..c.placement }, ..c },
            rest,
        ),
{
    reveal_strlit("custom_x");
    lemma_keys_differ();
    lemma_word("custom_x"@);
    lemma_int_value(x as int);
    lemma_parse_i32_text(x);
    lemma_entry(c, "custom_x"@, int_text(x as int), rest);
}

proof fn lemma_custom_y_line(c: Config, y: i32, rest: Seq<char>)
    ensures
        apply_text(c, entry("custom_y"@, int_text(y as int)) + rest) == apply_text(
            Config { placement: Placement { custom_y: y, ..c.placement }, ..c },
            rest,
        ),
{
    reveal_strlit("custom_y");
    lemma_keys_differ();
    lemma_word("custom_y"@);
    lemma_int_value(y as int);
    lemma_parse_i32_text(y);
    lemma_entry(c, "custom_y"@, int_text(y as int), rest);
}

proof fn lemma_always_on_top_line(c: Config, b: bool, rest: Seq<char>)
    ensures
        apply_text(c, entry("always_on_top"@, bool_text(b)) + rest) == apply_text(
            Config { placement: Placement { always_on_top: b, ..c.placement }, ..c },
            rest,
        ),
{
    reveal_strlit("always_on_top");
    reveal_strlit("true");
    reveal_strlit("false");
    lemma_keys_differ();
    lemma_word("always_on_top"@);
    lemma_word(bool_text(b));
    lemma_entry(c, "always_on_top"@, bool_text(b), rest);
}

proof fn lemma_display_index_line(c: Config, i: usize, rest: Seq<char>)
    ensures
        apply_text(c, entry("display_index"@, int_text(i as int)) + rest) == apply_text(
            Config { display_index: i, ..c },
            rest,
        ),
{
    reveal_strlit("display_index");
    lemma_keys_differ();
    lemma_word("display_index"@);
    lemma_int_value(i as int);
    lemma_parse_usize_text(i);
    lemma_entry(c, "display_index"@, int_text(i as int), rest);
}

/// Settings survive a restart: reading back the text written for `c` gives `c`
/// again, as long as the region has a positive size (a width or height that is
/// not positive is never read back).
pub proof fn settings_read_back_as_written(c: Config)
    requires
        c.placement.width > 0,
        c.placement.height > 0,
    ensures
        config_from_text(config_text(c)) == c,
{
    let p = c.placement;
    let r8 = entry("display_index"@, int_text(c.display_index as int));
    let r7 = entry("always_on_top"@, bool_text(p.always_on_top)) + r8;
    let r6 = entry("custom_y"@, int_text(p.custom_y as int)) + r7;
    let r5 = entry("custom_x"@, int_text(p.custom_x as int)) + r6;
    let r4 = entry("anchor"@, anchor_name(p.anchor)) + r5;
    let r3 = entry("height"@, int_text(p.height as int)) + r4;
    let r2 = entry("width"@, int_text(p.width as int)) + r3;
    let r1 = entry("mode"@, mode_name(p.mode)) + r2;
    let header = "# ultraborderless settings"@;
    let c0 = default_config();
    assert(apply_text(c0, header + "\n"@ + r1) == apply_text(c0, r1)) by {
        reveal_strlit("# ultraborderless settings");
        assert(lacks(header, '\n'));
        lemma_apply_text_line(c0, header, r1);
        lemma_trim_unchanged(header);
    }
    let c1 = Config { placement: Placement { mode: p.mode, ..c0.placement }, ..c0 };
    lemma_mode_line(c0, p.mode, r2);
    assert(config_from_text(config_text(c)) == apply_text(c1, r2));
    let c2 = Config { placement: Placement { width: p.width, ..c1.placement }, ..c1 };
    lemma_width_line(c1, p.width, r3);
    let c3 = Config { placement: Placement { height: p.height, ..c2.placement }, ..c2 };
    lemma_height_line(c2, p.height, r4);
    let c4 = Config { placement: Placement { anchor: p.anchor, ..c3.placement }, ..c3 };
    lemma_anchor_line(c3, p.anchor, r5);
    assert(config_from_text(config_text(c)) == apply_text(c4, r5));
    let c5 = Config { placement: Placement { custom_x: p.custom_x, ..c4.placement }, ..c4 };
    lemma_custom_x_line(c4, p.custom_x, r6);
    let c6 = Config { placement: Placement { custom_y: p.custom_y, ..c5.placement }, ..c5 };
    lemma_custom_y_line(c5, p.custom_y, r7);
    let c7 = Config {
        placement: Placement { always_on_top: p.always_on_top, ..c6.placement },
        ..c6
    };
    lemma_always_on_top_line(c6, p.always_on_top, r8);
    let c8 = Config { display_index: c.display_index, ..c7 };
    assert(r8 + Seq::<char>::empty() =~= r8);
    lemma_display_index_line(c7, c.display_index, Seq::<char>::empty());
    lemma_trim_empty();
    assert(apply_text(c8, Seq::<char>::empty()) == c8);
    assert(c8 == c);
}

/// An empty (or missing) file gives the defaults: deleting the file resets
/// the settings.
pub proof fn an_empty_file_gives_the_defaults()
    ensures
        config_from_text(Seq::<char>::empty()) == default_config(),
{
    lemma_trim_empty();
}

/// A line that cannot be read (blank, a `#` comment, or without `=`) or that
/// names no known setting changes nothing, so anything unreadable falls back
/// to what was there before.
pub proof fn unreadable_lines_change_nothing(c: Config, line: Seq<char>)
    requires
        ({
            let t = trim(line);
            ||| t.len() == 0
            ||| t[0] == '#'
            ||| first_index_of(t, '=') == t.len()
            ||| {
                let key = trim(t.take(first_index_of(t, '=') as int));
                &&& key != "mode"@
                &&& key != "anchor"@
                &&& key != "width"@
                &&& key != "height"@
                &&& key != "custom_x"@
                &&& key != "custom_y"@
                &&& key != "always_on_top"@
                &&& key != "display_index"@
            }
        }),
    ensures
        apply_line(c, line) == c,
{
}

/// A value that cannot be read falls back: an unknown mode or anchor name, or
/// an `always_on_top` value other than `true` or `false`, gives that setting's
/// default; a number that does not parse (or, for a width or height, is not
/// positive) leaves its setting as it was.
pub proof fn unreadable_values_fall_back(c: Config, key: Seq<char>, value: Seq<char>)
    requires
        key == "mode"@ ==> value != "leave_in_place"@ && value != "full_display"@ && value
            != "region"@,
        key == "anchor"@ ==> value != "centered"@ && value != "left"@ && value != "right"@
            && value != "custom"@,
        key == "always_on_top"@ ==> value != "true"@ && value != "false"@,
        (key == "width"@ || key == "height"@) ==> match parse_i32(value) {
            Some(v) => v <= 0,
            None => true,
        },
        (key == "custom_x"@ || key == "custom_y"@) ==> parse_i32(value) is None,
        key == "display_index"@ ==> parse_usize(value) is None,
    ensures
        apply_setting(c, key, value) == if key == "mode"@ {
            Config { placement: Placement { mode: default_placement().mode, ..c.placement }, ..c }
        } else if key == "anchor"@ {
            Config {
                placement: Placement { anchor: default_placement().anchor, ..c.placement },
                ..c
            }
        } else if key == "always_on_top"@ {
            Config {
                placement: Placement {
                    always_on_top: default_placement().always_on_top,
                    ..c.placement
                },
                ..c
            }
        } else {
            c
        },
{
    lemma_keys_differ();
}

} // verus!
