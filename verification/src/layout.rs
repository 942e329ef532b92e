//! Window placement and the small texts of the popup's rows.

use vstd::prelude::*;
use crate::config::Position;
use crate::decimal::{decimal, u32_to_decimal};

verus! {

/// Which screen edges the popup is anchored to.
#[derive(Debug, Clone, Copy, PartialEq, Eq)]
pub struct Anchors {
    pub top: bool,
    pub right: bool,
    pub bottom: bool,
    pub left: bool,
}

/// The edges for corner name `anchor`; any name other than `top-left`,
/// `bottom-right` and `bottom-left` means the top-right corner.
pub open spec fn anchors_for(anchor: Seq<char>) -> Anchors {
    if anchor == "top-left"@ {
        Anchors { top: true, right: false, bottom: false, left: true }
    } else if anchor == "bottom-right"@ {
        Anchors { top: false, right: true, bottom: true, left: false }
    } else if anchor == "bottom-left"@ {
        Anchors { top: false, right: false, bottom: true, left: true }
    } else {
        Anchors { top: true, right: true, bottom: false, left: false }
    }
}

/// The edges for corner name `anchor`. Whatever the name, the popup sits in
/// a corner: anchored to exactly one of top and bottom and exactly one of
/// left and right.
pub fn anchor_edges(anchor: &str) -> (a: Anchors)
    ensures
        a == anchors_for(anchor@),
        a.top != a.bottom,
        a.left != a.right,
        anchor@ == "top-left"@ ==> a.top && a.left,
        anchor@ == "bottom-right"@ ==> a.bottom && a.right,
        anchor@ == "bottom-left"@ ==> a.bottom && a.left,
        anchor@ != "top-left"@ && anchor@ != "bottom-right"@ && anchor@ != "bottom-left"@
            ==> a.top && a.right,
{
    proof {
        reveal_strlit("top-left");
        reveal_strlit("bottom-right");
        reveal_strlit("bottom-left");
        assert("top-left"@[0] != "bottom-right"@[0]);
        assert("top-left"@[0] != "bottom-left"@[0]);
        assert("bottom-right"@.len() != "bottom-left"@.len());
    }
    if crate::text::str_eq(anchor, "top-left") {
        Anchors { top: true, right: false, bottom: false, left: true }
    } else if crate::text::str_eq(anchor, "bottom-right") {
        Anchors { top: false, right: true, bottom: true, left: false }
    } else if crate::text::str_eq(anchor, "bottom-left") {
        Anchors { top: false, right: false, bottom: true, left: true }
    } else {
        Anchors { top: true, right: true, bottom: false, left: false }
    }
}

/// The popup's layer-shell placement: anchored edges and edge margins.
#[derive(Debug, Clone, Copy, PartialEq, Eq)]
pub struct Placement {
    pub anchors: Anchors,
    pub margin_top: i32,
    pub margin_right: i32,
    pub margin_bottom: i32,
    pub margin_left: i32,
}

/// The placement that `pos` asks for: the corner's edges, and the four
/// margins as given (a margin on an unanchored edge has no effect).
pub fn placement(pos: &Position) -> (p: Placement)
    ensures
        p.anchors == anchors_for(pos.anchor@),
        p.margin_top == pos.margin_top,
        p.margin_right == pos.margin_right,
        p.margin_bottom == pos.margin_bottom,
        p.margin_left == pos.margin_left,
{
    Placement {
        anchors: anchor_edges(pos.anchor.as_str()),
        margin_top: pos.margin_top,
        margin_right: pos.margin_right,
        margin_bottom: pos.margin_bottom,
        margin_left: pos.margin_left,
    }
}

/// The text of a volume label: the percentage followed by `%`.
pub open spec fn volume_text(v: u32) -> Seq<char> {
    decimal(v as nat).push('%')
}

/// The label of volume `v`, such as `75%`.
pub fn volume_label(v: u32) -> (s: String)
    ensures
        s@ == volume_text(v),
{
    let mut s = u32_to_decimal(v);
    crate::text::push_char(&mut s, '%');
    s
}

/// The glyph of a device row: a speaker for playback, a microphone for input.
pub fn device_icon(is_sink: bool) -> (icon: &'static str)
    ensures
        icon@ == if is_sink { "\u{f057f}"@ } else { "\u{f130}"@ },
{
    if is_sink {
        "\u{f057f}"
    } else {
        "\u{f130}"
    }
}

/// The text shown when a device list is empty.
pub fn device_placeholder_text(is_sink: bool) -> (text: &'static str)
    ensures
        text@ == if is_sink { "No playback devices found"@ } else { "No input devices found"@ },
{
    if is_sink {
        "No playback devices found"
    } else {
        "No input devices found"
    }
}

/// The text shown when no application plays audio.
pub fn stream_placeholder_text() -> (text: &'static str)
    ensures
        text@ == "No applications playing audio"@,
{
    "No applications playing audio"
}

/// The style class of a placeholder label, in either list.
pub fn placeholder_css_class() -> (class: &'static str)
    ensures
        class@ == "volume-label"@,
{
    "volume-label"
}

/// The style classes of a new device row: `device-item`, and `default` when
/// it is the default device.
pub fn device_css_classes(is_default: bool) -> (classes: Vec<String>)
    ensures
        classes@.len() == if is_default { 2int } else { 1int },
        classes@[0]@ == "device-item"@,
        is_default ==> classes@[1]@ == "default"@,
{
    let mut classes: Vec<String> = Vec::new();
    classes.push(String::from_str("device-item"));
    if is_default {
        classes.push(String::from_str("default"));
    }
    classes
}

/// The tail of the configuration file's path below the home directory.
pub open spec fn config_tail() -> Seq<char> {
    ".config/waybar-audio-control/config.toml"@
}

/// The configuration file's path for home directory `home`, as `PathBuf::join`
/// forms it: the tail alone when `home` is empty, else `home`, a `/` unless
/// `home` already ends with one, and the tail.
pub open spec fn config_path_text(home: Seq<char>) -> Seq<char> {
    if home.len() == 0 {
        config_tail()
    } else if home.last() == '/' {
        home + config_tail()
    } else {
        home.push('/') + config_tail()
    }
}

/// The path of the configuration file below home directory `home`.
pub fn config_path(home: &str) -> (path: String)
    ensures
        path@ == config_path_text(home@),
{
    let v = crate::text::chars_of(home);
    if v.len() == 0 {
        return String::from_str(".config/waybar-audio-control/config.toml");
    }
    let mut path = String::from_str(home);
    if v[v.len() - 1] != '/' {
        crate::text::push_char(&mut path, '/');
    }
    path.append(".config/waybar-audio-control/config.toml");
    path
}

} // verus!
