//! The glyph shown beside an application's slider.

use vstd::prelude::*;
use crate::text::{contains_seq, contains_str};

verus! {

/// What `str::to_lowercase` returns for `s`: its Unicode lowercase mapping,
/// which depends on the characters of `s` alone (no locale), including the
/// context-dependent rule for a word-final capital sigma.
pub uninterp spec fn lowercase(s: Seq<char>) -> Seq<char>;

/// `str::to_lowercase`.
///
/// Trusted: the result is the Unicode lowercase mapping of `s`, which depends
/// on the characters of `s` alone; the mapping's tables are left unstated.
#[verifier::external_body]
fn to_lowercase(s: &str) -> (r: String)
    ensures
        r@ == lowercase(s@),
{
    s.to_lowercase()
}

/// The Nerd Font glyph for an application whose lowercased name is `lower`:
/// the first application family whose marker occurs in the name, or a note.
pub open spec fn icon_for(lower: Seq<char>) -> Seq<char> {
    if contains_seq(lower, "firefox"@) {
        "\u{f269}"@
    } else if contains_seq(lower, "chrome"@) || contains_seq(lower, "chromium"@) {
        "\u{f268}"@
    } else if contains_seq(lower, "spotify"@) {
        "\u{f1bc}"@
    } else if contains_seq(lower, "vlc"@) {
        "\u{f04b}"@
    } else if contains_seq(lower, "mpv"@) {
        "\u{f04b}"@
    } else if contains_seq(lower, "discord"@) {
        "\u{f392}"@
    } else if contains_seq(lower, "steam"@) {
        "\u{f1b6}"@
    } else if contains_seq(lower, "telegram"@) {
        "\u{f2c6}"@
    } else if contains_seq(lower, "zoom"@) {
        "\u{f0c0}"@
    } else if contains_seq(lower, "brave"@) {
        "\u{f268}"@
    } else if contains_seq(lower, "obs"@) {
        "\u{f03d}"@
    } else if contains_seq(lower, "pulse"@) || contains_seq(lower, "audio"@) {
        "\u{f028}"@
    } else {
        "\u{f001}"@
    }
}

/// The glyph for an application whose name, already lowercased, is `lower`.
pub fn icon_for_lowercase(lower: &str) -> (icon: &'static str)
    ensures
        icon@ == icon_for(lower@),
{
    if contains_str(lower, "firefox") {
        "\u{f269}"
    } else if contains_str(lower, "chrome") || contains_str(lower, "chromium") {
        "\u{f268}"
    } else if contains_str(lower, "spotify") {
        "\u{f1bc}"
    } else if contains_str(lower, "vlc") {
        "\u{f04b}"
    } else if contains_str(lower, "mpv") {
        "\u{f04b}"
    } else if contains_str(lower, "discord") {
        "\u{f392}"
    } else if contains_str(lower, "steam") {
        "\u{f1b6}"
    } else if contains_str(lower, "telegram") {
        "\u{f2c6}"
    } else if contains_str(lower, "zoom") {
        "\u{f0c0}"
    } else if contains_str(lower, "brave") {
        "\u{f268}"
    } else if contains_str(lower, "obs") {
        "\u{f03d}"
    } else if contains_str(lower, "pulse") || contains_str(lower, "audio") {
        "\u{f028}"
    } else {
        "\u{f001}"
    }
}

/// The glyph for the application named `app_name`, matched without regard
/// to case.
pub fn app_icon(app_name: &str) -> (icon: &'static str)
    ensures
        icon@ == icon_for(lowercase(app_name@)),
{
    let lower = to_lowercase(app_name);
    icon_for_lowercase(lower.as_str())
}

/// Each application family is recognised by its own marker words, tried in a
/// fixed order: a lowercased name gets a family's glyph when it contains one
/// of that family's markers and none of the earlier families' markers, and
/// the music note when it contains no marker at all.
pub proof fn law_icon_by_family(name: Seq<char>)
    ensures
        contains_seq(name, "firefox"@) ==> icon_for(name) == "\u{f269}"@,
        !contains_seq(name, "firefox"@) && (contains_seq(name, "chrome"@) || contains_seq(
            name,
            "chromium"@,
        )) ==> icon_for(name) == "\u{f268}"@,
        !contains_seq(name, "firefox"@) && !contains_seq(name, "chrome"@) && !contains_seq(
            name,
            "chromium"@,
        ) && contains_seq(name, "spotify"@) ==> icon_for(name) == "\u{f1bc}"@,
        !contains_seq(name, "firefox"@) && !contains_seq(name, "chrome"@) && !contains_seq(
            name,
            "chromium"@,
        ) && !contains_seq(name, "spotify"@) && (contains_seq(name, "vlc"@) || contains_seq(
            name,
            "mpv"@,
        )) ==> icon_for(name) == "\u{f04b}"@,
        !contains_seq(name, "firefox"@) && !contains_seq(name, "chrome"@) && !contains_seq(
            name,
            "chromium"@,
        ) && !contains_seq(name, "spotify"@) && !contains_seq(name, "vlc"@) && !contains_seq(
            name,
            "mpv"@,
        ) && contains_seq(name, "discord"@) ==> icon_for(name) == "\u{f392}"@,
        !contains_seq(name, "firefox"@) && !contains_seq(name, "chrome"@) && !contains_seq(
            name,
            "chromium"@,
        ) && !contains_seq(name, "spotify"@) && !contains_seq(name, "vlc"@) && !contains_seq(
            name,
            "mpv"@,
        ) && !contains_seq(name, "discord"@) && contains_seq(name, "steam"@) ==> icon_for(name)
            == "\u{f1b6}"@,
        !contains_seq(name, "firefox"@) && !contains_seq(name, "chrome"@) && !contains_seq(
            name,
            "chromium"@,
        ) && !contains_seq(name, "spotify"@) && !contains_seq(name, "vlc"@) && !contains_seq(
            name,
            "mpv"@,
        ) && !contains_seq(name, "discord"@) && !contains_seq(name, "steam"@) && contains_seq(
            name,
            "telegram"@,
        ) ==> icon_for(name) == "\u{f2c6}"@,
        !contains_seq(name, "firefox"@) && !contains_seq(name, "chrome"@) && !contains_seq(
            name,
            "chromium"@,
        ) && !contains_seq(name, "spotify"@) && !contains_seq(name, "vlc"@) && !contains_seq(
            name,
            "mpv"@,
        ) && !contains_seq(name, "discord"@) && !contains_seq(name, "steam"@) && !contains_seq(
            name,
            "telegram"@,
        ) && contains_seq(name, "zoom"@) ==> icon_for(name) == "\u{f0c0}"@,
        !contains_seq(name, "firefox"@) && !contains_seq(name, "chrome"@) && !contains_seq(
            name,
            "chromium"@,
        ) && !contains_seq(name, "spotify"@) && !contains_seq(name, "vlc"@) && !contains_seq(
            name,
            "mpv"@,
        ) && !contains_seq(name, "discord"@) && !contains_seq(name, "steam"@) && !contains_seq(
            name,
            "telegram"@,
        ) && !contains_seq(name, "zoom"@) && contains_seq(name, "brave"@) ==> icon_for(name)
            == "\u{f268}"@,
        !contains_seq(name, "firefox"@) && !contains_seq(name, "chrome"@) && !contains_seq(
            name,
            "chromium"@,
        ) && !contains_seq(name, "spotify"@) && !contains_seq(name, "vlc"@) && !contains_seq(
            name,
            "mpv"@,
        ) && !contains_seq(name, "discord"@) && !contains_seq(name, "steam"@) && !contains_seq(
            name,
            "telegram"@,
        ) && !contains_seq(name, "zoom"@) && !contains_seq(name, "brave"@) && contains_seq(
            name,
            "obs"@,
        ) ==> icon_for(name) == "\u{f03d}"@,
        !contains_seq(name, "firefox"@) && !contains_seq(name, "chrome"@) && !contains_seq(
            name,
            "chromium"@,
        ) && !contains_seq(name, "spotify"@) && !contains_seq(name, "vlc"@) && !contains_seq(
            name,
            "mpv"@,
        ) && !contains_seq(name, "discord"@) && !contains_seq(name, "steam"@) && !contains_seq(
            name,
            "telegram"@,
        ) && !contains_seq(name, "zoom"@) && !contains_seq(name, "brave"@) && !contains_seq(
            name,
            "obs"@,
        ) && (contains_seq(name, "pulse"@) || contains_seq(name, "audio"@)) ==> icon_for(name)
            == "\u{f028}"@,
        !contains_seq(name, "firefox"@) && !contains_seq(name, "chrome"@) && !contains_seq(
            name,
            "chromium"@,
        ) && !contains_seq(name, "spotify"@) && !contains_seq(name, "vlc"@) && !contains_seq(
            name,
            "mpv"@,
        ) && !contains_seq(name, "discord"@) && !contains_seq(name, "steam"@) && !contains_seq(
            name,
            "telegram"@,
        ) && !contains_seq(name, "zoom"@) && !contains_seq(name, "brave"@) && !contains_seq(
            name,
            "obs"@,
        ) && !contains_seq(name, "pulse"@) && !contains_seq(name, "audio"@) ==> icon_for(name)
            == "\u{f001}"@,
{
}

} // verus!
