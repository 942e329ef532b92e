//! The popup's style sheet, built from the theme colors.

use vstd::prelude::*;
use crate::config::Colors;
use crate::text::{contains_seq, occurs_at};

verus! {

/// The style sheet text before the text color.
pub const CSS_HEAD: &'static str = r#"
@define-color _fg "#;

/// The text between the text color and the background color.
pub const CSS_AFTER_FG: &'static str = r#";
@define-color _bg "#;

/// The text between the background color and the accent color.
pub const CSS_AFTER_BG: &'static str = r#";
@define-color _accent "#;

/// The style sheet text after the accent color's line: every rule of the
/// popup, written over the three named colors.
pub const CSS_RULES: &'static str = r#"
@define-color _surface alpha(@_fg, 0.08);
@define-color _surface_hover alpha(@_fg, 0.14);
@define-color _surface_disabled alpha(@_fg, 0.04);
@define-color _subtext alpha(@_fg, 0.55);

window {
    background-color: @_bg;
    padding: 16px;
}

.app-label {
    color: @_fg;
    font-size: 14px;
    font-weight: 500;
    margin-bottom: 4px;
}

.volume-label {
    color: @_subtext;
    font-size: 12px;
    margin-bottom: 8px;
}

.stream-icon {
    font-size: 15px;
    margin-right: 8px;
    color: @_fg;
}

.stream-app-label {
    color: @_fg;
    font-size: 14px;
    font-weight: 500;
}

.stream-volume-label {
    color: @_subtext;
    font-size: 12px;
    min-width: 36px;
}

scale {
    min-width: 200px;
    min-height: 6px;
    margin: 4px 0;
    margin-left: 0;
    padding-left: 0;
}

scale slider {
    background-color: @_accent;
    border-radius: 50%;
    min-width: 16px;
    min-height: 16px;
    border: none;
    box-shadow: none;
}

scale trough {
    background-color: @_surface;
    border-radius: 6px;
    min-height: 6px;
    border: none;
}

scale highlight {
    background-color: @_fg;
    border-radius: 6px;
}

scale:disabled slider {
    background-color: @_subtext;
}

scale:disabled trough {
    background-color: @_surface_disabled;
}

scale:disabled highlight {
    background-color: @_subtext;
}

.section-title {
    color: @_accent;
    font-size: 13px;
    font-weight: 600;
    margin-top: 12px;
    margin-bottom: 8px;
}

.device-item {
    color: @_subtext;
    padding: 8px 12px;
    margin: 2px;
    transition: background-color 0.2s ease;
}

.device-item:hover {
    background-color: @_surface_hover;
}

.device-item.default {
    background-color: @_surface;
    color: @_fg;
    
}

.device-item.default:hover {
    background-color: @_surface_hover;
}

.device-icon {
    font-size: 16px;
    margin-right: 8px;
}

.device-label {
    font-size: 13px;
    font-weight: 500;
}

separator {
    background-color: @_surface;
    min-height: 1px;
    margin: 12px 0;
}

.container-box {
    padding: 8px;
}

.backdrop-capture {
    background-color: rgba(0, 0, 0, 0.02);
    border-radius: 0;
    padding: 0;
}

"#;

/// The style sheet for colors `fg`, `bg` and `accent`.
pub open spec fn style_sheet(fg: Seq<char>, bg: Seq<char>, accent: Seq<char>) -> Seq<char> {
    CSS_HEAD@ + fg + CSS_AFTER_FG@ + bg + CSS_AFTER_BG@ + accent + ";"@ + CSS_RULES@
}

/// The style sheet of the popup for `colors`: the three colors are bound to
/// the names `_fg`, `_bg` and `_accent`, on which every rule is written.
pub fn build_css(colors: &Colors) -> (css: String)
    ensures
        css@ == style_sheet(colors.foreground@, colors.background@, colors.accent@),
{
    let mut css = String::from_str(CSS_HEAD);
    css.append(colors.foreground.as_str());
    css.append(CSS_AFTER_FG);
    css.append(colors.background.as_str());
    css.append(CSS_AFTER_BG);
    css.append(colors.accent.as_str());
    css.append(";");
    css.append(CSS_RULES);
    css
}

/// A run of characters placed between two others occurs in the whole at the
/// length of what precedes it.
proof fn lemma_occurs_between(pre: Seq<char>, mid: Seq<char>, post: Seq<char>)
    ensures
        occurs_at(pre + mid + post, mid, pre.len() as int),
{
    assert((pre + mid + post).subrange(pre.len() as int, (pre.len() + mid.len()) as int) =~= mid);
}

/// Whatever the three colors, the style sheet binds each of them to its own
/// name: it holds the lines `@define-color _fg <foreground>;`,
/// `@define-color _bg <background>;` and `@define-color _accent <accent>;`.
pub proof fn law_sheet_binds_each_color(fg: Seq<char>, bg: Seq<char>, accent: Seq<char>)
    ensures
        contains_seq(style_sheet(fg, bg, accent), "@define-color _fg "@ + fg + ";"@),
        contains_seq(style_sheet(fg, bg, accent), "@define-color _bg "@ + bg + ";"@),
        contains_seq(style_sheet(fg, bg, accent), "@define-color _accent "@ + accent + ";"@),
{
    reveal_strlit("\n@define-color _fg ");
    reveal_strlit(";\n@define-color _bg ");
    reveal_strlit(";\n@define-color _accent ");
    reveal_strlit("@define-color _fg ");
    reveal_strlit("@define-color _bg ");
    reveal_strlit("@define-color _accent ");
    reveal_strlit("\n");
    reveal_strlit(";");
    let sheet = style_sheet(fg, bg, accent);
    let rules = CSS_RULES@;
    assert(CSS_HEAD@ =~= "\n"@ + "@define-color _fg "@);
    assert(CSS_AFTER_FG@ =~= ";"@ + ("\n"@ + "@define-color _bg "@));
    assert(CSS_AFTER_BG@ =~= ";"@ + ("\n"@ + "@define-color _accent "@));
    let fg_line = "@define-color _fg "@ + fg + ";"@;
    let bg_line = "@define-color _bg "@ + bg + ";"@;
    let accent_line = "@define-color _accent "@ + accent + ";"@;
    let after_fg = "\n"@ + bg_line + "\n"@ + accent_line + rules;
    assert(sheet =~= "\n"@ + fg_line + after_fg);
    lemma_occurs_between("\n"@, fg_line, after_fg);
    let before_bg = "\n"@ + fg_line + "\n"@;
    let after_bg = "\n"@ + accent_line + rules;
    assert(sheet =~= before_bg + bg_line + after_bg);
    lemma_occurs_between(before_bg, bg_line, after_bg);
    let before_accent = "\n"@ + fg_line + "\n"@ + bg_line + "\n"@;
    assert(sheet =~= before_accent + accent_line + rules);
    lemma_occurs_between(before_accent, accent_line, rules);
}

} // verus!
