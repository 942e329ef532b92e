use audio_control::config::Colors;
use audio_control::css::build_css;
use audio_control::icon::{app_icon, icon_for_lowercase};
use audio_control::layout::{
    device_css_classes, device_icon, device_placeholder_text, placeholder_css_class, stream_placeholder_text,
    volume_label,
};

fn expected_css(fg: &str, bg: &str, accent: &str) -> String {
    format!(
        r#"
@define-color _fg {fg};
@define-color _bg {bg};
@define-color _accent {accent};
@define-color _surface alpha(@_fg, 0.08);
@define-color _surface_hover alpha(@_fg, 0.14);
@define-color _surface_disabled alpha(@_fg, 0.04);
@define-color _subtext alpha(@_fg, 0.55);

window {{
    background-color: @_bg;
    padding: 16px;
}}

.app-label {{
    color: @_fg;
    font-size: 14px;
    font-weight: 500;
    margin-bottom: 4px;
}}

.volume-label {{
    color: @_subtext;
    font-size: 12px;
    margin-bottom: 8px;
}}

.stream-icon {{
    font-size: 15px;
    margin-right: 8px;
    color: @_fg;
}}

.stream-app-label {{
    color: @_fg;
    font-size: 14px;
    font-weight: 500;
}}

.stream-volume-label {{
    color: @_subtext;
    font-size: 12px;
    min-width: 36px;
}}

scale {{
    min-width: 200px;
    min-height: 6px;
    margin: 4px 0;
    margin-left: 0;
    padding-left: 0;
}}

scale slider {{
    background-color: @_accent;
    border-radius: 50%;
    min-width: 16px;
    min-height: 16px;
    border: none;
    box-shadow: none;
}}

scale trough {{
    background-color: @_surface;
    border-radius: 6px;
    min-height: 6px;
    border: none;
}}

scale highlight {{
    background-color: @_fg;
    border-radius: 6px;
}}

scale:disabled slider {{
    background-color: @_subtext;
}}

scale:disabled trough {{
    background-color: @_surface_disabled;
}}

scale:disabled highlight {{
    background-color: @_subtext;
}}

.section-title {{
    color: @_accent;
    font-size: 13px;
    font-weight: 600;
    margin-top: 12px;
    margin-bottom: 8px;
}}

.device-item {{
    color: @_subtext;
    padding: 8px 12px;
    margin: 2px;
    transition: background-color 0.2s ease;
}}

.device-item:hover {{
    background-color: @_surface_hover;
}}

.device-item.default {{
    background-color: @_surface;
    color: @_fg;
    
}}

.device-item.default:hover {{
    background-color: @_surface_hover;
}}

.device-icon {{
    font-size: 16px;
    margin-right: 8px;
}}

.device-label {{
    font-size: 13px;
    font-weight: 500;
}}

separator {{
    background-color: @_surface;
    min-height: 1px;
    margin: 12px 0;
}}

.container-box {{
    padding: 8px;
}}

.backdrop-capture {{
    background-color: rgba(0, 0, 0, 0.02);
    border-radius: 0;
    padding: 0;
}}

"#
    )
}

#[test]
fn style_sheet_binds_the_three_colors() {
    let colors = Colors {
        foreground: "#cdd6f4".to_string(),
        background: "#1e1e2e".to_string(),
        accent: "#f5c2e7".to_string(),
    };
    let css = build_css(&colors);
    assert_eq!(css, expected_css("#cdd6f4", "#1e1e2e", "#f5c2e7"));
    assert!(css.starts_with("\n@define-color _fg #cdd6f4;\n@define-color _bg #1e1e2e;\n@define-color _accent #f5c2e7;\n"));
    assert!(css.contains("window {\n    background-color: @_bg;"));
}

#[test]
fn style_sheet_with_custom_colors() {
    let colors = Colors { foreground: "white".to_string(), background: "rgb(0,0,0)".to_string(), accent: "".to_string() };
    assert_eq!(build_css(&colors), expected_css("white", "rgb(0,0,0)", ""));
}

#[test]
fn icons_by_application_family() {
    assert_eq!(app_icon("Firefox"), "\u{f269}");
    assert_eq!(app_icon("FIREFOX"), "\u{f269}");
    assert_eq!(app_icon("Google Chrome"), "\u{f268}");
    assert_eq!(app_icon("Chromium"), "\u{f268}");
    assert_eq!(app_icon("Spotify"), "\u{f1bc}");
    assert_eq!(app_icon("VLC media player"), "\u{f04b}");
    assert_eq!(app_icon("mpv"), "\u{f04b}");
    assert_eq!(app_icon("Discord"), "\u{f392}");
    assert_eq!(app_icon("Steam"), "\u{f1b6}");
    assert_eq!(app_icon("Telegram Desktop"), "\u{f2c6}");
    assert_eq!(app_icon("ZOOM Workplace"), "\u{f0c0}");
    assert_eq!(app_icon("Brave"), "\u{f268}");
    assert_eq!(app_icon("OBS Studio"), "\u{f03d}");
    assert_eq!(app_icon("PulseAudio Volume Control"), "\u{f028}");
    assert_eq!(app_icon("Audio Recorder"), "\u{f028}");
    assert_eq!(app_icon("Rhythmbox"), "\u{f001}");
    assert_eq!(app_icon(""), "\u{f001}");
}

#[test]
fn first_matching_family_wins() {
    assert_eq!(app_icon("firefox with chrome"), "\u{f269}");
    assert_eq!(app_icon("Steam Audio"), "\u{f1b6}");
    assert_eq!(app_icon("jobs"), "\u{f03d}");
}

#[test]
fn icon_lookup_on_lowercase_names() {
    assert_eq!(icon_for_lowercase("firefox"), "\u{f269}");
    assert_eq!(icon_for_lowercase("FIREFOX"), "\u{f001}");
    assert_eq!(icon_for_lowercase("pulse"), "\u{f028}");
}

#[test]
fn labels_and_device_glyphs() {
    assert_eq!(volume_label(0), "0%");
    assert_eq!(volume_label(75), "75%");
    assert_eq!(volume_label(150), "150%");
    assert_eq!(device_icon(true), "\u{f057f}");
    assert_eq!(device_icon(false), "\u{f130}");
    assert_eq!(device_placeholder_text(true), "No playback devices found");
    assert_eq!(device_placeholder_text(false), "No input devices found");
    assert_eq!(stream_placeholder_text(), "No applications playing audio");
    assert_eq!(placeholder_css_class(), "volume-label");
    assert_eq!(device_css_classes(true), vec!["device-item".to_string(), "default".to_string()]);
    assert_eq!(device_css_classes(false), vec!["device-item".to_string()]);
}
