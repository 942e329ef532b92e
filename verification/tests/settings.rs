use audio_control::config::{
    default_accent, default_anchor, default_bg, default_fg, default_margin, settings_or_default,
    Colors, ColorsFile, Config, ConfigFile, Position, PositionFile,
};
use audio_control::layout::{anchor_edges, config_path, placement, Anchors};

#[test]
fn defaults_are_catppuccin_top_right() {
    assert_eq!(default_fg(), "#cdd6f4");
    assert_eq!(default_bg(), "#1e1e2e");
    assert_eq!(default_accent(), "#f5c2e7");
    assert_eq!(default_anchor(), "top-right");
    assert_eq!(default_margin(), 10);
    let c = Config::default();
    assert_eq!(c.colors.foreground, "#cdd6f4");
    assert_eq!(c.colors.background, "#1e1e2e");
    assert_eq!(c.colors.accent, "#f5c2e7");
    assert_eq!(c.position.anchor, "top-right");
    assert_eq!(
        (c.position.margin_top, c.position.margin_right, c.position.margin_bottom, c.position.margin_left),
        (10, 10, 10, 10)
    );
}

#[test]
fn missing_keys_take_defaults() {
    let file = ConfigFile {
        colors: Some(ColorsFile { foreground: None, background: Some("#000000".to_string()), accent: None }),
        position: Some(PositionFile {
            anchor: Some("bottom-left".to_string()),
            margin_top: None,
            margin_right: Some(0),
            margin_bottom: Some(-4),
            margin_left: None,
        }),
    };
    let c = Config::from_file(file);
    assert_eq!(c.colors.foreground, "#cdd6f4");
    assert_eq!(c.colors.background, "#000000");
    assert_eq!(c.colors.accent, "#f5c2e7");
    assert_eq!(c.position.anchor, "bottom-left");
    assert_eq!(c.position.margin_top, 10);
    assert_eq!(c.position.margin_right, 0);
    assert_eq!(c.position.margin_bottom, -4);
    assert_eq!(c.position.margin_left, 10);
}

#[test]
fn missing_tables_take_defaults() {
    let c = Config::from_file(ConfigFile { colors: None, position: None });
    let d = Config::default();
    assert_eq!(c.colors.foreground, d.colors.foreground);
    assert_eq!(c.colors.accent, d.colors.accent);
    assert_eq!(c.position.anchor, d.position.anchor);
    let only_colors = Config::from_file(ConfigFile {
        colors: Some(ColorsFile { foreground: Some("red".to_string()), background: None, accent: None }),
        position: None,
    });
    assert_eq!(only_colors.colors.foreground, "red");
    assert_eq!(only_colors.position.anchor, "top-right");
    assert_eq!(only_colors.position.margin_left, 10);
}

#[test]
fn empty_tables_equal_defaults() {
    let c = Colors::from_file(ColorsFile { foreground: None, background: None, accent: None });
    assert_eq!(c.foreground, Colors::default().foreground);
    let p = Position::from_file(PositionFile {
        anchor: None,
        margin_top: None,
        margin_right: None,
        margin_bottom: None,
        margin_left: None,
    });
    assert_eq!(p.anchor, Position::default().anchor);
    assert_eq!(p.margin_bottom, 10);
}

#[test]
fn unreadable_file_gives_defaults() {
    let c = settings_or_default(None);
    assert_eq!(c.colors.background, "#1e1e2e");
    assert_eq!(c.position.margin_top, 10);
    let c = settings_or_default(Some(ConfigFile { colors: None, position: None }));
    assert_eq!(c.position.anchor, "top-right");
}

#[test]
fn corners() {
    assert_eq!(anchor_edges("top-left"), Anchors { top: true, right: false, bottom: false, left: true });
    assert_eq!(anchor_edges("top-right"), Anchors { top: true, right: true, bottom: false, left: false });
    assert_eq!(anchor_edges("bottom-right"), Anchors { top: false, right: true, bottom: true, left: false });
    assert_eq!(anchor_edges("bottom-left"), Anchors { top: false, right: false, bottom: true, left: true });
    assert_eq!(anchor_edges("middle"), anchor_edges("top-right"));
    assert_eq!(anchor_edges("Top-Left"), anchor_edges("top-right"));
    assert_eq!(anchor_edges(""), anchor_edges("top-right"));
}

#[test]
fn every_anchor_is_a_corner() {
    for name in ["top-left", "top-right", "bottom-left", "bottom-right", "", "left", "bottom"] {
        let a = anchor_edges(name);
        assert!(a.top != a.bottom);
        assert!(a.left != a.right);
    }
}

#[test]
fn placement_keeps_margins() {
    let pos = Position {
        anchor: "bottom-right".to_string(),
        margin_top: 1,
        margin_right: 2,
        margin_bottom: 3,
        margin_left: 4,
    };
    let p = placement(&pos);
    assert_eq!(p.anchors, Anchors { top: false, right: true, bottom: true, left: false });
    assert_eq!((p.margin_top, p.margin_right, p.margin_bottom, p.margin_left), (1, 2, 3, 4));
}

#[test]
fn config_path_joins_like_pathbuf() {
    assert_eq!(config_path("/home/ana"), "/home/ana/.config/waybar-audio-control/config.toml");
    assert_eq!(config_path("/home/ana/"), "/home/ana/.config/waybar-audio-control/config.toml");
    assert_eq!(config_path("/"), "/.config/waybar-audio-control/config.toml");
    assert_eq!(config_path(""), ".config/waybar-audio-control/config.toml");
    for home in ["/home/ana", "/root/", "", "/"] {
        let expected = std::path::PathBuf::from(home)
            .join(".config")
            .join("waybar-audio-control")
            .join("config.toml");
        assert_eq!(config_path(home), expected.to_str().unwrap());
    }
}
