//! The popup's settings: theme colors and window placement, each setting
//! taking its default when the configuration file leaves it out.

use vstd::prelude::*;

verus! {

/// The theme colors, as CSS color values.
pub struct Colors {
    /// Text color.
    pub foreground: String,
    /// Background color.
    pub background: String,
    /// Highlight color.
    pub accent: String,
}

/// Where the popup stands on screen.
pub struct Position {
    /// The corner: `top-left`, `top-right`, `bottom-left` or `bottom-right`.
    pub anchor: String,
    /// Distance from the top edge, in pixels.
    pub margin_top: i32,
    /// Distance from the right edge, in pixels.
    pub margin_right: i32,
    /// Distance from the bottom edge, in pixels.
    pub margin_bottom: i32,
    /// Distance from the left edge, in pixels.
    pub margin_left: i32,
}

/// The complete settings.
pub struct Config {
    /// Theme colors.
    pub colors: Colors,
    /// Window placement.
    pub position: Position,
}

/// The `[colors]` table of a configuration file; absent keys are `None`.
pub struct ColorsFile {
    /// `foreground`, when given.
    pub foreground: Option<String>,
    /// `background`, when given.
    pub background: Option<String>,
    /// `accent`, when given.
    pub accent: Option<String>,
}

/// The `[position]` table of a configuration file; absent keys are `None`.
pub struct PositionFile {
    /// `anchor`, when given.
    pub anchor: Option<String>,
    /// `margin_top`, when given.
    pub margin_top: Option<i32>,
    /// `margin_right`, when given.
    pub margin_right: Option<i32>,
    /// `margin_bottom`, when given.
    pub margin_bottom: Option<i32>,
    /// `margin_left`, when given.
    pub margin_left: Option<i32>,
}

/// A configuration file as read; absent tables are `None`.
pub struct ConfigFile {
    /// The `[colors]` table, when given.
    pub colors: Option<ColorsFile>,
    /// The `[position]` table, when given.
    pub position: Option<PositionFile>,
}

/// The default text color.
pub open spec fn default_fg_text() -> Seq<char> {
    "#cdd6f4"@
}

/// The default background color.
pub open spec fn default_bg_text() -> Seq<char> {
    "#1e1e2e"@
}

/// The default accent color.
pub open spec fn default_accent_text() -> Seq<char> {
    "#f5c2e7"@
}

/// The default corner.
pub open spec fn default_anchor_text() -> Seq<char> {
    "top-right"@
}

/// The default margin on every edge.
pub open spec fn default_margin_value() -> i32 {
    10
}

/// The default colors (Catppuccin Mocha).
pub open spec fn is_default_colors(c: Colors) -> bool {
    &&& c.foreground@ == default_fg_text()
    &&& c.background@ == default_bg_text()
    &&& c.accent@ == default_accent_text()
}

/// The default placement: top-right, 10 pixels from every edge.
pub open spec fn is_default_position(p: Position) -> bool {
    &&& p.anchor@ == default_anchor_text()
    &&& p.margin_top == default_margin_value()
    &&& p.margin_right == default_margin_value()
    &&& p.margin_bottom == default_margin_value()
    &&& p.margin_left == default_margin_value()
}

/// The default settings.
pub open spec fn is_default_config(c: Config) -> bool {
    is_default_colors(c.colors) && is_default_position(c.position)
}

/// A text setting: the file's value when given, else the default.
pub open spec fn text_or(v: Option<String>, default: Seq<char>) -> Seq<char> {
    match v {
        Some(s) => s@,
        None => default,
    }
}

/// A number setting: the file's value when given, else the default.
pub open spec fn number_or(v: Option<i32>, default: i32) -> i32 {
    match v {
        Some(x) => x,
        None => default,
    }
}

/// `c` holds the colors that table `f` sets, the defaults elsewhere.
pub open spec fn colors_from(f: ColorsFile, c: Colors) -> bool {
    &&& c.foreground@ == text_or(f.foreground, default_fg_text())
    &&& c.background@ == text_or(f.background, default_bg_text())
    &&& c.accent@ == text_or(f.accent, default_accent_text())
}

/// `p` holds the placement that table `f` sets, the defaults elsewhere.
pub open spec fn position_from(f: PositionFile, p: Position) -> bool {
    &&& p.anchor@ == text_or(f.anchor, default_anchor_text())
    &&& p.margin_top == number_or(f.margin_top, default_margin_value())
    &&& p.margin_right == number_or(f.margin_right, default_margin_value())
    &&& p.margin_bottom == number_or(f.margin_bottom, default_margin_value())
    &&& p.margin_left == number_or(f.margin_left, default_margin_value())
}

/// `c` holds what file `f` sets, with absent tables and keys at their defaults.
pub open spec fn config_from(f: ConfigFile, c: Config) -> bool {
    &&& match f.colors {
        Some(t) => colors_from(t, c.colors),
        None => is_default_colors(c.colors),
    }
    &&& match f.position {
        Some(t) => position_from(t, c.position),
        None => is_default_position(c.position),
    }
}

/// The default text color, `#cdd6f4`.
pub fn default_fg() -> (s: String)
    ensures
        s@ == default_fg_text(),
{
    String::from_str("#cdd6f4")
}

/// The default background color, `#1e1e2e`.
pub fn default_bg() -> (s: String)
    ensures
        s@ == default_bg_text(),
{
    String::from_str("#1e1e2e")
}

/// The default accent color, `#f5c2e7`.
pub fn default_accent() -> (s: String)
    ensures
        s@ == default_accent_text(),
{
    String::from_str("#f5c2e7")
}

/// The default corner, `top-right`.
pub fn default_anchor() -> (s: String)
    ensures
        s@ == default_anchor_text(),
{
    String::from_str("top-right")
}

/// The default margin, 10 pixels.
pub fn default_margin() -> (m: i32)
    ensures
        m == default_margin_value(),
{
    10
}

impl Default for Colors {
    fn default() -> (c: Self)
        ensures
            is_default_colors(c),
    {
        Colors { foreground: default_fg(), background: default_bg(), accent: default_accent() }
    }
}

impl Default for Position {
    fn default() -> (p: Self)
        ensures
            is_default_position(p),
    {
        Position {
            anchor: default_anchor(),
            margin_top: default_margin(),
            margin_right: default_margin(),
            margin_bottom: default_margin(),
            margin_left: default_margin(),
        }
    }
}

impl Default for Config {
    fn default() -> (c: Self)
        ensures
            is_default_config(c),
    {
        Config { colors: Colors::default(), position: Position::default() }
    }
}

/// A text setting with its default.
fn text_setting(v: Option<String>, default: String) -> (s: String)
    ensures
        s@ == text_or(v, default@),
{
    match v {
        Some(s) => s,
        None => default,
    }
}

/// A number setting with its default.
fn number_setting(v: Option<i32>, default: i32) -> (x: i32)
    ensures
        x == number_or(v, default),
{
    match v {
        Some(x) => x,
        None => default,
    }
}

impl Colors {
    /// The colors of a `[colors]` table, each absent key at its default.
    pub fn from_file(f: ColorsFile) -> (c: Colors)
        ensures
            colors_from(f, c),
            f.foreground matches Some(s) ==> c.foreground@ == s@,
            f.foreground is None ==> c.foreground@ == "#cdd6f4"@,
            f.background matches Some(s) ==> c.background@ == s@,
            f.background is None ==> c.background@ == "#1e1e2e"@,
            f.accent matches Some(s) ==> c.accent@ == s@,
            f.accent is None ==> c.accent@ == "#f5c2e7"@,
    {
        Colors {
            foreground: text_setting(f.foreground, default_fg()),
            background: text_setting(f.background, default_bg()),
            accent: text_setting(f.accent, default_accent()),
        }
    }
}

impl Position {
    /// The placement of a `[position]` table, each absent key at its default.
    pub fn from_file(f: PositionFile) -> (p: Position)
        ensures
            position_from(f, p),
            f.anchor matches Some(s) ==> p.anchor@ == s@,
            f.anchor is None ==> p.anchor@ == "top-right"@,
            f.margin_top matches Some(m) ==> p.margin_top == m,
            f.margin_top is None ==> p.margin_top == 10,
            f.margin_right matches Some(m) ==> p.margin_right == m,
            f.margin_right is None ==> p.margin_right == 10,
            f.margin_bottom matches Some(m) ==> p.margin_bottom == m,
            f.margin_bottom is None ==> p.margin_bottom == 10,
            f.margin_left matches Some(m) ==> p.margin_left == m,
            f.margin_left is None ==> p.margin_left == 10,
    {
        Position {
            anchor: text_setting(f.anchor, default_anchor()),
            margin_top: number_setting(f.margin_top, default_margin()),
            margin_right: number_setting(f.margin_right, default_margin()),
            margin_bottom: number_setting(f.margin_bottom, default_margin()),
            margin_left: number_setting(f.margin_left, default_margin()),
        }
    }
}

impl Config {
    /// The settings of a configuration file, each absent table or key at its
    /// default.
    pub fn from_file(f: ConfigFile) -> (c: Config)
        ensures
            config_from(f, c),
            f.position matches Some(t) ==> (t.anchor matches Some(s) ==> c.position.anchor@ == s@),
            f.position matches Some(t) ==> (t.anchor is None ==> c.position.anchor@ == "top-right"@),
            f.position matches Some(t) ==> (t.margin_top matches Some(m) ==> c.position.margin_top == m),
            f.position matches Some(t) ==> (t.margin_top is None ==> c.position.margin_top == 10),
            f.position matches Some(t) ==> (t.margin_right matches Some(m) ==> c.position.margin_right == m),
            f.position matches Some(t) ==> (t.margin_right is None ==> c.position.margin_right == 10),
            f.position matches Some(t) ==> (t.margin_bottom matches Some(m) ==> c.position.margin_bottom == m),
            f.position matches Some(t) ==> (t.margin_bottom is None ==> c.position.margin_bottom == 10),
            f.position matches Some(t) ==> (t.margin_left matches Some(m) ==> c.position.margin_left == m),
            f.position matches Some(t) ==> (t.margin_left is None ==> c.position.margin_left == 10),
            f.position is None ==> c.position.anchor@ == "top-right"@ && c.position.margin_top == 10
                && c.position.margin_right == 10 && c.position.margin_bottom == 10
                && c.position.margin_left == 10,
            f.colors matches Some(t) ==> (t.foreground matches Some(s) ==> c.colors.foreground@ == s@),
            f.colors matches Some(t) ==> (t.foreground is None ==> c.colors.foreground@ == "#cdd6f4"@),
            f.colors matches Some(t) ==> (t.background matches Some(s) ==> c.colors.background@ == s@),
            f.colors matches Some(t) ==> (t.background is None ==> c.colors.background@ == "#1e1e2e"@),
            f.colors matches Some(t) ==> (t.accent matches Some(s) ==> c.colors.accent@ == s@),
            f.colors matches Some(t) ==> (t.accent is None ==> c.colors.accent@ == "#f5c2e7"@),
            f.colors is None ==> c.colors.foreground@ == "#cdd6f4"@ && c.colors.background@
                == "#1e1e2e"@ && c.colors.accent@ == "#f5c2e7"@,
    {
        let colors = match f.colors {
            Some(t) => Colors::from_file(t),
            None => Colors::default(),
        };
        let position = match f.position {
            Some(t) => Position::from_file(t),
            None => Position::default(),
        };
        Config { colors, position }
    }
}

/// The settings in force: those of the configuration file when it could be
/// read and parsed, else the defaults.
pub fn settings_or_default(file: Option<ConfigFile>) -> (c: Config)
    ensures
        match file {
            Some(f) => config_from(f, c),
            None => is_default_config(c),
        },
{
    match file {
        Some(f) => Config::from_file(f),
        None => Config::default(),
    }
}

/// An empty configuration file gives the default settings, the same as no
/// file at all.
pub proof fn law_empty_file_is_default(c: Config)
    requires
        config_from(ConfigFile { colors: None, position: None }, c),
    ensures
        is_default_config(c),
{
}

/// A table that sets nothing gives the same as an absent table.
pub proof fn law_empty_tables_are_default(colors: Colors, position: Position)
    requires
        colors_from(ColorsFile { foreground: None, background: None, accent: None }, colors),
        position_from(
            PositionFile {
                anchor: None,
                margin_top: None,
                margin_right: None,
                margin_bottom: None,
                margin_left: None,
            },
            position,
        ),
    ensures
        is_default_colors(colors),
        is_default_position(position),
{
}

/// In a `[colors]` table a key that is given wins over its default, whatever
/// the other keys hold; only an absent key takes the default (`#cdd6f4`,
/// `#1e1e2e`, `#f5c2e7`).
pub proof fn law_given_colors_win(f: ColorsFile, c: Colors)
    requires
        colors_from(f, c),
    ensures
        f.foreground matches Some(s) ==> c.foreground@ == s@,
        f.foreground is None ==> c.foreground@ == "#cdd6f4"@,
        f.background matches Some(s) ==> c.background@ == s@,
        f.background is None ==> c.background@ == "#1e1e2e"@,
        f.accent matches Some(s) ==> c.accent@ == s@,
        f.accent is None ==> c.accent@ == "#f5c2e7"@,
{
}

/// In a `[position]` table each setting comes from the key of its own name,
/// whatever the other keys hold: the corner from `anchor` (else `top-right`),
/// each margin from its own `margin_*` key (else 10 pixels).
pub proof fn law_each_setting_from_its_own_key(f: PositionFile, p: Position)
    requires
        position_from(f, p),
    ensures
        f.anchor matches Some(s) ==> p.anchor@ == s@,
        f.anchor is None ==> p.anchor@ == "top-right"@,
        f.margin_top matches Some(m) ==> p.margin_top == m,
        f.margin_top is None ==> p.margin_top == 10,
        f.margin_right matches Some(m) ==> p.margin_right == m,
        f.margin_right is None ==> p.margin_right == 10,
        f.margin_bottom matches Some(m) ==> p.margin_bottom == m,
        f.margin_bottom is None ==> p.margin_bottom == 10,
        f.margin_left matches Some(m) ==> p.margin_left == m,
        f.margin_left is None ==> p.margin_left == 10,
{
}

/// The two tables of a configuration file are read independently: the
/// placement depends on the `[position]` table alone and the colors on the
/// `[colors]` table alone, so a file with only one table still has it obeyed,
/// and an absent table gives its defaults.
pub proof fn law_tables_are_independent(f: ConfigFile, c: Config)
    requires
        config_from(f, c),
    ensures
        f.position matches Some(t) ==> (t.anchor matches Some(s) ==> c.position.anchor@ == s@),
        f.position matches Some(t) ==> (t.anchor is None ==> c.position.anchor@ == "top-right"@),
        f.position matches Some(t) ==> (t.margin_top matches Some(m) ==> c.position.margin_top == m),
        f.position matches Some(t) ==> (t.margin_right matches Some(m) ==> c.position.margin_right == m),
        f.position matches Some(t) ==> (t.margin_bottom matches Some(m) ==> c.position.margin_bottom == m),
        f.position matches Some(t) ==> (t.margin_left matches Some(m) ==> c.position.margin_left == m),
        f.position matches Some(t) ==> (t.margin_top is None ==> c.position.margin_top == 10),
        f.position matches Some(t) ==> (t.margin_right is None ==> c.position.margin_right == 10),
        f.position matches Some(t) ==> (t.margin_bottom is None ==> c.position.margin_bottom == 10),
        f.position matches Some(t) ==> (t.margin_left is None ==> c.position.margin_left == 10),
        f.position is None ==> c.position.anchor@ == "top-right"@ && c.position.margin_top == 10
            && c.position.margin_right == 10 && c.position.margin_bottom == 10
            && c.position.margin_left == 10,
        f.colors matches Some(t) ==> (t.foreground matches Some(s) ==> c.colors.foreground@ == s@),
        f.colors matches Some(t) ==> (t.background matches Some(s) ==> c.colors.background@ == s@),
        f.colors matches Some(t) ==> (t.accent matches Some(s) ==> c.colors.accent@ == s@),
        f.colors matches Some(t) ==> (t.foreground is None ==> c.colors.foreground@ == "#cdd6f4"@),
        f.colors matches Some(t) ==> (t.background is None ==> c.colors.background@ == "#1e1e2e"@),
        f.colors matches Some(t) ==> (t.accent is None ==> c.colors.accent@ == "#f5c2e7"@),
        f.colors is None ==> c.colors.foreground@ == "#cdd6f4"@ && c.colors.background@
            == "#1e1e2e"@ && c.colors.accent@ == "#f5c2e7"@,
{
}

/// Two configuration files with the same `[position]` table give the same
/// placement, and two with the same `[colors]` table the same colors, whatever
/// the other table holds.
pub proof fn law_table_alone_decides(f1: ConfigFile, c1: Config, f2: ConfigFile, c2: Config)
    requires
        config_from(f1, c1),
        config_from(f2, c2),
    ensures
        f1.position == f2.position ==> c1.position.anchor@ == c2.position.anchor@
            && c1.position.margin_top == c2.position.margin_top && c1.position.margin_right
            == c2.position.margin_right && c1.position.margin_bottom == c2.position.margin_bottom
            && c1.position.margin_left == c2.position.margin_left,
        f1.colors == f2.colors ==> c1.colors.foreground@ == c2.colors.foreground@
            && c1.colors.background@ == c2.colors.background@ && c1.colors.accent@
            == c2.colors.accent@,
{
}

} // verus!
