# audio-control

A GTK4 layer-shell popup for waybar with per-application volume sliders and
playback / input device selection. The decisions the popup makes are a Verus
library in `src/`, proved against their specifications; `app/` holds the GTK
widgets, the pid-file IPC and the file I/O.

## Library modules (`src/`)

- `config` — theme colors and window placement, with defaults for every
  table and key a configuration file leaves out.
- `layout` — corner anchoring and margins, volume labels, device row glyphs
  and style classes, the configuration file's path.
- `css` — the style sheet built from the theme colors.
- `icon` — the glyph shown beside an application's slider.
- `streams` — grouping of playback streams into one slider per application.
- `widgets` — the model of a named widget list and the generic refresh steps.
- `stream_rows`, `device_rows` — refresh plans for the application rows and the
  device rows, a model of carrying a plan out on the widgets, and the laws:
  each application / device ends with exactly one row; lists built by
  refreshes stay free of repeated names, with the placeholder alone exactly
  when the list is empty of streams / devices; a row that stays is refreshed
  in place (a slider takes its group's streams, a device row its default
  mark); and a second refresh with the same state changes nothing (for the
  device list with no device, on lists that refreshes built).
- `decimal`, `text`, `pid` — decimal text of integers, string helpers, and the
  reading of the pid file.

## Application (`app/`)

`main.rs` (pid file, SIGUSR1 toggle, windows), `ui.rs` (GTK widgets carrying
out the library's refresh plans), `settings.rs` (reading and parsing the TOML
configuration file). `main.rs` expects the PulseAudio client as a module
`audio` (`app/audio.rs`), which this tree does not include.
