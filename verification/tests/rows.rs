use audio_control::device_rows::{device_row_widget_name, plan_device_refresh, AudioDevice, DeviceRefresh};
use audio_control::stream_rows::{placeholder_widget_name, plan_stream_refresh, stream_row_widget_name, StreamRefresh};
use audio_control::streams::{group_streams, stream_group_key, AppGroup, AudioStream};
use audio_control::widgets::RowStep;

fn stream(index: u32, app: &str, volume: u32) -> AudioStream {
    AudioStream { index, app_name: app.to_string(), volume }
}

fn device(index: u32, is_default: bool) -> AudioDevice {
    AudioDevice {
        index,
        name: format!("dev{}", index),
        description: format!("Device {}", index),
        is_default,
    }
}

fn names(v: &[&str]) -> Vec<String> {
    v.iter().map(|s| s.to_string()).collect()
}

/// Carries out a stream refresh on a list of widget names.
fn apply_streams(children: &[String], groups: &[AppGroup], r: &StreamRefresh) -> Vec<String> {
    let mut rest: Vec<String> = children
        .iter()
        .enumerate()
        .filter(|(i, _)| !r.remove.contains(i))
        .map(|(_, n)| n.clone())
        .collect();
    if r.reset_to_placeholder {
        rest.clear();
        rest.push("placeholder".to_string());
    }
    if r.drop_leading_placeholder {
        rest.remove(0);
    }
    for (g, step) in groups.iter().zip(r.rows.iter()) {
        match step {
            RowStep::Update(p) => assert_eq!(rest[*p], stream_row_widget_name(&g.key)),
            RowStep::Create => rest.push(stream_row_widget_name(&g.key)),
        }
    }
    rest
}

/// Carries out a device refresh on a list of widget names.
fn apply_devices(children: &[String], devices: &[AudioDevice], r: &DeviceRefresh) -> Vec<String> {
    let mut rest: Vec<String> = children
        .iter()
        .enumerate()
        .filter(|(i, _)| !r.remove.contains(i))
        .map(|(_, n)| n.clone())
        .collect();
    if r.add_placeholder {
        rest.push("placeholder".to_string());
    }
    for (d, step) in devices.iter().zip(r.rows.iter()) {
        match step {
            RowStep::Update(p) => assert_eq!(rest[*p], device_row_widget_name(d.index)),
            RowStep::Create => rest.push(device_row_widget_name(d.index)),
        }
    }
    rest
}

#[test]
fn group_keys() {
    assert_eq!(stream_group_key(&stream(5, "Firefox", 0)), "Firefox");
    assert_eq!(stream_group_key(&stream(5, "Unknown", 0)), "Unknown\u{1f}5");
    assert_eq!(stream_group_key(&stream(12, "unknown", 0)), "unknown");
}

#[test]
fn streams_group_by_application_in_key_order() {
    let streams = vec![
        stream(3, "Firefox", 50),
        stream(7, "Unknown", 20),
        stream(9, "Firefox", 75),
        stream(8, "Unknown", 40),
        stream(1, "Alpha", 100),
        stream(2, "alpha", 30),
    ];
    let groups = group_streams(&streams);
    let keys: Vec<&str> = groups.iter().map(|g| g.key.as_str()).collect();
    assert_eq!(keys, vec!["Alpha", "Firefox", "Unknown\u{1f}7", "Unknown\u{1f}8", "alpha"]);
    assert_eq!(groups[1].indices, vec![3, 9]);
    assert_eq!(groups[1].avg_volume, 62);
    assert_eq!(groups[1].display_name, "Firefox");
    assert_eq!(groups[2].indices, vec![7]);
    assert_eq!(groups[2].display_name, "Unknown");
    assert_eq!(groups[2].avg_volume, 20);
    assert_eq!(groups[0].avg_volume, 100);
}

#[test]
fn unnamed_streams_stay_apart() {
    let streams = vec![stream(4, "Unknown", 10), stream(40, "Unknown", 90)];
    let groups = group_streams(&streams);
    assert_eq!(groups.len(), 2);
    assert_eq!(groups[0].key, "Unknown\u{1f}4");
    assert_eq!(groups[1].key, "Unknown\u{1f}40");
}

#[test]
fn no_streams_no_groups() {
    assert!(group_streams(&vec![]).is_empty());
}

#[test]
fn average_is_rounded_down_and_does_not_overflow() {
    let streams = vec![stream(1, "A", u32::MAX), stream(2, "A", u32::MAX), stream(3, "A", 1)];
    let groups = group_streams(&streams);
    let expected = ((u32::MAX as u64 * 2 + 1) / 3) as u32;
    assert_eq!(groups[0].avg_volume, expected);
    let streams = vec![stream(1, "B", 1), stream(2, "B", 2)];
    assert_eq!(group_streams(&streams)[0].avg_volume, 1);
}

#[test]
fn stale_rows_go_and_groups_update_or_append() {
    let children = names(&["stream-app-Old", "stream-app-Firefox", "placeholder"]);
    let groups = group_streams(&vec![stream(1, "Firefox", 10), stream(2, "Alpha", 20)]);
    let r = plan_stream_refresh(&children, &groups);
    assert_eq!(r.remove, vec![0]);
    assert!(!r.reset_to_placeholder);
    assert!(!r.drop_leading_placeholder);
    assert_eq!(r.rows, vec![RowStep::Create, RowStep::Update(0)]);
    let after = apply_streams(&children, &groups, &r);
    assert_eq!(after, names(&["stream-app-Firefox", "placeholder", "stream-app-Alpha"]));
}

#[test]
fn leading_placeholder_is_dropped_when_audio_plays() {
    let children = names(&["placeholder"]);
    let groups = group_streams(&vec![stream(1, "mpv", 10)]);
    let r = plan_stream_refresh(&children, &groups);
    assert!(r.remove.is_empty());
    assert!(r.drop_leading_placeholder);
    assert_eq!(r.rows, vec![RowStep::Create]);
    assert_eq!(apply_streams(&children, &groups, &r), names(&["stream-app-mpv"]));
}

#[test]
fn silence_shows_the_placeholder() {
    let children = names(&["stream-app-Firefox", "label"]);
    let r = plan_stream_refresh(&children, &vec![]);
    assert_eq!(r.remove, vec![0]);
    assert!(r.reset_to_placeholder);
    assert!(r.rows.is_empty());
    assert_eq!(apply_streams(&children, &[], &r), names(&["placeholder"]));

    let children = names(&["label", "placeholder"]);
    let r = plan_stream_refresh(&children, &vec![]);
    assert!(r.remove.is_empty());
    assert!(!r.reset_to_placeholder);
    assert_eq!(apply_streams(&children, &[], &r), children);

    let r = plan_stream_refresh(&vec![], &vec![]);
    assert!(r.reset_to_placeholder);
    assert_eq!(placeholder_widget_name(), "placeholder");
}

#[test]
fn one_row_per_application_over_refreshes() {
    let rounds = vec![
        vec![stream(1, "Firefox", 10), stream(2, "Firefox", 30), stream(3, "Unknown", 5)],
        vec![stream(2, "Firefox", 30), stream(4, "Spotify", 80)],
        vec![],
        vec![stream(5, "Unknown", 1), stream(6, "Unknown", 2), stream(4, "Spotify", 60)],
    ];
    let mut children: Vec<String> = vec![];
    for streams in rounds {
        let groups = group_streams(&streams);
        let r = plan_stream_refresh(&children, &groups);
        children = apply_streams(&children, &groups, &r);
        let rows: Vec<&String> = children.iter().filter(|n| n.starts_with("stream-app-")).collect();
        assert_eq!(rows.len(), groups.len());
        for g in &groups {
            let name = stream_row_widget_name(&g.key);
            assert_eq!(children.iter().filter(|n| **n == name).count(), 1);
        }
        if streams.is_empty() {
            assert!(children.contains(&"placeholder".to_string()));
        }
    }
}

#[test]
fn device_rows_follow_devices() {
    let children = names(&["placeholder", "device-3", "device-007", "device-x", "other"]);
    let devices = vec![device(3, true), device(5, false)];
    let r = plan_device_refresh(&children, &devices);
    assert_eq!(r.remove, vec![0, 2]);
    assert!(!r.add_placeholder);
    assert_eq!(r.rows, vec![RowStep::Update(0), RowStep::Create]);
    assert_eq!(
        apply_devices(&children, &devices, &r),
        names(&["device-3", "device-x", "other", "device-5"])
    );
}

#[test]
fn no_devices_shows_the_placeholder_once() {
    let children = names(&["device-3", "placeholder"]);
    let r = plan_device_refresh(&children, &vec![]);
    assert_eq!(r.remove, vec![0]);
    assert!(!r.add_placeholder);
    assert_eq!(apply_devices(&children, &[], &r), names(&["placeholder"]));

    let r = plan_device_refresh(&vec![], &vec![]);
    assert!(r.remove.is_empty());
    assert!(r.add_placeholder);

    let children = names(&["device-x", "placeholder"]);
    let r = plan_device_refresh(&children, &vec![]);
    assert!(r.remove.is_empty());
    assert!(r.add_placeholder);
}

#[test]
fn one_row_per_device_over_refreshes() {
    let rounds = vec![
        vec![device(1, true), device(2, false)],
        vec![],
        vec![device(2, true), device(7, false), device(1, false)],
        vec![device(7, true)],
    ];
    let mut children: Vec<String> = vec![];
    for devices in rounds {
        let r = plan_device_refresh(&children, &devices);
        children = apply_devices(&children, &devices, &r);
        assert_eq!(children.contains(&"placeholder".to_string()), devices.is_empty());
        for d in &devices {
            let name = device_row_widget_name(d.index);
            assert_eq!(children.iter().filter(|n| **n == name).count(), 1);
        }
        assert_eq!(children.iter().filter(|n| n.starts_with("device-")).count(), devices.len());
    }
}

#[test]
fn device_marks_follow_default_flags() {
    let devices = vec![device(1, false), device(2, true), device(3, false)];
    let r = plan_device_refresh(&names(&["device-2", "device-1"]), &devices);
    assert_eq!(r.marks, vec![false, true, false]);
    assert_eq!(r.rows, vec![RowStep::Update(1), RowStep::Update(0), RowStep::Create]);
    assert!(plan_device_refresh(&vec![], &vec![]).marks.is_empty());
}

#[test]
fn default_mark_moves_between_existing_rows() {
    // Rows as (name, has the default class); the plan is carried out on them.
    let mut rows: Vec<(String, bool)> = vec![];
    for devices in [
        vec![device(1, true), device(2, false)],
        vec![device(1, false), device(2, true)],
        vec![device(2, true)],
    ] {
        let children: Vec<String> = rows.iter().map(|(n, _)| n.clone()).collect();
        let r = plan_device_refresh(&children, &devices);
        let mut rest: Vec<(String, bool)> = rows
            .iter()
            .enumerate()
            .filter(|(i, _)| !r.remove.contains(i))
            .map(|(_, x)| x.clone())
            .collect();
        for ((d, step), &mark) in devices.iter().zip(r.rows.iter()).zip(r.marks.iter()) {
            match step {
                RowStep::Update(p) => rest[*p].1 = mark,
                RowStep::Create => rest.push((device_row_widget_name(d.index), mark)),
            }
        }
        rows = rest;
        assert_eq!(rows.len(), devices.len());
        for d in &devices {
            let row = rows.iter().find(|(n, _)| *n == device_row_widget_name(d.index)).unwrap();
            assert_eq!(row.1, d.is_default);
        }
    }
}

#[test]
fn no_device_refresh_is_stable_on_refreshed_lists() {
    let mut children: Vec<String> = vec![];
    for devices in [vec![device(5, true)], vec![], vec![]] {
        let r = plan_device_refresh(&children, &devices);
        children = apply_devices(&children, &devices, &r);
    }
    assert_eq!(children, names(&["placeholder"]));
    let r = plan_device_refresh(&children, &vec![]);
    assert!(r.remove.is_empty());
    assert!(!r.add_placeholder);
}

#[test]
fn placeholder_is_alone_exactly_after_silence() {
    let mut children: Vec<String> = vec![];
    let rounds = vec![
        vec![],
        vec![stream(1, "mpv", 10)],
        vec![],
        vec![],
        vec![stream(2, "Unknown", 3), stream(3, "Unknown", 4)],
    ];
    for streams in rounds {
        let groups = group_streams(&streams);
        let r = plan_stream_refresh(&children, &groups);
        children = apply_streams(&children, &groups, &r);
        let mut sorted = children.clone();
        sorted.sort();
        sorted.dedup();
        assert_eq!(sorted.len(), children.len());
        if streams.is_empty() {
            assert_eq!(children, names(&["placeholder"]));
        } else {
            assert!(!children.contains(&"placeholder".to_string()));
        }
    }
}

#[test]
fn kept_row_takes_its_group_new_streams() {
    // Rows as (name, controlled indices); the plan is carried out on them.
    let mut rows: Vec<(String, Vec<u32>)> = vec![];
    for streams in [
        vec![stream(1, "Firefox", 10)],
        vec![stream(1, "Firefox", 10), stream(7, "Firefox", 20), stream(8, "mpv", 1)],
        vec![stream(7, "Firefox", 20)],
    ] {
        let groups = group_streams(&streams);
        let children: Vec<String> = rows.iter().map(|(n, _)| n.clone()).collect();
        let r = plan_stream_refresh(&children, &groups);
        let before = rows.iter().position(|(n, _)| n == "stream-app-Firefox");
        let mut rest: Vec<(String, Vec<u32>)> = rows
            .iter()
            .enumerate()
            .filter(|(i, _)| !r.remove.contains(i))
            .map(|(_, x)| x.clone())
            .collect();
        for (g, step) in groups.iter().zip(r.rows.iter()) {
            match step {
                RowStep::Update(p) => rest[*p].1 = g.indices.clone(),
                RowStep::Create => rest.push((stream_row_widget_name(&g.key), g.indices.clone())),
            }
        }
        rows = rest;
        let firefox = groups.iter().find(|g| g.key == "Firefox").unwrap();
        let at = rows.iter().position(|(n, _)| n == "stream-app-Firefox").unwrap();
        assert_eq!(rows[at].1, firefox.indices);
        if before.is_some() {
            assert_eq!(at, 0);
            assert!(matches!(r.rows[groups.iter().position(|g| g.key == "Firefox").unwrap()], RowStep::Update(_)));
        }
    }
}

#[test]
fn device_row_names() {
    assert_eq!(device_row_widget_name(0), "device-0");
    assert_eq!(device_row_widget_name(4294967295), "device-4294967295");
}

#[test]
fn second_refresh_changes_nothing() {
    let streams = vec![stream(1, "Firefox", 10), stream(2, "Unknown", 30), stream(3, "Zoom", 50)];
    let groups = group_streams(&streams);
    let children = names(&["placeholder", "stream-app-Old", "stream-app-Zoom"]);
    let first = plan_stream_refresh(&children, &groups);
    let after = apply_streams(&children, &groups, &first);
    let second = plan_stream_refresh(&after, &groups);
    assert!(second.remove.is_empty());
    assert!(!second.reset_to_placeholder);
    assert!(!second.drop_leading_placeholder);
    assert!(second.rows.iter().all(|s| matches!(s, RowStep::Update(_))));
    assert_eq!(apply_streams(&after, &groups, &second), after);

    let r = plan_stream_refresh(&names(&["placeholder"]), &vec![]);
    assert!(r.remove.is_empty() && !r.reset_to_placeholder);
}

#[test]
fn second_device_refresh_changes_nothing() {
    let devices = vec![device(4, false), device(9, true)];
    let children = names(&["placeholder", "device-1", "device-9"]);
    let first = plan_device_refresh(&children, &devices);
    let after = apply_devices(&children, &devices, &first);
    let second = plan_device_refresh(&after, &devices);
    assert!(second.remove.is_empty());
    assert!(!second.add_placeholder);
    assert!(second.rows.iter().all(|s| matches!(s, RowStep::Update(_))));
}

#[test]
fn no_device_refresh_can_grow_behind_a_foreign_widget() {
    // A widget that is neither a device row nor the placeholder stays first,
    // so each refresh without devices appends one more placeholder.
    let children = names(&["device-x"]);
    let r = plan_device_refresh(&children, &vec![]);
    let after = apply_devices(&children, &[], &r);
    assert_eq!(after, names(&["device-x", "placeholder"]));
    let r = plan_device_refresh(&after, &vec![]);
    assert!(r.add_placeholder);
}

#[test]
fn every_stream_is_under_its_application_slider() {
    let streams = vec![stream(11, "Firefox", 10), stream(12, "mpv", 0), stream(13, "Firefox", 90), stream(14, "Unknown", 5)];
    let groups = group_streams(&streams);
    for s in &streams {
        let key = stream_group_key(s);
        let g = groups.iter().find(|g| g.key == key).unwrap();
        assert!(g.indices.contains(&s.index));
    }
    let total: usize = groups.iter().map(|g| g.indices.len()).sum();
    assert_eq!(total, streams.len());
}

#[test]
fn duplicate_rows_refresh_the_first() {
    let children = names(&["stream-app-A", "stream-app-A"]);
    let groups = group_streams(&vec![stream(1, "A", 10)]);
    let r = plan_stream_refresh(&children, &groups);
    assert!(r.remove.is_empty());
    assert_eq!(r.rows, vec![RowStep::Update(0)]);
}

#[test]
fn regrouping_the_same_streams_gives_the_same_groups() {
    let streams = vec![stream(4, "B", 9), stream(2, "A", 3), stream(7, "Unknown", 1), stream(5, "B", 2)];
    let a = group_streams(&streams);
    let b = group_streams(&streams);
    assert_eq!(a.len(), b.len());
    for (x, y) in a.iter().zip(b.iter()) {
        assert_eq!((&x.key, &x.display_name, &x.indices, x.avg_volume), (&y.key, &y.display_name, &y.indices, y.avg_volume));
    }
    let first = plan_stream_refresh(&vec![], &a);
    let after = apply_streams(&[], &a, &first);
    let second = plan_stream_refresh(&after, &b);
    assert!(second.remove.is_empty() && !second.reset_to_placeholder && !second.drop_leading_placeholder);
    assert!(second.rows.iter().all(|s| matches!(s, RowStep::Update(_))));
}
