//! Bringing the list of playback or input device rows in line with the
//! current devices.

use vstd::prelude::*;
use std::collections::HashSet;
use crate::decimal::{decimal, parse_u32, parsed_u32, u32_to_decimal};
use crate::stream_rows::{leads_with_placeholder, placeholder_name, placeholder_widget_name};
use crate::text::{
    chars_from, chars_of, chars_start_with, is_prefix, key_views, names_of, string_of, string_views,
};
use crate::widgets::{
    after_rows, apply_steps, are_row_steps, distinct, is_removal_list, keep_names, kept, plan_rows,
    is_first, removal_flags, removal_positions, row_names, RowModel, RowStep,
};

verus! {

/// One sink (playback device) or source (input device).
pub struct AudioDevice {
    /// The device's index.
    pub index: u32,
    /// The device's name, by which it is made the default.
    pub name: String,
    /// The human-readable description shown in its row.
    pub description: String,
    /// Whether this is the current default device.
    pub is_default: bool,
}

/// The prefix of every device row's widget name.
pub open spec fn device_prefix() -> Seq<char> {
    seq!['d', 'e', 'v', 'i', 'c', 'e', '-']
}

/// The widget name of the row of the device with index `index`.
pub open spec fn device_row_name(index: u32) -> Seq<char> {
    device_prefix() + decimal(index as nat)
}

/// The indices of `devices`, in order.
pub open spec fn device_indices(devices: Seq<AudioDevice>) -> Seq<u32> {
    devices.map_values(|d: AudioDevice| d.index)
}

/// The row names that `devices` want, in order.
pub open spec fn wanted_devices(devices: Seq<AudioDevice>) -> Seq<Seq<char>> {
    devices.map_values(|d: AudioDevice| device_row_name(d.index))
}

/// A widget to remove: the placeholder when devices exist, or a device row
/// whose name ends in a `u32` that is no current device's index.
pub open spec fn is_stale_device_row(name: Seq<char>, indices: Seq<u32>) -> bool {
    ||| name == placeholder_name() && indices.len() > 0
    ||| is_prefix(device_prefix(), name) && match parsed_u32(name.skip(device_prefix().len() as int)) {
        Some(i) => !indices.contains(i),
        None => false,
    }
}

/// The flags of the widgets to remove among `names`.
pub open spec fn stale_device_rows(names: Seq<Seq<char>>, indices: Seq<u32>) -> Seq<bool> {
    Seq::new(names.len(), |i: int| is_stale_device_row(names[i], indices))
}

/// What to do to a list of device rows.
pub struct DeviceRefresh {
    /// Positions of the current widgets to remove first, in increasing order.
    pub remove: Vec<usize>,
    /// No device exists and the first remaining widget is not the
    /// placeholder: append the placeholder.
    pub add_placeholder: bool,
    /// One step per device, in device order, on the list left by the removals.
    pub rows: Vec<RowStep>,
    /// For each device, in device order, whether its row (refreshed or new)
    /// carries the `default` style class.
    pub marks: Vec<bool>,
}

/// The list left after the stale rows are removed.
pub open spec fn devices_after_removal(names: Seq<Seq<char>>, devices: Seq<AudioDevice>) -> Seq<Seq<char>> {
    kept(names, stale_device_rows(names, device_indices(devices)))
}

/// `r` is the refresh of the rows `names` for `devices`.
pub open spec fn is_device_refresh(names: Seq<Seq<char>>, devices: Seq<AudioDevice>, r: DeviceRefresh) -> bool {
    let rest = devices_after_removal(names, devices);
    &&& is_removal_list(r.remove@, stale_device_rows(names, device_indices(devices)), names.len() as int)
    &&& r.marks@ == device_marks(devices)
    &&& if devices.len() == 0 {
        &&& r.add_placeholder == !leads_with_placeholder(rest)
        &&& r.rows@.len() == 0
    } else {
        &&& !r.add_placeholder
        &&& are_row_steps(rest, wanted_devices(devices), r.rows@)
    }
}

/// Whether each device's row is marked as the default, in device order.
pub open spec fn device_marks(devices: Seq<AudioDevice>) -> Seq<bool> {
    devices.map_values(|d: AudioDevice| d.is_default)
}

/// The widget names after the refresh of `names` for `devices`.
pub open spec fn device_refresh_result(names: Seq<Seq<char>>, devices: Seq<AudioDevice>) -> Seq<Seq<char>> {
    let rest = devices_after_removal(names, devices);
    if devices.len() == 0 {
        if leads_with_placeholder(rest) {
            rest
        } else {
            rest.push(placeholder_name())
        }
    } else {
        after_rows(rest, wanted_devices(devices))
    }
}

/// The widget name of the row of the device with index `index`.
pub fn device_row_widget_name(index: u32) -> (s: String)
    ensures
        s@ == device_row_name(index),
{
    proof {
        reveal_strlit("device-");
        assert("device-"@ =~= device_prefix());
    }
    let mut s = String::from_str("device-");
    let d = u32_to_decimal(index);
    s.append(d.as_str());
    s
}

/// Plans the refresh of a device list: `children` are the names of the
/// container's widgets, in order, and `devices` the current devices.
///
/// The placeholder is removed when devices exist, and so is every device row
/// whose index is no current device's. With no device, the placeholder is
/// appended unless it already stands first. Otherwise each device, in order,
/// refreshes its existing row or gets a new one appended.
pub fn plan_device_refresh(children: &Vec<String>, devices: &Vec<AudioDevice>) -> (r: DeviceRefresh)
    ensures
        is_device_refresh(string_views(children@), devices@, r),
{
    let ghost names_v = string_views(children@);
    let names = names_of(children);
    let prefix = {
        proof {
            reveal_strlit("device-");
        }
        let p = chars_of("device-");
        assert(p@ =~= device_prefix());
        p
    };
    let ph = {
        let s = placeholder_widget_name();
        chars_of(s.as_str())
    };
    let ghost all = device_indices(devices@);
    let mut indices: HashSet<u32> = HashSet::new();
    let mut marks: Vec<bool> = Vec::new();
    let mut k: usize = 0;
    while k < devices.len()
        invariant
            k <= devices@.len(),
            all == device_indices(devices@),
            forall|x: u32| indices@.contains(x) <==> all.take(k as int).contains(x),
            marks@ == device_marks(devices@).take(k as int),
        decreases devices.len() - k,
    {
        proof {
            broadcast use vstd::std_specs::hash::group_hash_axioms;
        }
        let ghost before = all.take(k as int);
        indices.insert(devices[k].index);
        marks.push(devices[k].is_default);
        k = k + 1;
        assert(all.take(k as int) =~= before.push(devices@[k - 1].index));
        assert forall|x: u32| indices@.contains(x) <==> all.take(k as int).contains(x) by {
            if x == devices@[k - 1].index {
                assert(all.take(k as int)[k - 1] == x);
            }
            if all.take(k as int).contains(x) && x != devices@[k - 1].index {
                let q = choose|q: int| 0 <= q < k && all.take(k as int)[q] == x;
                assert(before[q] == x);
            }
        }
        assert(marks@ =~= device_marks(devices@).take(k as int));
    }
    assert(all.take(k as int) =~= all);
    assert(marks@ =~= device_marks(devices@));
    let any = devices.len() > 0;
    let mut drop: Vec<bool> = Vec::new();
    let mut i: usize = 0;
    while i < names.len()
        invariant
            i <= names@.len(),
            key_views(names@) == names_v,
            all == device_indices(devices@),
            forall|x: u32| indices@.contains(x) <==> all.contains(x),
            any == (devices@.len() > 0),
            prefix@ == device_prefix(),
            ph@ == placeholder_name(),
            drop@ == stale_device_rows(names_v, all).take(i as int),
        decreases names.len() - i,
    {
        let n = &names[i];
        assert(n@ == names_v[i as int]);
        let stale = if crate::text::chars_eq(n, &ph) {
            any
        } else if chars_start_with(n, &prefix) {
            let suffix = string_of(&chars_from(n, prefix.len()));
            match parse_u32(suffix.as_str()) {
                Some(x) => {
                    proof {
                        broadcast use vstd::std_specs::hash::group_hash_axioms;
                    }
                    !indices.contains(&x)
                },
                None => false,
            }
        } else {
            false
        };
        proof {
            if n@ == placeholder_name() {
                assert(!is_prefix(device_prefix(), n@)) by {
                    assert(n@[0] != device_prefix()[0]);
                    assert(n@.subrange(0, 7)[0] == n@[0]);
                }
            }
        }
        drop.push(stale);
        i = i + 1;
        assert(drop@ =~= stale_device_rows(names_v, all).take(i as int));
    }
    assert(drop@ =~= stale_device_rows(names_v, all));
    let remove = removal_positions(&drop);
    let rest = keep_names(&names, &drop);
    if devices.len() == 0 {
        let leading = rest.len() > 0 && crate::text::chars_eq(&rest[0], &ph);
        return DeviceRefresh { remove, add_placeholder: !leading, rows: Vec::new(), marks };
    }
    let mut wanted: Vec<Vec<char>> = Vec::new();
    let mut g: usize = 0;
    while g < devices.len()
        invariant
            g <= devices@.len(),
            wanted@.len() == g,
            key_views(wanted@) == wanted_devices(devices@).take(g as int),
        decreases devices.len() - g,
    {
        let w = device_row_widget_name(devices[g].index);
        let c = chars_of(w.as_str());
        assert(c@ == wanted_devices(devices@)[g as int]);
        wanted.push(c);
        assert(key_views(wanted@)[g as int] == c@);
        g = g + 1;
        assert(key_views(wanted@) =~= wanted_devices(devices@).take(g as int));
    }
    assert(wanted_devices(devices@).take(g as int) =~= wanted_devices(devices@));
    let rows = plan_rows(&rest, &wanted);
    DeviceRefresh { remove, add_placeholder: false, rows, marks }
}

} // verus!

verus! {

/// The placeholder's name does not carry the device prefix.
proof fn lemma_placeholder_not_device()
    ensures
        !is_prefix(device_prefix(), placeholder_name()),
{
    assert(placeholder_name().subrange(0, 7)[0] != device_prefix()[0]);
}

/// A device's row name carries the prefix and reads back as its index.
proof fn lemma_device_row_name(index: u32)
    ensures
        is_prefix(device_prefix(), device_row_name(index)),
        parsed_u32(device_row_name(index).skip(device_prefix().len() as int)) == Some(index),
{
    let n = device_row_name(index);
    assert(n.subrange(0, 7) =~= device_prefix());
    assert(n.skip(7) =~= decimal(index as nat));
    crate::decimal::lemma_parse_decimal(index);
}

/// Each device gets exactly one row, and the placeholder shows exactly when
/// there is no device.
///
/// Whatever widgets the container held (with no device row name twice),
/// after the refresh for `devices`: every device has its row; every device
/// row whose name ends in a number names a current device; no device row name
/// stands twice; and the placeholder stands if and only if `devices` is empty.
pub proof fn law_one_row_per_device(names: Seq<Seq<char>>, devices: Seq<AudioDevice>)
    requires
        crate::widgets::unique_where(names, device_prefix()),
    ensures
        forall|d: int|
            0 <= d < devices.len() ==> device_refresh_result(names, devices).contains(
                device_row_name((#[trigger] devices[d]).index),
            ),
        forall|i: int|
            0 <= i < device_refresh_result(names, devices).len() && is_prefix(
                device_prefix(),
                #[trigger] device_refresh_result(names, devices)[i],
            ) ==> match parsed_u32(
                device_refresh_result(names, devices)[i].skip(device_prefix().len() as int),
            ) {
                Some(x) => device_indices(devices).contains(x),
                None => true,
            },
        crate::widgets::unique_where(device_refresh_result(names, devices), device_prefix()),
        device_refresh_result(names, devices).contains(placeholder_name()) <==> devices.len() == 0,
{
    let indices = device_indices(devices);
    let drop = stale_device_rows(names, indices);
    let rest = devices_after_removal(names, devices);
    let out = device_refresh_result(names, devices);
    crate::widgets::lemma_kept_members(names, drop);
    crate::widgets::lemma_kept_unique(names, drop, device_prefix());
    lemma_placeholder_not_device();
    // What the removal keeps is no stale row.
    assert forall|x: Seq<char>| rest.contains(x) implies !is_stale_device_row(x, indices) by {
        let j = choose|j: int| 0 <= j < names.len() && names[j] == x && !drop[j];
    }
    if devices.len() == 0 {
        assert forall|i: int| 0 <= i < out.len() && is_prefix(device_prefix(), #[trigger] out[i]) implies match parsed_u32(
            out[i].skip(device_prefix().len() as int),
        ) {
            Some(x) => indices.contains(x),
            None => true,
        } by {
            if i < rest.len() {
                assert(rest.contains(out[i]));
            }
        }
        if !leads_with_placeholder(rest) {
            assert(out[rest.len() as int] == placeholder_name());
            assert forall|i: int, j: int| 0 <= i < j < out.len() && out[i] == out[j] implies !is_prefix(device_prefix(), out[i]) by {
                if j < rest.len() {
                    assert(out[i] == rest[i] && out[j] == rest[j]);
                }
            }
        } else {
            assert(out[0] == placeholder_name());
        }
    } else {
        let wanted = wanted_devices(devices);
        crate::widgets::lemma_after_rows_members(rest, wanted);
        crate::widgets::lemma_after_rows_unique(rest, wanted, device_prefix());
        assert forall|d: int| 0 <= d < devices.len() implies out.contains(
            device_row_name((#[trigger] devices[d]).index),
        ) by {
            assert(wanted[d] == device_row_name(devices[d].index));
        }
        assert forall|i: int| 0 <= i < out.len() && is_prefix(device_prefix(), #[trigger] out[i]) implies match parsed_u32(
            out[i].skip(device_prefix().len() as int),
        ) {
            Some(x) => indices.contains(x),
            None => true,
        } by {
            assert(out.contains(out[i]));
            if wanted.contains(out[i]) {
                let d = choose|d: int| 0 <= d < wanted.len() && wanted[d] == out[i];
                lemma_device_row_name(devices[d].index);
                assert(indices[d] == devices[d].index);
            } else {
                assert(rest.contains(out[i]));
            }
        }
        if out.contains(placeholder_name()) {
            if wanted.contains(placeholder_name()) {
                let d = choose|d: int| 0 <= d < wanted.len() && wanted[d] == placeholder_name();
                lemma_device_row_name(devices[d].index);
            } else {
                assert(rest.contains(placeholder_name()));
                assert(!is_stale_device_row(placeholder_name(), indices));
            }
        }
    }
}

/// A refresh with unchanged devices changes nothing: on the list that a
/// refresh for `devices` produced, a second refresh for the same `devices`
/// removes no widget, adds no placeholder, and refreshes every row in place,
/// creating none. With no device this holds for lists that refreshes built
/// (`device_list_ok`); with devices, for any list.
pub proof fn law_device_refresh_is_stable(names: Seq<Seq<char>>, devices: Seq<AudioDevice>, r: DeviceRefresh)
    requires
        devices.len() > 0 || device_list_ok(names),
        is_device_refresh(device_refresh_result(names, devices), devices, r),
    ensures
        r.remove@.len() == 0,
        !r.add_placeholder,
        forall|i: int| 0 <= i < r.rows@.len() ==> (#[trigger] r.rows@[i]) is Update,
{
    let indices = device_indices(devices);
    let out = device_refresh_result(names, devices);
    let drop2 = stale_device_rows(out, indices);
    lemma_placeholder_not_device();
    if devices.len() == 0 {
        law_device_list_stays_well_formed(names, devices);
        assert(out[0] == placeholder_name());
        assert forall|i: int| 0 <= i < out.len() implies !drop2[i] by {}
        crate::widgets::lemma_kept_none(out, drop2);
        crate::widgets::lemma_no_removal(r.remove@, drop2, out.len() as int);
    } else {
        let drop1 = stale_device_rows(names, indices);
        let rest1 = devices_after_removal(names, devices);
        let wanted = wanted_devices(devices);
        crate::widgets::lemma_kept_members(names, drop1);
        crate::widgets::lemma_after_rows_members(rest1, wanted);
        assert forall|i: int| 0 <= i < out.len() implies !drop2[i] by {
            let x = out[i];
            assert(out.contains(x));
            if wanted.contains(x) {
                let d = choose|d: int| 0 <= d < wanted.len() && wanted[d] == x;
                lemma_device_row_name(devices[d].index);
                assert(indices[d] == devices[d].index);
            } else {
                let j = choose|j: int| 0 <= j < names.len() && names[j] == x && !drop1[j];
            }
        }
        crate::widgets::lemma_kept_none(out, drop2);
        crate::widgets::lemma_no_removal(r.remove@, drop2, out.len() as int);
        crate::widgets::lemma_steps_all_update(out, wanted, r.rows@);
    }
}

/// `x` is the row name of some device index.
pub open spec fn is_device_row(x: Seq<char>) -> bool {
    exists|k: u32| x == #[trigger] device_row_name(k)
}

/// A device list as refreshes leave it: no name twice, every widget a device
/// row or the placeholder, and the placeholder only ever alone.
pub open spec fn device_list_ok(names: Seq<Seq<char>>) -> bool {
    &&& distinct(names)
    &&& forall|i: int|
        0 <= i < names.len() ==> is_device_row(#[trigger] names[i]) || names[i] == placeholder_name()
    &&& names.contains(placeholder_name()) ==> names.len() == 1
}

/// The device rows after `r` is carried out on `rows`, each row's state being
/// whether it carries the `default` style class: the listed positions are
/// removed; with no device the placeholder (identity `fresh`) is appended when
/// asked; otherwise each device's step marks its row in place, or appends a new
/// row, with the device's default flag.
pub open spec fn apply_device_refresh(
    rows: Seq<RowModel<bool>>,
    devices: Seq<AudioDevice>,
    r: DeviceRefresh,
    fresh: int,
) -> Seq<RowModel<bool>> {
    let rest = kept(rows, removal_flags(r.remove@, rows.len() as int));
    if devices.len() == 0 {
        if r.add_placeholder {
            rest.push(RowModel { id: fresh, name: placeholder_name(), attr: false })
        } else {
            rest
        }
    } else {
        apply_steps(rest, wanted_devices(devices), r.marks@, r.rows@, fresh)
    }
}

/// Every refresh keeps a device list well formed, starting from the empty
/// container: afterwards no name stands twice; the placeholder stands exactly
/// when there is no device, and then as the only widget; with devices, every
/// widget is the row of one of them.
pub proof fn law_device_list_stays_well_formed(names: Seq<Seq<char>>, devices: Seq<AudioDevice>)
    requires
        device_list_ok(names),
    ensures
        device_list_ok(Seq::<Seq<char>>::empty()),
        device_list_ok(device_refresh_result(names, devices)),
        device_refresh_result(names, devices).contains(placeholder_name()) <==> devices.len() == 0,
        devices.len() == 0 ==> device_refresh_result(names, devices) == seq![placeholder_name()],
        devices.len() > 0 ==> forall|q: int|
            0 <= q < device_refresh_result(names, devices).len() ==> exists|d: int|
                0 <= d < devices.len() && #[trigger] device_refresh_result(names, devices)[q]
                    == device_row_name(devices[d].index),
{
    let indices = device_indices(devices);
    let drop = stale_device_rows(names, indices);
    let rest = devices_after_removal(names, devices);
    let out = device_refresh_result(names, devices);
    let e = Seq::<char>::empty();
    crate::widgets::lemma_kept_members(names, drop);
    crate::widgets::lemma_distinct_unique(names);
    crate::widgets::lemma_kept_unique(names, drop, e);
    crate::widgets::lemma_distinct_unique(rest);
    lemma_placeholder_not_device();
    // What stays is the row of a current device, or (with no device) the placeholder.
    assert forall|x: Seq<char>| rest.contains(x) implies (x == placeholder_name() && devices.len() == 0)
        || exists|d: int| 0 <= d < devices.len() && x == device_row_name(devices[d].index) by {
        let j = choose|j: int| 0 <= j < names.len() && names[j] == x && !drop[j];
        assert(is_device_row(names[j]) || names[j] == placeholder_name());
        if is_device_row(x) {
            let k = choose|k: u32| x == #[trigger] device_row_name(k);
            lemma_device_row_name(k);
            assert(indices.contains(k));
            let d = choose|d: int| 0 <= d < indices.len() && indices[d] == k;
            assert(x == device_row_name(devices[d].index));
        }
    }
    if devices.len() == 0 {
        if rest.len() > 0 {
            assert(rest.contains(rest[0]));
            if rest.len() > 1 {
                assert(rest.contains(rest[1]));
            }
            assert(rest =~= seq![placeholder_name()]);
        }
        assert(out =~= seq![placeholder_name()]);
        assert(out[0] == placeholder_name());
        assert(device_list_ok(out));
    } else {
        let wanted = wanted_devices(devices);
        crate::widgets::lemma_after_rows_members(rest, wanted);
        crate::widgets::lemma_after_rows_unique(rest, wanted, e);
        crate::widgets::lemma_distinct_unique(out);
        assert forall|q: int| 0 <= q < out.len() implies exists|d: int|
            0 <= d < devices.len() && #[trigger] out[q] == device_row_name(devices[d].index) by {
            assert(out.contains(out[q]));
            if wanted.contains(out[q]) {
                let d = choose|d: int| 0 <= d < wanted.len() && wanted[d] == out[q];
                assert(wanted[d] == device_row_name(devices[d].index));
            } else {
                assert(rest.contains(out[q]));
            }
        }
        assert forall|q: int| 0 <= q < out.len() implies is_device_row(#[trigger] out[q]) by {
            let d = choose|d: int| 0 <= d < devices.len() && out[q] == device_row_name(devices[d].index);
            assert(out[q] == device_row_name(devices[d].index));
        }
        if out.contains(placeholder_name()) {
            let q = choose|q: int| 0 <= q < out.len() && out[q] == placeholder_name();
            let d = choose|d: int| 0 <= d < devices.len() && out[q] == device_row_name(devices[d].index);
            lemma_device_row_name(devices[d].index);
        }
    }
}

/// Row names of different indices differ.
proof fn lemma_device_row_names_differ(a: u32, b: u32)
    ensures
        device_row_name(a) == device_row_name(b) ==> a == b,
{
    if device_row_name(a) == device_row_name(b) {
        assert(device_row_name(a).skip(7) =~= decimal(a as nat));
        assert(device_row_name(b).skip(7) =~= decimal(b as nat));
        crate::decimal::lemma_decimal_injective(a, b);
    }
}

/// The default mark follows the devices. Carrying out a refresh gives the
/// names of `device_refresh_result`; the first widget named for a device
/// carries the `default` class exactly when the last device of that index is
/// the default; and every widget named for a current device stays the same
/// widget (identity and name), marked by that device when it is the first of
/// its name (the one the lookup finds) and keeping its mark otherwise.
pub proof fn law_default_marks_follow_devices(
    rows: Seq<RowModel<bool>>,
    devices: Seq<AudioDevice>,
    r: DeviceRefresh,
    fresh: int,
)
    requires
        is_device_refresh(row_names(rows), devices, r),
    ensures
        ({
            let out = apply_device_refresh(rows, devices, r, fresh);
            &&& row_names(out) == device_refresh_result(row_names(rows), devices)
            &&& forall|q: int, d: int|
                0 <= q < out.len() && 0 <= d < devices.len() && (#[trigger] out[q]).name
                    == device_row_name((#[trigger] devices[d]).index) && is_first(row_names(out), q)
                    && (forall|e: int| d < e < devices.len() ==> devices[e].index != devices[d].index)
                    ==> out[q].attr == devices[d].is_default
            &&& forall|i: int, d: int|
                0 <= i < rows.len() && 0 <= d < devices.len() && (#[trigger] rows[i]).name
                    == device_row_name((#[trigger] devices[d]).index) && (forall|e: int|
                    d < e < devices.len() ==> devices[e].index != devices[d].index) ==> exists|q: int|
                    0 <= q < out.len() && out[q].id == rows[i].id && out[q].name == rows[i].name && if is_first(
                        row_names(rows),
                        i,
                    ) {
                        out[q].attr == devices[d].is_default
                    } else {
                        out[q].attr == rows[i].attr
                    }
        }),
{
    let names = row_names(rows);
    let indices = device_indices(devices);
    let drop = stale_device_rows(names, indices);
    crate::widgets::lemma_removal_flags(r.remove@, drop, names.len() as int);
    let rest_rows = kept(rows, drop);
    crate::widgets::lemma_kept_names(rows, drop);
    let rest = devices_after_removal(names, devices);
    assert(row_names(rest_rows) == rest);
    let out = apply_device_refresh(rows, devices, r, fresh);
    if devices.len() == 0 {
        if r.add_placeholder {
            assert(row_names(out) =~= rest.push(placeholder_name()));
        }
    } else {
        let wanted = wanted_devices(devices);
        crate::widgets::lemma_apply_steps(rest_rows, wanted, r.marks@, r.rows@, fresh);
        assert(wanted.take(r.rows@.len() as int) =~= wanted);
        assert forall|q: int, d: int|
            0 <= q < out.len() && 0 <= d < devices.len() && (#[trigger] out[q]).name == device_row_name(
                (#[trigger] devices[d]).index,
            ) && is_first(row_names(out), q) && (forall|e: int|
                d < e < devices.len() ==> devices[e].index != devices[d].index) implies out[q].attr
            == devices[d].is_default by {
            assert(wanted[d] == device_row_name(devices[d].index));
            assert(r.marks@[d] == devices[d].is_default);
            assert forall|e: int| d < e < r.rows@.len() implies wanted[e] != wanted[d] by {
                lemma_device_row_names_differ(devices[e].index, devices[d].index);
            }
        }
        assert forall|i: int, d: int|
            0 <= i < rows.len() && 0 <= d < devices.len() && (#[trigger] rows[i]).name == device_row_name(
                (#[trigger] devices[d]).index,
            ) && (forall|e: int| d < e < devices.len() ==> devices[e].index != devices[d].index)
            implies exists|q: int|
            0 <= q < out.len() && out[q].id == rows[i].id && out[q].name == rows[i].name && if is_first(
                names,
                i,
            ) {
                out[q].attr == devices[d].is_default
            } else {
                out[q].attr == rows[i].attr
            } by {
            let x = rows[i].name;
            lemma_device_row_name(devices[d].index);
            assert(names[i] == x);
            assert(indices[d] == devices[d].index);
            assert(!drop[i]) by {
                lemma_placeholder_not_device();
            }
            let k = crate::widgets::lemma_kept_index(rows, drop, i);
            assert(out[k].id == rows[i].id && out[k].name == x);
            assert(wanted[d] == x);
            if is_first(names, i) {
                assert forall|q: int| 0 <= q < k implies row_names(out)[q] != row_names(out)[k] by {
                    assert(row_names(out)[q] == rest_rows[q].name);
                    let j = choose|j: int| 0 <= j < i && !drop[j] && #[trigger] rest_rows[q] == rows[j];
                    assert(names[j] == rows[j].name);
                }
                assert forall|e: int| d < e < r.rows@.len() implies wanted[e] != wanted[d] by {
                    lemma_device_row_names_differ(devices[e].index, devices[d].index);
                }
                assert(r.marks@[d] == devices[d].is_default);
                assert(out[k].attr == r.marks@[d]);
            } else {
                let j = choose|j: int| 0 <= j < i && names[j] == names[i];
                assert(drop[j] == drop[i]);
                let qq = choose|qq: int| 0 <= qq < k && rest_rows[qq] == #[trigger] rows[j];
                assert(row_names(out)[qq] == row_names(out)[k]);
                assert(!is_first(row_names(out), k));
                assert(out[k].attr == rest_rows[k].attr);
            }
        }
    }
}

} // verus!
