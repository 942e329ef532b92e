//! Bringing the list of per-application slider rows in line with the
//! current application groups.

use vstd::prelude::*;
use crate::streams::AppGroup;
use crate::text::{chars_from, chars_of, chars_start_with, is_prefix, key_views, names_of, string_views};
use crate::widgets::{
    after_rows, apply_steps, are_row_steps, distinct, find_name, is_removal_list, keep_names, kept,
    is_first, plan_rows, removal_flags, removal_positions, row_names, RowModel, RowStep,
};

verus! {

/// The name of the row shown when no application plays audio.
pub open spec fn placeholder_name() -> Seq<char> {
    seq!['p', 'l', 'a', 'c', 'e', 'h', 'o', 'l', 'd', 'e', 'r']
}

/// The prefix of every slider row's widget name.
pub open spec fn stream_prefix() -> Seq<char> {
    seq!['s', 't', 'r', 'e', 'a', 'm', '-', 'a', 'p', 'p', '-']
}

/// The widget name of the slider row of the group with key `key`.
pub open spec fn stream_row_name(key: Seq<char>) -> Seq<char> {
    stream_prefix() + key
}

/// The keys of `groups`, in order.
pub open spec fn group_keys(groups: Seq<AppGroup>) -> Seq<Seq<char>> {
    groups.map_values(|g: AppGroup| g.key@)
}

/// The row names that `groups` want, in order.
pub open spec fn wanted_rows(groups: Seq<AppGroup>) -> Seq<Seq<char>> {
    groups.map_values(|g: AppGroup| stream_row_name(g.key@))
}

/// A slider row whose application no longer plays: its name carries the
/// row prefix and a suffix that is none of the current keys.
pub open spec fn is_stale_row(name: Seq<char>, keys: Seq<Seq<char>>) -> bool {
    is_prefix(stream_prefix(), name) && !keys.contains(name.skip(stream_prefix().len() as int))
}

/// The flags of the stale rows among `names`.
pub open spec fn stale_rows(names: Seq<Seq<char>>, keys: Seq<Seq<char>>) -> Seq<bool> {
    Seq::new(names.len(), |i: int| is_stale_row(names[i], keys))
}

/// What to do to the list of application rows.
pub struct StreamRefresh {
    /// Positions of the current widgets to remove first, in increasing order.
    pub remove: Vec<usize>,
    /// No application plays and no placeholder stands: remove every remaining
    /// widget and append the placeholder.
    pub reset_to_placeholder: bool,
    /// Applications play and the first remaining widget is the placeholder:
    /// remove it.
    pub drop_leading_placeholder: bool,
    /// One step per group, in group order, on the list left by the removals.
    pub rows: Vec<RowStep>,
}

/// The list left after the stale rows are removed.
pub open spec fn rows_after_removal(names: Seq<Seq<char>>, groups: Seq<AppGroup>) -> Seq<Seq<char>> {
    kept(names, stale_rows(names, group_keys(groups)))
}

/// Whether the first remaining widget is the placeholder.
pub open spec fn leads_with_placeholder(rest: Seq<Seq<char>>) -> bool {
    rest.len() > 0 && rest[0] == placeholder_name()
}

/// The list on which the per-group steps are taken.
pub open spec fn rows_base(names: Seq<Seq<char>>, groups: Seq<AppGroup>) -> Seq<Seq<char>> {
    let rest = rows_after_removal(names, groups);
    if leads_with_placeholder(rest) {
        rest.drop_first()
    } else {
        rest
    }
}

/// `r` is the refresh of the rows `names` for `groups`.
pub open spec fn is_stream_refresh(names: Seq<Seq<char>>, groups: Seq<AppGroup>, r: StreamRefresh) -> bool {
    let rest = rows_after_removal(names, groups);
    &&& is_removal_list(r.remove@, stale_rows(names, group_keys(groups)), names.len() as int)
    &&& if groups.len() == 0 {
        &&& r.reset_to_placeholder == !rest.contains(placeholder_name())
        &&& !r.drop_leading_placeholder
        &&& r.rows@.len() == 0
    } else {
        &&& !r.reset_to_placeholder
        &&& r.drop_leading_placeholder == leads_with_placeholder(rest)
        &&& are_row_steps(rows_base(names, groups), wanted_rows(groups), r.rows@)
    }
}

/// The widget names after `r` is carried out on `names`.
pub open spec fn stream_refresh_result(names: Seq<Seq<char>>, groups: Seq<AppGroup>) -> Seq<Seq<char>> {
    let rest = rows_after_removal(names, groups);
    if groups.len() == 0 {
        if rest.contains(placeholder_name()) {
            rest
        } else {
            seq![placeholder_name()]
        }
    } else {
        after_rows(rows_base(names, groups), wanted_rows(groups))
    }
}

/// The widget name of the placeholder row.
pub fn placeholder_widget_name() -> (s: String)
    ensures
        s@ == placeholder_name(),
{
    proof {
        reveal_strlit("placeholder");
    }
    let s = String::from_str("placeholder");
    assert(s@ =~= placeholder_name());
    s
}

/// The widget name of the slider row of the group with key `key`.
pub fn stream_row_widget_name(key: &str) -> (s: String)
    ensures
        s@ == stream_row_name(key@),
{
    proof {
        reveal_strlit("stream-app-");
        assert("stream-app-"@ =~= stream_prefix());
    }
    let mut s = String::from_str("stream-app-");
    s.append(key);
    s
}

/// Plans the refresh of the application rows: `children` are the names of
/// the row container's widgets, in order, and `groups` the current
/// application groups.
///
/// Rows of applications that stopped playing are removed. When nothing plays,
/// the placeholder row is shown (the list is reset to it unless one already
/// stands). Otherwise a leading placeholder is removed and each group, in
/// order, refreshes its existing row or gets a new one appended.
pub fn plan_stream_refresh(children: &Vec<String>, groups: &Vec<AppGroup>) -> (r: StreamRefresh)
    ensures
        is_stream_refresh(string_views(children@), groups@, r),
{
    let ghost names_v = string_views(children@);
    let names = names_of(children);
    let prefix = {
        proof {
            reveal_strlit("stream-app-");
        }
        let p = chars_of("stream-app-");
        assert(p@ =~= stream_prefix());
        p
    };
    let mut keys: Vec<Vec<char>> = Vec::new();
    let mut g: usize = 0;
    while g < groups.len()
        invariant
            g <= groups@.len(),
            keys@.len() == g,
            key_views(keys@) == group_keys(groups@).take(g as int),
        decreases groups.len() - g,
    {
        let c = chars_of(groups[g].key.as_str());
        assert(c@ == group_keys(groups@)[g as int]);
        keys.push(c);
        assert(key_views(keys@)[g as int] == c@);
        g = g + 1;
        assert(key_views(keys@) =~= group_keys(groups@).take(g as int));
    }
    assert(group_keys(groups@).take(g as int) =~= group_keys(groups@));
    let ghost ks = group_keys(groups@);
    let mut drop: Vec<bool> = Vec::new();
    let mut i: usize = 0;
    while i < names.len()
        invariant
            i <= names@.len(),
            key_views(names@) == names_v,
            key_views(keys@) == ks,
            prefix@ == stream_prefix(),
            drop@ == stale_rows(names_v, ks).take(i as int),
        decreases names.len() - i,
    {
        let n = &names[i];
        let stale = if chars_start_with(n, &prefix) {
            let suffix = chars_from(n, prefix.len());
            match find_name(&keys, &suffix) {
                Some(_) => false,
                None => true,
            }
        } else {
            false
        };
        assert(n@ == names_v[i as int]);
        drop.push(stale);
        i = i + 1;
        assert(drop@ =~= stale_rows(names_v, ks).take(i as int));
    }
    assert(drop@ =~= stale_rows(names_v, ks));
    let remove = removal_positions(&drop);
    let rest = keep_names(&names, &drop);
    let ph = {
        let s = placeholder_widget_name();
        chars_of(s.as_str())
    };
    if groups.len() == 0 {
        let found = match find_name(&rest, &ph) {
            Some(_) => true,
            None => false,
        };
        return StreamRefresh {
            remove,
            reset_to_placeholder: !found,
            drop_leading_placeholder: false,
            rows: Vec::new(),
        };
    }
    let leading = rest.len() > 0 && crate::text::chars_eq(&rest[0], &ph);
    let mut base: Vec<Vec<char>> = Vec::new();
    let mut b: usize = if leading { 1 } else { 0 };
    let ghost rv = key_views(rest@);
    let ghost start = b;
    while b < rest.len()
        invariant
            start <= b <= rest@.len(),
            rv == key_views(rest@),
            base@.len() == b - start,
            key_views(base@) == rv.subrange(start as int, b as int),
        decreases rest.len() - b,
    {
        let c = rest[b].clone();
        assert(c@ == rv[b as int]);
        base.push(c);
        assert(key_views(base@)[b - start] == c@);
        b = b + 1;
        assert(key_views(base@) =~= rv.subrange(start as int, b as int));
    }
    assert(leading ==> rv.subrange(start as int, b as int) =~= rv.drop_first());
    assert(!leading ==> rv.subrange(start as int, b as int) =~= rv);
    let mut wanted: Vec<Vec<char>> = Vec::new();
    let mut g2: usize = 0;
    while g2 < groups.len()
        invariant
            g2 <= groups@.len(),
            wanted@.len() == g2,
            key_views(wanted@) == wanted_rows(groups@).take(g2 as int),
        decreases groups.len() - g2,
    {
        let w = stream_row_widget_name(groups[g2].key.as_str());
        let c = chars_of(w.as_str());
        assert(c@ == wanted_rows(groups@)[g2 as int]);
        wanted.push(c);
        assert(key_views(wanted@)[g2 as int] == c@);
        g2 = g2 + 1;
        assert(key_views(wanted@) =~= wanted_rows(groups@).take(g2 as int));
    }
    assert(wanted_rows(groups@).take(g2 as int) =~= wanted_rows(groups@));
    let rows = plan_rows(&base, &wanted);
    StreamRefresh { remove, reset_to_placeholder: false, drop_leading_placeholder: leading, rows }
}

} // verus!

verus! {

/// A name that starts with the row prefix is the row name of its suffix.
proof fn lemma_row_name_of_suffix(x: Seq<char>)
    requires
        is_prefix(stream_prefix(), x),
    ensures
        x == stream_row_name(x.skip(stream_prefix().len() as int)),
{
    assert(x =~= stream_prefix() + x.skip(stream_prefix().len() as int));
}

/// The placeholder's name does not carry the row prefix.
proof fn lemma_placeholder_not_row()
    ensures
        !is_prefix(stream_prefix(), placeholder_name()),
{
    assert(placeholder_name().subrange(0, 11)[0] != stream_prefix()[0]);
}

/// Each playing application gets exactly one slider row.
///
/// Whatever rows the container held (with no row name twice), after the
/// refresh for the grouping of `streams`: every stream's application has a
/// row; every row names the application of some stream; no row name stands
/// twice; and when nothing plays, the placeholder stands.
pub proof fn law_one_row_per_application(
    names: Seq<Seq<char>>,
    streams: Seq<crate::streams::AudioStream>,
    groups: Seq<AppGroup>,
)
    requires
        crate::streams::is_grouping(groups, streams),
        crate::widgets::unique_where(names, stream_prefix()),
    ensures
        forall|j: int|
            0 <= j < streams.len() ==> stream_refresh_result(names, groups).contains(
                stream_row_name(crate::streams::group_key(#[trigger] streams[j])),
            ),
        forall|i: int|
            0 <= i < stream_refresh_result(names, groups).len() && is_prefix(
                stream_prefix(),
                #[trigger] stream_refresh_result(names, groups)[i],
            ) ==> exists|j: int|
                0 <= j < streams.len() && stream_refresh_result(names, groups)[i] == stream_row_name(
                    crate::streams::group_key(#[trigger] streams[j]),
                ),
        crate::widgets::unique_where(stream_refresh_result(names, groups), stream_prefix()),
        streams.len() == 0 ==> stream_refresh_result(names, groups).contains(placeholder_name()),
{
    let keys = group_keys(groups);
    let drop = stale_rows(names, keys);
    let rest = rows_after_removal(names, groups);
    let out = stream_refresh_result(names, groups);
    crate::widgets::lemma_kept_members(names, drop);
    crate::widgets::lemma_kept_unique(names, drop, stream_prefix());
    lemma_placeholder_not_row();
    // Every prefixed entry kept by the removal names a current group.
    assert forall|x: Seq<char>| rest.contains(x) && is_prefix(stream_prefix(), x) implies exists|g: int|
        0 <= g < groups.len() && x == stream_row_name(groups[g].key@) by {
        let j = choose|j: int| 0 <= j < names.len() && names[j] == x && !drop[j];
        assert(!is_stale_row(names[j], keys));
        let suffix = x.skip(stream_prefix().len() as int);
        let g = choose|g: int| 0 <= g < keys.len() && keys[g] == suffix;
        lemma_row_name_of_suffix(x);
    }
    // A group's row names the application of one of its streams.
    assert forall|g: int| 0 <= g < groups.len() implies exists|j: int|
        0 <= j < streams.len() && (#[trigger] groups[g]).key@ == crate::streams::group_key(
            #[trigger] streams[j],
        ) by {
        assert(crate::streams::is_group_of(groups[g], streams));
        crate::streams::lemma_members_witness(streams, groups[g].key@);
    }
    if groups.len() == 0 {
        assert forall|i: int| 0 <= i < out.len() implies !is_prefix(stream_prefix(), #[trigger] out[i]) by {
            if rest.contains(placeholder_name()) {
                assert(rest.contains(out[i]));
            }
        }
        if streams.len() > 0 {
            assert(crate::streams::has_group(groups, streams[0]));
        }
        if !rest.contains(placeholder_name()) {
            assert(out[0] == placeholder_name());
        }
    } else {
        let base = rows_base(names, groups);
        let wanted = wanted_rows(groups);
        crate::widgets::lemma_after_rows_members(base, wanted);
        if leads_with_placeholder(rest) {
            crate::widgets::lemma_drop_first_unique(rest, stream_prefix());
            assert forall|x: Seq<char>| base.contains(x) implies rest.contains(x) by {
                let i = choose|i: int| 0 <= i < base.len() && base[i] == x;
                assert(rest[i + 1] == x);
            }
        }
        crate::widgets::lemma_after_rows_unique(base, wanted, stream_prefix());
        assert forall|j: int| 0 <= j < streams.len() implies out.contains(
            stream_row_name(crate::streams::group_key(#[trigger] streams[j])),
        ) by {
            assert(crate::streams::has_group(groups, streams[j]));
            let g = choose|g: int| 0 <= g < groups.len() && (#[trigger] groups[g]).key@ == crate::streams::group_key(streams[j]);
            assert(wanted[g] == stream_row_name(groups[g].key@));
        }
        assert forall|i: int| 0 <= i < out.len() && is_prefix(stream_prefix(), #[trigger] out[i]) implies exists|j: int|
            0 <= j < streams.len() && out[i] == stream_row_name(crate::streams::group_key(#[trigger] streams[j])) by {
            assert(out.contains(out[i]));
            if wanted.contains(out[i]) {
                let g = choose|g: int| 0 <= g < wanted.len() && wanted[g] == out[i];
                assert(wanted[g] == stream_row_name(groups[g].key@));
            } else {
                assert(rest.contains(out[i]));
            }
        }
    }
}

/// A refresh with an unchanged audio state changes nothing: on the list that
/// a refresh for `groups` produced, a second refresh for the same `groups`
/// removes no widget, does not reset to the placeholder, and refreshes every
/// row in place, creating none.
pub proof fn law_refresh_is_stable(names: Seq<Seq<char>>, groups: Seq<AppGroup>, r: StreamRefresh)
    requires
        is_stream_refresh(stream_refresh_result(names, groups), groups, r),
    ensures
        r.remove@.len() == 0,
        !r.reset_to_placeholder,
        forall|i: int| 0 <= i < r.rows@.len() ==> (#[trigger] r.rows@[i]) is Update,
{
    let keys = group_keys(groups);
    let out = stream_refresh_result(names, groups);
    let drop1 = stale_rows(names, keys);
    let rest1 = rows_after_removal(names, groups);
    let drop2 = stale_rows(out, keys);
    crate::widgets::lemma_kept_members(names, drop1);
    lemma_placeholder_not_row();
    // Nothing in the refreshed list is stale.
    assert forall|i: int| 0 <= i < out.len() implies !drop2[i] by {
        let x = out[i];
        assert(out.contains(x));
        if is_prefix(stream_prefix(), x) {
            let suffix = x.skip(stream_prefix().len() as int);
            if groups.len() == 0 {
                if rest1.contains(placeholder_name()) {
                    let j = choose|j: int| 0 <= j < names.len() && names[j] == x && !drop1[j];
                }
            } else {
                let base = rows_base(names, groups);
                let wanted = wanted_rows(groups);
                crate::widgets::lemma_after_rows_members(base, wanted);
                if wanted.contains(x) {
                    let g = choose|g: int| 0 <= g < wanted.len() && wanted[g] == x;
                    assert(x =~= stream_prefix() + groups[g].key@);
                    assert(suffix =~= groups[g].key@);
                    assert(keys[g] == groups[g].key@);
                } else {
                    if leads_with_placeholder(rest1) {
                        let k = choose|k: int| 0 <= k < base.len() && base[k] == x;
                        assert(rest1[k + 1] == x);
                    }
                    assert(rest1.contains(x));
                    let j = choose|j: int| 0 <= j < names.len() && names[j] == x && !drop1[j];
                }
            }
        }
    }
    crate::widgets::lemma_kept_none(out, drop2);
    crate::widgets::lemma_no_removal(r.remove@, drop2, out.len() as int);
    if groups.len() == 0 {
        if !rest1.contains(placeholder_name()) {
            assert(out[0] == placeholder_name());
        }
    } else {
        let base1 = rows_base(names, groups);
        let wanted = wanted_rows(groups);
        crate::widgets::lemma_after_rows_members(base1, wanted);
        let base2 = rows_base(out, groups);
        assert forall|k: int| 0 <= k < wanted.len() implies base2.contains(#[trigger] wanted[k]) by {
            assert(out.contains(wanted[k]));
            let i = choose|i: int| 0 <= i < out.len() && out[i] == wanted[k];
            assert(is_prefix(stream_prefix(), wanted[k])) by {
                assert(wanted[k].subrange(0, 11) =~= stream_prefix());
            }
            if leads_with_placeholder(out) {
                assert(i > 0);
                assert(base2[i - 1] == wanted[k]);
            }
        }
        crate::widgets::lemma_steps_all_update(base2, wanted, r.rows@);
    }
}

/// The stream indices that each group's slider controls, in group order.
pub open spec fn group_indices(groups: Seq<AppGroup>) -> Seq<Seq<u32>> {
    groups.map_values(|g: AppGroup| g.indices@)
}

/// The application rows after `r` is carried out on `rows`, each row's state
/// being the stream indices its slider controls: the listed positions are
/// removed; a reset leaves only a new placeholder (identity `fresh`); with
/// groups, a leading placeholder is removed and each group's step refreshes
/// its row in place with the group's indices or appends a new row.
pub open spec fn apply_stream_refresh(
    rows: Seq<RowModel<Seq<u32>>>,
    groups: Seq<AppGroup>,
    r: StreamRefresh,
    fresh: int,
) -> Seq<RowModel<Seq<u32>>> {
    let rest = kept(rows, removal_flags(r.remove@, rows.len() as int));
    if r.reset_to_placeholder {
        seq![RowModel { id: fresh, name: placeholder_name(), attr: Seq::<u32>::empty() }]
    } else if groups.len() == 0 {
        rest
    } else {
        let base = if r.drop_leading_placeholder { rest.drop_first() } else { rest };
        apply_steps(base, wanted_rows(groups), group_indices(groups), r.rows@, fresh)
    }
}

/// A row list as refreshes leave it: no name twice, every widget a slider row
/// or the placeholder, and the placeholder only ever alone.
pub open spec fn stream_list_ok(names: Seq<Seq<char>>) -> bool {
    &&& distinct(names)
    &&& forall|i: int|
        0 <= i < names.len() ==> is_prefix(stream_prefix(), #[trigger] names[i]) || names[i]
            == placeholder_name()
    &&& names.contains(placeholder_name()) ==> names.len() == 1
}

/// Row names of distinct keys are distinct.
proof fn lemma_wanted_rows_distinct(groups: Seq<AppGroup>)
    requires
        crate::streams::keys_sorted(groups),
    ensures
        distinct(wanted_rows(groups)),
{
    let w = wanted_rows(groups);
    assert forall|a: int, b: int| 0 <= a < b < w.len() implies w[a] != w[b] by {
        if w[a] == w[b] {
            assert(w[a].skip(11) =~= groups[a].key@);
            assert(w[b].skip(11) =~= groups[b].key@);
            crate::text::lemma_lex_irreflexive(groups[a].key@);
        }
    }
}

/// Every refresh keeps a row list well formed, starting from the empty
/// container: afterwards no name stands twice, and the placeholder stands
/// exactly when nothing plays, and then as the only widget.
pub proof fn law_row_list_stays_well_formed(names: Seq<Seq<char>>, groups: Seq<AppGroup>)
    requires
        stream_list_ok(names),
    ensures
        stream_list_ok(Seq::<Seq<char>>::empty()),
        stream_list_ok(stream_refresh_result(names, groups)),
        stream_refresh_result(names, groups).contains(placeholder_name()) <==> groups.len() == 0,
        groups.len() == 0 ==> stream_refresh_result(names, groups) == seq![placeholder_name()],
{
    let keys = group_keys(groups);
    let drop = stale_rows(names, keys);
    let rest = rows_after_removal(names, groups);
    let out = stream_refresh_result(names, groups);
    let e = Seq::<char>::empty();
    crate::widgets::lemma_kept_members(names, drop);
    crate::widgets::lemma_distinct_unique(names);
    crate::widgets::lemma_kept_unique(names, drop, e);
    crate::widgets::lemma_distinct_unique(rest);
    lemma_placeholder_not_row();
    // What stays is a kept slider row of a current group, or the placeholder.
    assert forall|x: Seq<char>| rest.contains(x) implies x == placeholder_name() || (is_prefix(
        stream_prefix(),
        x,
    ) && keys.contains(x.skip(11))) by {
        let j = choose|j: int| 0 <= j < names.len() && names[j] == x && !drop[j];
        assert(is_prefix(stream_prefix(), names[j]) || names[j] == placeholder_name());
    }
    if rest.contains(placeholder_name()) {
        let j = choose|j: int| 0 <= j < names.len() && names[j] == placeholder_name() && !drop[j];
        assert(names.contains(placeholder_name()));
        if rest.len() > 1 {
            assert(rest.contains(rest[0]) && rest.contains(rest[1]));
            let j0 = choose|k: int| 0 <= k < names.len() && names[k] == rest[0] && !drop[k];
            let j1 = choose|k: int| 0 <= k < names.len() && names[k] == rest[1] && !drop[k];
            assert(rest[0] != rest[1]);
        }
        assert(rest[0] == placeholder_name()) by {
            let k = choose|k: int| 0 <= k < rest.len() && rest[k] == placeholder_name();
        }
    }
    if groups.len() == 0 {
        if rest.len() > 0 {
            assert(rest.contains(rest[0]));
            if rest.len() > 1 {
                assert(rest.contains(rest[1]));
            }
        }
        if rest.contains(placeholder_name()) {
            assert(rest =~= seq![placeholder_name()]);
        } else {
            if rest.len() > 0 {
                assert(rest.contains(rest[0]));
            }
        }
        assert(out =~= seq![placeholder_name()]);
        assert(out.contains(placeholder_name())) by {
            assert(out[0] == placeholder_name());
        }
        assert(distinct(out));
    } else {
        let base = rows_base(names, groups);
        let wanted = wanted_rows(groups);
        crate::widgets::lemma_after_rows_members(base, wanted);
        assert forall|x: Seq<char>| base.contains(x) implies rest.contains(x) && x != placeholder_name() by {
            let i = choose|i: int| 0 <= i < base.len() && base[i] == x;
            if leads_with_placeholder(rest) {
                assert(rest[i + 1] == x);
                if x == placeholder_name() {
                    assert(rest[0] == rest[i + 1]);
                }
            } else {
                assert(rest[i] == x);
            }
        }
        if leads_with_placeholder(rest) {
            crate::widgets::lemma_drop_first_unique(rest, e);
        }
        crate::widgets::lemma_distinct_unique(base);
        crate::widgets::lemma_after_rows_unique(base, wanted, e);
        crate::widgets::lemma_distinct_unique(out);
        assert forall|k: int| 0 <= k < wanted.len() implies is_prefix(stream_prefix(), #[trigger] wanted[k]) by {
            assert(wanted[k].subrange(0, 11) =~= stream_prefix());
        }
        assert forall|i: int| 0 <= i < out.len() implies is_prefix(stream_prefix(), #[trigger] out[i]) by {
            assert(out.contains(out[i]));
            if wanted.contains(out[i]) {
                let k = choose|k: int| 0 <= k < wanted.len() && wanted[k] == out[i];
            }
        }
        assert(wanted[0] == stream_row_name(groups[0].key@));
        assert(out.contains(wanted[0]));
        if out.contains(placeholder_name()) {
            let i = choose|i: int| 0 <= i < out.len() && out[i] == placeholder_name();
            assert(is_prefix(stream_prefix(), out[i]));
        }
    }
}

/// A slider row that stays is refreshed in place. Carrying out the refresh
/// gives the names of `stream_refresh_result`; the first widget named for a
/// group controls exactly that group's streams; and every widget named for a
/// current group stays the same widget (identity and name), controlling the
/// group's streams when it is the first of its name (the one the lookup
/// finds) and keeping what it controlled otherwise.
pub proof fn law_row_refreshed_in_place(
    rows: Seq<RowModel<Seq<u32>>>,
    groups: Seq<AppGroup>,
    r: StreamRefresh,
    fresh: int,
)
    requires
        is_stream_refresh(row_names(rows), groups, r),
        crate::streams::keys_sorted(groups),
    ensures
        ({
            let out = apply_stream_refresh(rows, groups, r, fresh);
            &&& row_names(out) == stream_refresh_result(row_names(rows), groups)
            &&& forall|q: int, h: int|
                0 <= q < out.len() && 0 <= h < groups.len() && (#[trigger] out[q]).name
                    == stream_row_name((#[trigger] groups[h]).key@) && is_first(row_names(out), q)
                    ==> out[q].attr == groups[h].indices@
            &&& forall|i: int, h: int|
                0 <= i < rows.len() && 0 <= h < groups.len() && (#[trigger] rows[i]).name
                    == stream_row_name((#[trigger] groups[h]).key@) ==> exists|q: int|
                    0 <= q < out.len() && out[q].id == rows[i].id && out[q].name == rows[i].name && if is_first(
                        row_names(rows),
                        i,
                    ) {
                        out[q].attr == groups[h].indices@
                    } else {
                        out[q].attr == rows[i].attr
                    }
        }),
{
    let names = row_names(rows);
    let keys = group_keys(groups);
    let drop = stale_rows(names, keys);
    crate::widgets::lemma_removal_flags(r.remove@, drop, names.len() as int);
    let rest_rows = kept(rows, drop);
    crate::widgets::lemma_kept_names(rows, drop);
    let rest = rows_after_removal(names, groups);
    assert(row_names(rest_rows) == rest);
    let out = apply_stream_refresh(rows, groups, r, fresh);
    lemma_placeholder_not_row();
    if groups.len() == 0 {
        if r.reset_to_placeholder {
            assert(row_names(out) =~= seq![placeholder_name()]);
        }
    } else {
        let base_rows = if r.drop_leading_placeholder { rest_rows.drop_first() } else { rest_rows };
        assert(row_names(base_rows) =~= rows_base(names, groups));
        lemma_wanted_rows_distinct(groups);
        let wanted = wanted_rows(groups);
        let attrs = group_indices(groups);
        crate::widgets::lemma_apply_steps(base_rows, wanted, attrs, r.rows@, fresh);
        assert(wanted.take(r.rows@.len() as int) =~= wanted);
        assert(out == apply_steps(base_rows, wanted, attrs, r.rows@, fresh));
        assert forall|q: int, h: int|
            0 <= q < out.len() && 0 <= h < groups.len() && (#[trigger] out[q]).name == stream_row_name(
                (#[trigger] groups[h]).key@,
            ) && is_first(row_names(out), q) implies out[q].attr == groups[h].indices@ by {
            assert(wanted[h] == stream_row_name(groups[h].key@));
            assert(attrs[h] == groups[h].indices@);
        }
        assert forall|i: int, h: int|
            0 <= i < rows.len() && 0 <= h < groups.len() && (#[trigger] rows[i]).name == stream_row_name(
                (#[trigger] groups[h]).key@,
            ) implies exists|q: int|
            0 <= q < out.len() && out[q].id == rows[i].id && out[q].name == rows[i].name && if is_first(
                names,
                i,
            ) {
                out[q].attr == groups[h].indices@
            } else {
                out[q].attr == rows[i].attr
            } by {
            let x = rows[i].name;
            assert(names[i] == x);
            assert(x.skip(11) =~= groups[h].key@);
            assert(keys[h] == groups[h].key@);
            assert(!drop[i]);
            assert(is_prefix(stream_prefix(), x)) by {
                assert(x.subrange(0, 11) =~= stream_prefix());
            }
            let k = crate::widgets::lemma_kept_index(rows, drop, i);
            let shift: int = if r.drop_leading_placeholder { 1 } else { 0 };
            if r.drop_leading_placeholder {
                assert(rest[0] == placeholder_name());
                assert(row_names(rest_rows)[k] == x);
                assert(k != 0);
            }
            let kb = k - shift;
            assert(base_rows[kb] == rows[i]);
            assert(out[kb].id == rows[i].id && out[kb].name == x);
            assert(wanted[h] == x);
            if is_first(names, i) {
                assert forall|q: int| 0 <= q < kb implies row_names(out)[q] != row_names(out)[kb] by {
                    assert(row_names(out)[q] == base_rows[q].name);
                    assert(base_rows[q] == rest_rows[q + shift]);
                    let j = choose|j: int| 0 <= j < i && !drop[j] && #[trigger] rest_rows[q + shift] == rows[j];
                    assert(names[j] == rows[j].name);
                }
                assert forall|hh: int| h < hh < r.rows@.len() implies wanted[hh] != wanted[h] by {
                    assert(wanted[h] != wanted[hh]);
                }
                assert(out[kb].attr == attrs[h]);
            } else {
                let j = choose|j: int| 0 <= j < i && names[j] == names[i];
                assert(drop[j] == drop[i]);
                let qq = choose|qq: int| 0 <= qq < k && rest_rows[qq] == #[trigger] rows[j];
                if r.drop_leading_placeholder {
                    assert(qq != 0) by {
                        assert(row_names(rest_rows)[qq] == rows[j].name);
                    }
                }
                assert(base_rows[qq - shift] == rows[j]);
                assert(row_names(out)[qq - shift] == row_names(out)[kb]);
                assert(!is_first(row_names(out), kb));
                assert(out[kb].attr == base_rows[kb].attr);
            }
        }
    }
}

/// Two groupings of the same streams give the same refresh: the same keys,
/// wanted rows and controlled indices.
proof fn lemma_regrouping_same_refresh(
    names: Seq<Seq<char>>,
    g1: Seq<AppGroup>,
    g2: Seq<AppGroup>,
    streams: Seq<crate::streams::AudioStream>,
)
    requires
        crate::streams::is_grouping(g1, streams),
        crate::streams::is_grouping(g2, streams),
    ensures
        group_keys(g1) == group_keys(g2),
        wanted_rows(g1) == wanted_rows(g2),
        group_indices(g1) == group_indices(g2),
        stream_refresh_result(names, g1) == stream_refresh_result(names, g2),
{
    crate::streams::law_grouping_is_unique(g1, g2, streams);
    assert(group_keys(g1) =~= group_keys(g2));
    assert(wanted_rows(g1) =~= wanted_rows(g2));
    assert(group_indices(g1) =~= group_indices(g2));
    assert(stale_rows(names, group_keys(g1)) == stale_rows(names, group_keys(g2)));
    assert(rows_after_removal(names, g1) == rows_after_removal(names, g2));
    assert(rows_base(names, g1) == rows_base(names, g2));
}

/// Refreshing twice with the same streams changes nothing the second time,
/// though the streams are grouped anew: on a container that refreshes built
/// (`stream_list_ok`), after a refresh for a grouping of `streams`, a refresh
/// for any grouping of the same streams removes no widget, neither resets nor
/// drops the placeholder, creates no row, and leaves every widget as it was
/// (identity, name and controlled streams), in the same order.
pub proof fn law_second_refresh_changes_nothing(
    rows: Seq<RowModel<Seq<u32>>>,
    streams: Seq<crate::streams::AudioStream>,
    g1: Seq<AppGroup>,
    g2: Seq<AppGroup>,
    r1: StreamRefresh,
    r2: StreamRefresh,
    fresh1: int,
    fresh2: int,
)
    requires
        crate::streams::is_grouping(g1, streams),
        crate::streams::is_grouping(g2, streams),
        stream_list_ok(row_names(rows)),
        is_stream_refresh(row_names(rows), g1, r1),
        is_stream_refresh(row_names(apply_stream_refresh(rows, g1, r1, fresh1)), g2, r2),
    ensures
        r2.remove@.len() == 0,
        !r2.reset_to_placeholder,
        !r2.drop_leading_placeholder,
        forall|i: int| 0 <= i < r2.rows@.len() ==> (#[trigger] r2.rows@[i]) is Update,
        apply_stream_refresh(apply_stream_refresh(rows, g1, r1, fresh1), g2, r2, fresh2)
            == apply_stream_refresh(rows, g1, r1, fresh1),
{
    let names = row_names(rows);
    let rows2 = apply_stream_refresh(rows, g1, r1, fresh1);
    let res = stream_refresh_result(names, g1);
    lemma_regrouping_same_refresh(names, g1, g2, streams);
    law_row_refreshed_in_place(rows, g1, r1, fresh1);
    assert(row_names(rows2) == res);
    law_refresh_is_stable(names, g2, r2);
    law_row_list_stays_well_formed(names, g1);
    let keys = group_keys(g2);
    let drop2 = stale_rows(res, keys);
    assert forall|i: int| 0 <= i < res.len() implies !drop2[i] by {
        if drop2[i] {
            let a = choose|a: int| 0 <= a < r2.remove@.len() && r2.remove@[a] as int == i;
        }
    }
    crate::widgets::lemma_kept_none(res, drop2);
    crate::widgets::lemma_kept_none(rows2, removal_flags(r2.remove@, rows2.len() as int));
    assert(g1.len() == g2.len());
    if g2.len() > 0 {
        assert(!res.contains(placeholder_name()));
        if res.len() > 0 {
            assert(res.contains(res[0]));
        }
        let wanted = wanted_rows(g2);
        let attrs = group_indices(g2);
        let base1 = rows_base(names, g1);
        crate::widgets::lemma_after_rows_members(base1, wanted_rows(g1));
        assert forall|k: int| 0 <= k < wanted.len() implies res.contains(#[trigger] wanted[k]) by {}
        assert forall|g: int| 0 <= g < r2.rows@.len() implies match #[trigger] r2.rows@[g] {
            RowStep::Update(p) => p < rows2.len() && rows2[p as int].attr == attrs[g],
            RowStep::Create => false,
        } by {
            assert forall|k: int| 0 <= k < wanted.take(g).len() implies res.contains(#[trigger] wanted.take(g)[k]) by {
                assert(wanted.take(g)[k] == wanted[k]);
            }
            crate::widgets::lemma_after_rows_present(res, wanted.take(g));
            match r2.rows@[g] {
                RowStep::Update(p) => {
                    assert(res[p as int] == wanted[g]);
                    assert(rows2[p as int].name == res[p as int]);
                    assert(wanted[g] == stream_row_name(g1[g].key@));
                    assert(is_first(row_names(rows2), p as int));
                    assert(attrs[g] == g1[g].indices@);
                },
                RowStep::Create => {
                    assert(res.contains(wanted[g]));
                },
            }
        }
        crate::widgets::lemma_updates_keep_rows(rows2, wanted, attrs, r2.rows@, fresh2);
    }
}

} // verus!
