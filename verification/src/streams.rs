//! Grouping of playback streams into one volume control per application.

use vstd::prelude::*;
use crate::decimal::{decimal, u32_to_decimal};
use crate::text::{chars_eq, chars_of, key_views, lex_less, lex_lt, string_of};

verus! {

/// One playback stream (a PulseAudio sink input).
pub struct AudioStream {
    /// The sink input's index.
    pub index: u32,
    /// The application name, `"Unknown"` when the stream does not give one.
    pub app_name: String,
    /// The volume in percent.
    pub volume: u32,
}

/// The streams of one application, shown as a single slider.
pub struct AppGroup {
    /// The grouping key (also the suffix of the slider widget's name).
    pub key: String,
    /// The application name of the group's first stream.
    pub display_name: String,
    /// The indices of the group's streams, in input order.
    pub indices: Vec<u32>,
    /// The mean volume of the group's streams, rounded down.
    pub avg_volume: u32,
}

/// The name that streams without an application name carry.
pub open spec fn unknown_name() -> Seq<char> {
    seq!['U', 'n', 'k', 'n', 'o', 'w', 'n']
}

/// The key by which a stream is grouped: its application name, except that a
/// stream named `Unknown` gets a key of its own, `Unknown`, the unit separator
/// and its index, since such streams are unrelated applications.
pub open spec fn group_key(s: AudioStream) -> Seq<char> {
    if s.app_name@ == unknown_name() {
        unknown_name().push('\u{1f}') + decimal(s.index as nat)
    } else {
        s.app_name@
    }
}

/// The streams of `streams` whose key is `key`, in order.
pub open spec fn members(streams: Seq<AudioStream>, key: Seq<char>) -> Seq<AudioStream>
    decreases streams.len(),
{
    if streams.len() == 0 {
        Seq::empty()
    } else {
        let rest = members(streams.drop_last(), key);
        if group_key(streams.last()) == key {
            rest.push(streams.last())
        } else {
            rest
        }
    }
}

/// The sum of the volumes of `s`.
pub open spec fn volume_total(s: Seq<AudioStream>) -> int
    decreases s.len(),
{
    if s.len() == 0 {
        0
    } else {
        volume_total(s.drop_last()) + s.last().volume
    }
}

/// The indices of `s`, in order.
pub open spec fn stream_indices(s: Seq<AudioStream>) -> Seq<u32> {
    s.map_values(|x: AudioStream| x.index)
}

/// `g` is the group of key `g.key` over `streams`: it has at least one
/// member, lists the members' indices in order, is named after its first
/// member, and carries their mean volume rounded down.
pub open spec fn is_group_of(g: AppGroup, streams: Seq<AudioStream>) -> bool {
    let m = members(streams, g.key@);
    &&& m.len() > 0
    &&& g.indices@ == stream_indices(m)
    &&& g.display_name@ == m[0].app_name@
    &&& g.avg_volume as int == volume_total(m) / (m.len() as int)
}

/// The keys of `groups` stand in strictly increasing `String` order.
pub open spec fn keys_sorted(groups: Seq<AppGroup>) -> bool {
    forall|i: int, j: int| 0 <= i < j < groups.len() ==> lex_lt(groups[i].key@, groups[j].key@)
}

/// `groups` is the grouping of `streams`: one group per key that occurs,
/// in key order.
pub open spec fn is_grouping(groups: Seq<AppGroup>, streams: Seq<AudioStream>) -> bool {
    &&& keys_sorted(groups)
    &&& forall|i: int| 0 <= i < groups.len() ==> is_group_of(#[trigger] groups[i], streams)
    &&& forall|j: int| 0 <= j < streams.len() ==> #[trigger] has_group(groups, streams[j])
}

/// Some group of `groups` has the key of `s`.
pub open spec fn has_group(groups: Seq<AppGroup>, s: AudioStream) -> bool {
    exists|i: int| 0 <= i < groups.len() && (#[trigger] groups[i]).key@ == group_key(s)
}

/// A stream whose key is `key` makes `members` non-empty.
pub proof fn lemma_members_nonempty(streams: Seq<AudioStream>, key: Seq<char>, j: int)
    requires
        0 <= j < streams.len(),
        group_key(streams[j]) == key,
    ensures
        members(streams, key).len() > 0,
    decreases streams.len(),
{
    if j < streams.len() - 1 {
        lemma_members_nonempty(streams.drop_last(), key, j);
    }
}

/// Non-empty `members` come from a stream of that key.
pub proof fn lemma_members_witness(streams: Seq<AudioStream>, key: Seq<char>)
    requires
        members(streams, key).len() > 0,
    ensures
        exists|j: int| 0 <= j < streams.len() && group_key(#[trigger] streams[j]) == key,
    decreases streams.len(),
{
    if group_key(streams.last()) != key {
        lemma_members_witness(streams.drop_last(), key);
        let j = choose|j: int|
            0 <= j < streams.drop_last().len() && group_key(#[trigger] streams.drop_last()[j]) == key;
        assert(streams[j] == streams.drop_last()[j]);
    }
}

/// Taking one more stream extends `members` by that stream when its key matches.
proof fn lemma_members_step(streams: Seq<AudioStream>, key: Seq<char>, j: int)
    requires
        0 <= j < streams.len(),
    ensures
        members(streams.take(j + 1), key) == if group_key(streams[j]) == key {
            members(streams.take(j), key).push(streams[j])
        } else {
            members(streams.take(j), key)
        },
{
    assert(streams.take(j + 1).drop_last() =~= streams.take(j));
}

/// The grouping key of `stream`.
pub fn stream_group_key(stream: &AudioStream) -> (k: String)
    ensures
        k@ == group_key(*stream),
{
    proof {
        reveal_strlit("Unknown");
        reveal_strlit("Unknown\u{1f}");
        assert("Unknown"@ =~= unknown_name());
        assert("Unknown\u{1f}"@ =~= unknown_name().push('\u{1f}'));
    }
    if crate::text::str_eq(stream.app_name.as_str(), "Unknown") {
        let mut k = String::from_str("Unknown\u{1f}");
        let d = u32_to_decimal(stream.index);
        k.append(d.as_str());
        assert(k@ =~= group_key(*stream));
        k
    } else {
        stream.app_name.clone()
    }
}

/// `s` stands in strictly increasing `String` order.
pub open spec fn strictly_sorted(s: Seq<Seq<char>>) -> bool {
    forall|i: int, j: int| 0 <= i < j < s.len() ==> lex_lt(s[i], s[j])
}

/// Every element of `b` occurs in `a`.
pub open spec fn covers(a: Seq<Seq<char>>, b: Seq<Seq<char>>) -> bool {
    forall|j: int| 0 <= j < b.len() ==> a.contains(#[trigger] b[j])
}

/// Inserting a key at its place keeps a sorted list sorted.
proof fn lemma_insert_sorted(s: Seq<Seq<char>>, p: int, k: Seq<char>)
    requires
        strictly_sorted(s),
        0 <= p <= s.len(),
        forall|q: int| 0 <= q < p ==> lex_lt(#[trigger] s[q], k),
        p < s.len() ==> lex_lt(k, s[p]),
    ensures
        strictly_sorted(s.insert(p, k)),
        s.insert(p, k).len() == s.len() + 1,
{
    let t = s.insert(p, k);
    assert forall|a: int, b: int| 0 <= a < b < t.len() implies lex_lt(t[a], t[b]) by {
        if b < p {
            assert(t[a] == s[a] && t[b] == s[b]);
        } else if a < p && b == p {
            assert(t[a] == s[a]);
        } else if a < p {
            assert(t[a] == s[a] && t[b] == s[b - 1]);
            if b - 1 > p {
                assert(lex_lt(s[p], s[b - 1]));
                crate::text::lemma_lex_transitive(k, s[p], s[b - 1]);
            }
            crate::text::lemma_lex_transitive(s[a], k, s[b - 1]);
        } else if a == p {
            assert(t[b] == s[b - 1]);
            if b - 1 > p {
                assert(lex_lt(s[p], s[b - 1]));
                crate::text::lemma_lex_transitive(k, s[p], s[b - 1]);
            }
        } else {
            assert(t[a] == s[a - 1] && t[b] == s[b - 1]);
        }
    }
}

/// Inserting keeps every old element and adds the new one.
proof fn lemma_insert_contains(s: Seq<Seq<char>>, p: int, k: Seq<char>)
    requires
        0 <= p <= s.len(),
    ensures
        s.insert(p, k).contains(k),
        forall|x: Seq<char>| s.contains(x) ==> #[trigger] s.insert(p, k).contains(x),
        forall|i: int| 0 <= i < s.insert(p, k).len() ==> s.contains(#[trigger] s.insert(p, k)[i]) || s.insert(p, k)[i] == k,
{
    let t = s.insert(p, k);
    assert(t[p] == k);
    assert forall|x: Seq<char>| s.contains(x) implies #[trigger] t.contains(x) by {
        let i = choose|i: int| 0 <= i < s.len() && s[i] == x;
        if i < p {
            assert(t[i] == x);
        } else {
            assert(t[i + 1] == x);
        }
    }
    assert forall|i: int| 0 <= i < t.len() implies s.contains(#[trigger] t[i]) || t[i] == k by {
        if i < p {
            assert(t[i] == s[i]);
        } else if i > p {
            assert(t[i] == s[i - 1]);
        }
    }
}

/// The distinct keys of `keys_of`, in strictly increasing `String` order.
fn sorted_keys(keys_of: &Vec<Vec<char>>) -> (keys: Vec<Vec<char>>)
    ensures
        strictly_sorted(key_views(keys@)),
        covers(key_views(keys_of@), key_views(keys@)),
        covers(key_views(keys@), key_views(keys_of@)),
{
    let ghost all = key_views(keys_of@);
    let mut keys: Vec<Vec<char>> = Vec::new();
    let mut j: usize = 0;
    assert(key_views(keys@) =~= Seq::<Seq<char>>::empty());
    while j < keys_of.len()
        invariant
            j <= keys_of@.len(),
            all == key_views(keys_of@),
            strictly_sorted(key_views(keys@)),
            covers(all, key_views(keys@)),
            covers(key_views(keys@), all.take(j as int)),
        decreases keys_of.len() - j,
    {
        let ghost kv = key_views(keys@);
        let k = &keys_of[j];
        assert(all[j as int] == k@);
        let mut p: usize = 0;
        while p < keys.len() && lex_less(&keys[p], k)
            invariant
                p <= keys@.len(),
                kv == key_views(keys@),
                forall|q: int| 0 <= q < p ==> lex_lt(#[trigger] kv[q], k@),
            decreases keys.len() - p,
        {
            p = p + 1;
        }
        let present = p < keys.len() && chars_eq(&keys[p], k);
        if !present {
            proof {
                if p < keys@.len() {
                    crate::text::lemma_lex_total(kv[p as int], k@);
                }
                lemma_insert_sorted(kv, p as int, k@);
                lemma_insert_contains(kv, p as int, k@);
            }
            keys.insert(p, k.clone());
            assert(key_views(keys@) =~= kv.insert(p as int, k@));
            assert forall|t: int| 0 <= t < key_views(keys@).len() implies all.contains(
                #[trigger] key_views(keys@)[t],
            ) by {
                if key_views(keys@)[t] != k@ {
                    assert(kv.contains(key_views(keys@)[t]));
                    let i = choose|i: int| 0 <= i < kv.len() && kv[i] == key_views(keys@)[t];
                    assert(all.contains(kv[i]));
                } else {
                    assert(all[j as int] == k@);
                }
            }
            assert forall|t: int| 0 <= t < all.take(j + 1).len() implies key_views(keys@).contains(
                #[trigger] all.take(j + 1)[t],
            ) by {
                if t < j {
                    assert(all.take(j as int)[t] == all.take(j + 1)[t]);
                    assert(kv.contains(all.take(j as int)[t]));
                }
            }
        } else {
            assert(kv[p as int] == k@);
            assert forall|t: int| 0 <= t < all.take(j + 1).len() implies kv.contains(
                #[trigger] all.take(j + 1)[t],
            ) by {
                if t < j {
                    assert(all.take(j as int)[t] == all.take(j + 1)[t]);
                }
            }
        }
        j = j + 1;
    }
    assert(all.take(j as int) =~= all);
    keys
}

/// Groups `streams` by key, as the popup shows them: one group per key, in
/// `String` order of the keys; each group lists its streams' indices in
/// input order, is named after its first stream, and carries the mean of
/// their volumes rounded down.
pub fn group_streams(streams: &Vec<AudioStream>) -> (groups: Vec<AppGroup>)
    ensures
        is_grouping(groups@, streams@),
{
    let keys_of = keys_of_streams(streams);
    let keys = sorted_keys(&keys_of);
    let mut groups: Vec<AppGroup> = Vec::new();
    let mut g: usize = 0;
    while g < keys.len()
        invariant
            g <= keys@.len(),
            groups@.len() == g,
            keys_of@.len() == streams@.len(),
            forall|t: int| 0 <= t < keys_of@.len() ==> (#[trigger] keys_of@[t])@ == group_key(
                streams@[t],
            ),
            strictly_sorted(key_views(keys@)),
            covers(key_views(keys_of@), key_views(keys@)),
            covers(key_views(keys@), key_views(keys_of@)),
            forall|i: int| 0 <= i < g ==> (#[trigger] groups@[i]).key@ == keys@[i]@,
            forall|i: int| 0 <= i < g ==> is_group_of(#[trigger] groups@[i], streams@),
        decreases keys.len() - g,
    {
        proof {
            assert(key_views(keys_of@).contains(key_views(keys@)[g as int]));
            let t = choose|t: int|
                0 <= t < keys_of@.len() && key_views(keys_of@)[t] == key_views(keys@)[g as int];
            assert(keys_of@[t]@ == group_key(streams@[t]));
            lemma_members_nonempty(streams@, keys@[g as int]@, t);
        }
        let group = collect_group(streams, &keys_of, &keys[g]);
        groups.push(group);
        g = g + 1;
    }
    assert forall|j: int| 0 <= j < streams@.len() implies #[trigger] has_group(groups@, streams@[j]) by {
        assert(keys_of@[j]@ == group_key(streams@[j]));
        assert(key_views(keys@).contains(key_views(keys_of@)[j]));
        let i = choose|i: int| 0 <= i < keys@.len() && key_views(keys@)[i] == key_views(keys_of@)[j];
        assert(groups@[i].key@ == keys@[i]@);
    }
    assert forall|a: int, b: int| 0 <= a < b < groups@.len() implies lex_lt(
        groups@[a].key@,
        groups@[b].key@,
    ) by {
        assert(key_views(keys@)[a] == groups@[a].key@);
        assert(key_views(keys@)[b] == groups@[b].key@);
    }
    assert(keys_sorted(groups@));
    assert(forall|i: int| 0 <= i < groups@.len() ==> is_group_of(#[trigger] groups@[i], streams@));
    groups
}

/// The key of each stream, as characters.
fn keys_of_streams(streams: &Vec<AudioStream>) -> (keys_of: Vec<Vec<char>>)
    ensures
        keys_of@.len() == streams@.len(),
        forall|t: int| 0 <= t < keys_of@.len() ==> (#[trigger] keys_of@[t])@ == group_key(streams@[t]),
{
    let mut keys_of: Vec<Vec<char>> = Vec::new();
    let mut j: usize = 0;
    while j < streams.len()
        invariant
            j <= streams@.len(),
            keys_of@.len() == j,
            forall|t: int| 0 <= t < j ==> (#[trigger] keys_of@[t])@ == group_key(streams@[t]),
        decreases streams.len() - j,
    {
        let k = stream_group_key(&streams[j]);
        keys_of.push(chars_of(k.as_str()));
        j = j + 1;
    }
    keys_of
}

/// Gathers the streams whose key is `key` into a group.
fn collect_group(streams: &Vec<AudioStream>, keys_of: &Vec<Vec<char>>, key: &Vec<char>) -> (group: AppGroup)
    requires
        keys_of@.len() == streams@.len(),
        forall|t: int| 0 <= t < keys_of@.len() ==> (#[trigger] keys_of@[t])@ == group_key(streams@[t]),
        members(streams@, key@).len() > 0,
    ensures
        group.key@ == key@,
        is_group_of(group, streams@),
{
    let mut indices: Vec<u32> = Vec::new();
    let mut sum: u128 = 0;
    let mut display_name = String::new();
    let mut j: usize = 0;
    while j < streams.len()
        invariant
            j <= streams@.len(),
            keys_of@.len() == streams@.len(),
            forall|t: int| 0 <= t < keys_of@.len() ==> (#[trigger] keys_of@[t])@ == group_key(
                streams@[t],
            ),
            indices@ == stream_indices(members(streams@.take(j as int), key@)),
            sum == volume_total(members(streams@.take(j as int), key@)),
            sum <= indices@.len() * 0xffff_ffffu128,
            indices@.len() <= j,
            indices@.len() > 0 ==> display_name@ == members(streams@.take(j as int), key@)[0].app_name@,
        decreases streams.len() - j,
    {
        proof {
            lemma_members_step(streams@, key@, j as int);
        }
        let ghost before = members(streams@.take(j as int), key@);
        if chars_eq(&keys_of[j], key) {
            let s = &streams[j];
            if indices.len() == 0 {
                display_name = s.app_name.clone();
            }
            indices.push(s.index);
            sum = sum + s.volume as u128;
            proof {
                let after = before.push(streams@[j as int]);
                assert(after.drop_last() =~= before);
                assert(stream_indices(after) =~= stream_indices(before).push(s.index));
                if before.len() > 0 {
                    assert(after[0] == before[0]);
                }
            }
        }
        j = j + 1;
    }
    assert(streams@.take(streams@.len() as int) =~= streams@);
    let count = indices.len() as u128;
    proof {
        assert(sum / count <= 0xffff_ffff) by (nonlinear_arith)
            requires
                sum <= count * 0xffff_ffffu128,
                count > 0,
        ;
    }
    let avg = (sum / count) as u32;
    AppGroup { key: string_of(key), display_name, indices, avg_volume: avg }
}

/// Streams that give no application name are never merged: two of them
/// with different indices have different keys, hence different groups.
pub proof fn law_unnamed_streams_stay_apart(a: AudioStream, b: AudioStream)
    requires
        a.app_name@ == unknown_name(),
        b.app_name@ == unknown_name(),
        a.index != b.index,
    ensures
        group_key(a) != group_key(b),
{
    if group_key(a) == group_key(b) {
        assert(group_key(a).skip(8) =~= decimal(a.index as nat));
        assert(group_key(b).skip(8) =~= decimal(b.index as nat));
        crate::decimal::lemma_decimal_injective(a.index, b.index);
    }
}

/// Streams of the same named application share one key, hence one group.
pub proof fn law_named_streams_share_group(a: AudioStream, b: AudioStream)
    requires
        a.app_name@ == b.app_name@,
        a.app_name@ != unknown_name(),
    ensures
        group_key(a) == group_key(b),
        group_key(a) == a.app_name@,
{
}

/// A stream of key `key` is among the members of `key`.
pub proof fn lemma_member_index(streams: Seq<AudioStream>, key: Seq<char>, j: int)
    requires
        0 <= j < streams.len(),
        group_key(streams[j]) == key,
    ensures
        stream_indices(members(streams, key)).contains(streams[j].index),
    decreases streams.len(),
{
    let m = members(streams, key);
    if j == streams.len() - 1 {
        let rest = members(streams.drop_last(), key);
        assert(m == rest.push(streams.last()));
        assert(stream_indices(m)[rest.len() as int] == streams[j].index);
    } else {
        lemma_member_index(streams.drop_last(), key, j);
        let rest = members(streams.drop_last(), key);
        let k = choose|k: int| 0 <= k < stream_indices(rest).len() && stream_indices(rest)[k] == streams[j].index;
        if group_key(streams.last()) == key {
            assert(stream_indices(m)[k] == stream_indices(rest)[k]);
        }
    }
}

/// An application's slider controls every stream of that application: in a
/// grouping, each stream's index is among the indices of the group of its
/// key.
pub proof fn law_slider_covers_every_stream(groups: Seq<AppGroup>, streams: Seq<AudioStream>, j: int)
    requires
        is_grouping(groups, streams),
        0 <= j < streams.len(),
    ensures
        exists|i: int|
            0 <= i < groups.len() && (#[trigger] groups[i]).key@ == group_key(streams[j])
                && groups[i].indices@.contains(streams[j].index),
{
    assert(has_group(groups, streams[j]));
    let i = choose|i: int| 0 <= i < groups.len() && (#[trigger] groups[i]).key@ == group_key(streams[j]);
    assert(is_group_of(groups[i], streams));
    lemma_member_index(streams, groups[i].key@, j);
}

/// Every group's key in one grouping of `streams` is a key of any other
/// grouping of them.
proof fn lemma_key_in_other(g1: Seq<AppGroup>, g2: Seq<AppGroup>, streams: Seq<AudioStream>, i: int) -> (j: int)
    requires
        is_grouping(g1, streams),
        is_grouping(g2, streams),
        0 <= i < g1.len(),
    ensures
        0 <= j < g2.len(),
        g2[j].key@ == g1[i].key@,
{
    assert(is_group_of(g1[i], streams));
    lemma_members_witness(streams, g1[i].key@);
    let t = choose|t: int| 0 <= t < streams.len() && group_key(#[trigger] streams[t]) == g1[i].key@;
    assert(has_group(g2, streams[t]));
    choose|j: int| 0 <= j < g2.len() && (#[trigger] g2[j]).key@ == group_key(streams[t])
}

/// The keys of two groupings of the same streams agree below `n`.
proof fn lemma_keys_agree(g1: Seq<AppGroup>, g2: Seq<AppGroup>, streams: Seq<AudioStream>, n: int)
    requires
        is_grouping(g1, streams),
        is_grouping(g2, streams),
        0 <= n <= g1.len(),
        n <= g2.len(),
    ensures
        forall|i: int| 0 <= i < n ==> (#[trigger] g1[i]).key@ == g2[i].key@,
    decreases n,
{
    if n > 0 {
        lemma_keys_agree(g1, g2, streams, n - 1);
        let i = n - 1;
        let a = g1[i].key@;
        let j = lemma_key_in_other(g1, g2, streams, i);
        let j2 = lemma_key_in_other(g2, g1, streams, i);
        crate::text::lemma_lex_irreflexive(a);
        if j < i {
            assert(g1[j].key@ == g2[j].key@);
            assert(lex_lt(g1[j].key@, g1[i].key@));
        }
        if j2 < i {
            assert(g1[j2].key@ == g2[j2].key@);
            assert(lex_lt(g2[j2].key@, g2[i].key@));
            crate::text::lemma_lex_irreflexive(g2[i].key@);
        }
        if j > i {
            assert(lex_lt(g2[i].key@, a));
            if j2 > i {
                assert(lex_lt(a, g1[j2].key@));
                crate::text::lemma_lex_transitive(a, g2[i].key@, a);
            }
        }
    }
}

/// A grouping of given streams is unique: any two groupings of the same
/// streams have the same groups, in the same order, with the same keys,
/// names, indices and mean volumes.
pub proof fn law_grouping_is_unique(g1: Seq<AppGroup>, g2: Seq<AppGroup>, streams: Seq<AudioStream>)
    requires
        is_grouping(g1, streams),
        is_grouping(g2, streams),
    ensures
        g1.len() == g2.len(),
        forall|i: int|
            0 <= i < g1.len() ==> (#[trigger] g1[i]).key@ == g2[i].key@ && g1[i].display_name@
                == g2[i].display_name@ && g1[i].indices@ == g2[i].indices@ && g1[i].avg_volume
                == g2[i].avg_volume,
{
    let n = if g1.len() <= g2.len() { g1.len() as int } else { g2.len() as int };
    lemma_keys_agree(g1, g2, streams, n);
    if g1.len() > g2.len() {
        let i = g2.len() as int;
        let j = lemma_key_in_other(g1, g2, streams, i);
        assert(g1[j].key@ == g2[j].key@);
        assert(lex_lt(g1[j].key@, g1[i].key@));
        crate::text::lemma_lex_irreflexive(g1[i].key@);
    }
    if g2.len() > g1.len() {
        let i = g1.len() as int;
        let j = lemma_key_in_other(g2, g1, streams, i);
        assert(g1[j].key@ == g2[j].key@);
        assert(lex_lt(g2[j].key@, g2[i].key@));
        crate::text::lemma_lex_irreflexive(g2[i].key@);
    }
    assert forall|i: int| 0 <= i < g1.len() implies (#[trigger] g1[i]).key@ == g2[i].key@ && g1[i].display_name@
        == g2[i].display_name@ && g1[i].indices@ == g2[i].indices@ && g1[i].avg_volume == g2[i].avg_volume by {
        assert(is_group_of(g1[i], streams));
        assert(is_group_of(g2[i], streams));
    }
}

} // verus!
