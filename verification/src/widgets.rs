//! The model of a list of named widgets and the generic steps of bringing it
//! in line with a list of wanted widgets: dropping stale entries, then
//! reusing or appending one entry per wanted name.

use vstd::prelude::*;
use crate::text::{chars_eq, key_views};

verus! {

/// What to do for one wanted widget.
#[derive(Debug, Clone, Copy, PartialEq, Eq)]
pub enum RowStep {
    /// Refresh the existing widget at this position of the current list.
    Update(usize),
    /// Append a new widget.
    Create,
}

/// `names` without the entries whose flag in `drop` is set, in order.
pub open spec fn kept<T>(names: Seq<T>, drop: Seq<bool>) -> Seq<T>
    decreases names.len(),
{
    if names.len() == 0 {
        Seq::empty()
    } else {
        let rest = kept(names.drop_last(), drop);
        if drop[names.len() - 1] {
            rest
        } else {
            rest.push(names.last())
        }
    }
}

/// `remove` lists, in increasing order, exactly the positions below `n` whose
/// flag in `drop` is set.
pub open spec fn is_removal_list(remove: Seq<usize>, drop: Seq<bool>, n: int) -> bool {
    &&& forall|a: int, b: int| 0 <= a < b < remove.len() ==> remove[a] < remove[b]
    &&& forall|a: int| 0 <= a < remove.len() ==> remove[a] < n && drop[remove[a] as int]
    &&& forall|i: int| 0 <= i < n && drop[i] ==> exists|a: int| 0 <= a < remove.len() && remove[a] as int == i
}

/// The list after each wanted name is looked up and, when absent, appended.
pub open spec fn after_rows(base: Seq<Seq<char>>, wanted: Seq<Seq<char>>) -> Seq<Seq<char>>
    decreases wanted.len(),
{
    if wanted.len() == 0 {
        base
    } else {
        let before = after_rows(base, wanted.drop_last());
        if before.contains(wanted.last()) {
            before
        } else {
            before.push(wanted.last())
        }
    }
}

/// `step` is what the lookup of `w` in `names` decides: the first position
/// holding `w`, or a new widget when none does.
pub open spec fn is_row_step(names: Seq<Seq<char>>, w: Seq<char>, step: RowStep) -> bool {
    match step {
        RowStep::Update(p) => p < names.len() && names[p as int] == w && forall|q: int|
            0 <= q < p ==> names[q] != w,
        RowStep::Create => !names.contains(w),
    }
}

/// `rows` are the steps for `wanted`, each decided on the list as the
/// earlier steps left it.
pub open spec fn are_row_steps(base: Seq<Seq<char>>, wanted: Seq<Seq<char>>, rows: Seq<RowStep>) -> bool {
    &&& rows.len() == wanted.len()
    &&& forall|i: int|
        0 <= i < wanted.len() ==> is_row_step(
            after_rows(base, wanted.take(i)),
            wanted[i],
            #[trigger] rows[i],
        )
}

/// The positions whose flag is set, in increasing order.
pub fn removal_positions(drop: &Vec<bool>) -> (remove: Vec<usize>)
    ensures
        is_removal_list(remove@, drop@, drop@.len() as int),
{
    let mut remove: Vec<usize> = Vec::new();
    let mut i: usize = 0;
    while i < drop.len()
        invariant
            i <= drop@.len(),
            forall|a: int, b: int| 0 <= a < b < remove@.len() ==> remove@[a] < remove@[b],
            forall|a: int| 0 <= a < remove@.len() ==> remove@[a] < i && drop@[remove@[a] as int],
            forall|k: int| 0 <= k < i && drop@[k] ==> exists|a: int| 0 <= a < remove@.len() && remove@[a] as int == k,
        decreases drop.len() - i,
    {
        if drop[i] {
            let ghost before = remove@;
            remove.push(i);
            assert forall|k: int| 0 <= k < i + 1 && drop@[k] implies exists|a: int| 0 <= a < remove@.len() && remove@[a] as int == k by {
                if k < i {
                    let a = choose|a: int| 0 <= a < before.len() && before[a] as int == k;
                    assert(remove@[a] as int == k);
                } else {
                    assert(remove@[before.len() as int] as int == k);
                }
            }
        }
        i = i + 1;
    }
    remove
}

/// `names` without the entries whose flag is set.
pub fn keep_names(names: &Vec<Vec<char>>, drop: &Vec<bool>) -> (out: Vec<Vec<char>>)
    requires
        drop@.len() == names@.len(),
    ensures
        key_views(out@) == kept(key_views(names@), drop@),
{
    let mut out: Vec<Vec<char>> = Vec::new();
    let mut i: usize = 0;
    assert(key_views(out@) =~= Seq::<Seq<char>>::empty());
    while i < names.len()
        invariant
            i <= names@.len(),
            drop@.len() == names@.len(),
            key_views(out@) == kept(key_views(names@).take(i as int), drop@),
        decreases names.len() - i,
    {
        let ghost prefix = key_views(names@).take(i + 1);
        assert(prefix.drop_last() =~= key_views(names@).take(i as int));
        if !drop[i] {
            out.push(names[i].clone());
            assert(key_views(out@) =~= kept(key_views(names@).take(i as int), drop@).push(names@[i as int]@));
        }
        i = i + 1;
    }
    assert(key_views(names@).take(names@.len() as int) =~= key_views(names@));
    out
}

/// The first position of `names` that holds `w`, if any.
pub fn find_name(names: &Vec<Vec<char>>, w: &Vec<char>) -> (r: Option<usize>)
    ensures
        match r {
            Some(p) => p < names@.len() && key_views(names@)[p as int] == w@ && forall|q: int|
                0 <= q < p ==> key_views(names@)[q] != w@,
            None => !key_views(names@).contains(w@),
        },
{
    let mut i: usize = 0;
    while i < names.len()
        invariant
            i <= names@.len(),
            forall|q: int| 0 <= q < i ==> key_views(names@)[q] != w@,
        decreases names.len() - i,
    {
        if chars_eq(&names[i], w) {
            return Some(i);
        }
        i = i + 1;
    }
    None
}

/// Decides, for each wanted name in turn, whether its widget already stands
/// in the list (and where) or must be appended.
pub fn plan_rows(base: &Vec<Vec<char>>, wanted: &Vec<Vec<char>>) -> (rows: Vec<RowStep>)
    ensures
        are_row_steps(key_views(base@), key_views(wanted@), rows@),
{
    let ghost b = key_views(base@);
    let ghost ws = key_views(wanted@);
    let mut names: Vec<Vec<char>> = base.clone();
    let mut rows: Vec<RowStep> = Vec::new();
    let mut i: usize = 0;
    assert(key_views(names@) =~= b);
    assert(ws.take(0) =~= Seq::<Seq<char>>::empty());
    while i < wanted.len()
        invariant
            i <= wanted@.len(),
            b == key_views(base@),
            ws == key_views(wanted@),
            key_views(names@) == after_rows(b, ws.take(i as int)),
            rows@.len() == i,
            forall|k: int| 0 <= k < i ==> is_row_step(after_rows(b, ws.take(k)), ws[k], #[trigger] rows@[k]),
        decreases wanted.len() - i,
    {
        let w = &wanted[i];
        let ghost cur = key_views(names@);
        assert(ws.take(i + 1).drop_last() =~= ws.take(i as int));
        assert(ws.take(i + 1).last() == w@);
        match find_name(&names, w) {
            Some(p) => {
                rows.push(RowStep::Update(p));
            },
            None => {
                rows.push(RowStep::Create);
                names.push(w.clone());
                assert(key_views(names@) =~= cur.push(w@));
            },
        }
        i = i + 1;
    }
    assert(ws.len() == wanted@.len());
    rows
}

} // verus!

verus! {

/// No name that starts with `p` stands twice in `s`.
pub open spec fn unique_where(s: Seq<Seq<char>>, p: Seq<char>) -> bool {
    forall|i: int, j: int|
        #![trigger s[i], s[j]]
        0 <= i < j < s.len() && s[i] == s[j] ==> !crate::text::is_prefix(p, s[i])
}

/// What removal keeps is a kept entry of the original list.
pub proof fn lemma_kept_members(names: Seq<Seq<char>>, drop: Seq<bool>)
    requires
        drop.len() == names.len(),
    ensures
        forall|x: Seq<char>| #[trigger] kept(names, drop).contains(x) ==> exists|j: int|
            0 <= j < names.len() && names[j] == x && !drop[j],
    decreases names.len(),
{
    if names.len() > 0 {
        let short = names.drop_last();
        lemma_kept_members_prefix(names, drop);
        let rest = kept(short, drop);
        assert forall|x: Seq<char>| #[trigger] kept(names, drop).contains(x) implies exists|j: int|
            0 <= j < names.len() && names[j] == x && !drop[j] by {
            if rest.contains(x) {
                let j = choose|j: int| 0 <= j < short.len() && short[j] == x && !drop[j];
                assert(names[j] == x);
            } else {
                let k = choose|k: int| 0 <= k < kept(names, drop).len() && kept(names, drop)[k] == x;
                assert(k == rest.len());
                assert(names[names.len() - 1] == x);
            }
        }
    }
}

/// The same fact for the list without its last entry.
proof fn lemma_kept_members_prefix(names: Seq<Seq<char>>, drop: Seq<bool>)
    requires
        drop.len() == names.len(),
        names.len() > 0,
    ensures
        forall|x: Seq<char>| #[trigger] kept(names.drop_last(), drop).contains(x) ==> exists|j: int|
            0 <= j < names.len() - 1 && names.drop_last()[j] == x && !drop[j],
    decreases names.len(),
{
    let short = names.drop_last();
    if short.len() > 0 {
        lemma_kept_members_prefix(short, drop.drop_last());
        assert forall|x: Seq<char>| #[trigger] kept(short, drop).contains(x) implies exists|j: int|
            0 <= j < short.len() && short[j] == x && !drop[j] by {
            lemma_kept_drop_agnostic(short.drop_last(), drop, drop.drop_last());
            lemma_kept_drop_agnostic(short, drop, drop.drop_last());
            let rest = kept(short.drop_last(), drop);
            if rest.contains(x) {
                let j = choose|j: int|
                    0 <= j < short.len() - 1 && short.drop_last()[j] == x && !drop.drop_last()[j];
                assert(short[j] == x);
            } else {
                let k = choose|k: int| 0 <= k < kept(short, drop).len() && kept(short, drop)[k] == x;
                assert(k == rest.len());
            }
        }
    }
}

/// `kept` reads the flags only below the list's length.
pub proof fn lemma_kept_drop_agnostic<T>(names: Seq<T>, d1: Seq<bool>, d2: Seq<bool>)
    requires
        forall|i: int| 0 <= i < names.len() ==> d1[i] == d2[i],
    ensures
        kept(names, d1) == kept(names, d2),
    decreases names.len(),
{
    if names.len() > 0 {
        lemma_kept_drop_agnostic(names.drop_last(), d1, d2);
    }
}

/// Removal keeps a list free of repeated prefixed names.
pub proof fn lemma_kept_unique(names: Seq<Seq<char>>, drop: Seq<bool>, p: Seq<char>)
    requires
        drop.len() == names.len(),
        unique_where(names, p),
    ensures
        unique_where(kept(names, drop), p),
    decreases names.len(),
{
    if names.len() > 0 {
        let short = names.drop_last();
        assert(unique_where(short, p)) by {
            assert forall|i: int, j: int| 0 <= i < j < short.len() && short[i] == short[j] implies !crate::text::is_prefix(p, short[i]) by {
                assert(names[i] == short[i] && names[j] == short[j]);
            }
        }
        lemma_kept_drop_agnostic(short, drop, drop.drop_last());
        lemma_kept_unique(short, drop.drop_last(), p);
        lemma_kept_members(short, drop.drop_last());
        let rest = kept(short, drop);
        let out = kept(names, drop);
        if !drop[names.len() - 1] {
            assert forall|i: int, j: int| 0 <= i < j < out.len() && out[i] == out[j] implies !crate::text::is_prefix(p, out[i]) by {
                if j == rest.len() {
                    assert(out[i] == rest[i]);
                    assert(rest.contains(rest[i]));
                    let k = choose|k: int| 0 <= k < short.len() && short[k] == rest[i] && !drop.drop_last()[k];
                    assert(names[k] == names[names.len() - 1]);
                } else {
                    assert(out[i] == rest[i] && out[j] == rest[j]);
                }
            }
        }
    }
}

/// A repeat-free list stays so without its first entry.
pub proof fn lemma_drop_first_unique(s: Seq<Seq<char>>, p: Seq<char>)
    requires
        s.len() > 0,
        unique_where(s, p),
    ensures
        unique_where(s.drop_first(), p),
{
    let t = s.drop_first();
    assert forall|i: int, j: int| 0 <= i < j < t.len() && t[i] == t[j] implies !crate::text::is_prefix(p, t[i]) by {
        assert(s[i + 1] == t[i] && s[j + 1] == t[j]);
    }
}

/// After the row steps, the list holds every wanted name, and nothing but the
/// base's entries and wanted names.
pub proof fn lemma_after_rows_members(base: Seq<Seq<char>>, wanted: Seq<Seq<char>>)
    ensures
        forall|k: int| 0 <= k < wanted.len() ==> after_rows(base, wanted).contains(#[trigger] wanted[k]),
        forall|x: Seq<char>| #[trigger] after_rows(base, wanted).contains(x) ==> base.contains(x)
            || wanted.contains(x),
        forall|x: Seq<char>| base.contains(x) ==> #[trigger] after_rows(base, wanted).contains(x),
    decreases wanted.len(),
{
    if wanted.len() > 0 {
        let short = wanted.drop_last();
        lemma_after_rows_members(base, short);
        let before = after_rows(base, short);
        let out = after_rows(base, wanted);
        assert forall|x: Seq<char>| before.contains(x) implies #[trigger] out.contains(x) by {
            let i = choose|i: int| 0 <= i < before.len() && before[i] == x;
            assert(out[i] == x);
        }
        assert(out.contains(wanted.last())) by {
            if !before.contains(wanted.last()) {
                assert(out[before.len() as int] == wanted.last());
            }
        }
        assert forall|k: int| 0 <= k < wanted.len() implies out.contains(#[trigger] wanted[k]) by {
            if k < wanted.len() - 1 {
                assert(short[k] == wanted[k]);
                assert(before.contains(short[k]));
            }
        }
        assert forall|x: Seq<char>| #[trigger] out.contains(x) implies base.contains(x) || wanted.contains(x) by {
            if before.contains(x) {
                if short.contains(x) {
                    let k = choose|k: int| 0 <= k < short.len() && short[k] == x;
                    assert(wanted[k] == x);
                }
            } else {
                let k = choose|k: int| 0 <= k < out.len() && out[k] == x;
                assert(k == before.len());
                assert(wanted[wanted.len() - 1] == x);
            }
        }
    }
}

/// The row steps keep a list free of repeated prefixed names.
pub proof fn lemma_after_rows_unique(base: Seq<Seq<char>>, wanted: Seq<Seq<char>>, p: Seq<char>)
    requires
        unique_where(base, p),
    ensures
        unique_where(after_rows(base, wanted), p),
    decreases wanted.len(),
{
    if wanted.len() > 0 {
        let short = wanted.drop_last();
        lemma_after_rows_unique(base, short, p);
        let before = after_rows(base, short);
        let out = after_rows(base, wanted);
        if !before.contains(wanted.last()) {
            assert forall|i: int, j: int| 0 <= i < j < out.len() && out[i] == out[j] implies !crate::text::is_prefix(p, out[i]) by {
                if j == before.len() {
                    assert(before[i] == wanted.last());
                    assert(before.contains(wanted.last()));
                } else {
                    assert(out[i] == before[i] && out[j] == before[j]);
                }
            }
        }
    }
}

/// With no flag set, removal keeps the whole list.
pub proof fn lemma_kept_none<T>(names: Seq<T>, drop: Seq<bool>)
    requires
        forall|i: int| 0 <= i < names.len() ==> !drop[i],
    ensures
        kept(names, drop) == names,
    decreases names.len(),
{
    if names.len() > 0 {
        lemma_kept_none(names.drop_last(), drop);
        assert(names.drop_last().push(names.last()) =~= names);
    }
}

/// When every wanted name already stands in the base list, every step
/// refreshes an existing widget.
pub proof fn lemma_steps_all_update(base: Seq<Seq<char>>, wanted: Seq<Seq<char>>, rows: Seq<RowStep>)
    requires
        are_row_steps(base, wanted, rows),
        forall|k: int| 0 <= k < wanted.len() ==> base.contains(#[trigger] wanted[k]),
    ensures
        forall|i: int| 0 <= i < rows.len() ==> (#[trigger] rows[i]) is Update,
{
    assert forall|i: int| 0 <= i < rows.len() implies (#[trigger] rows[i]) is Update by {
        lemma_after_rows_members(base, wanted.take(i));
        assert(base.contains(wanted[i]));
        assert(is_row_step(after_rows(base, wanted.take(i)), wanted[i], rows[i]));
    }
}

/// An empty removal list is the only one when no flag is set.
pub proof fn lemma_no_removal(remove: Seq<usize>, drop: Seq<bool>, n: int)
    requires
        is_removal_list(remove, drop, n),
        forall|i: int| 0 <= i < n ==> !drop[i],
    ensures
        remove.len() == 0,
{
    if remove.len() > 0 {
        assert(drop[remove[0] as int]);
    }
}

} // verus!

verus! {

/// A widget of a row list as the popup holds it: an identity (which object
/// it is), its name, and the state its refresh sets (`attr`).
pub struct RowModel<A> {
    pub id: int,
    pub name: Seq<char>,
    pub attr: A,
}

/// The names of `rows`, in order.
pub open spec fn row_names<A>(rows: Seq<RowModel<A>>) -> Seq<Seq<char>> {
    rows.map_values(|r: RowModel<A>| r.name)
}

/// No name stands twice in `s`.
pub open spec fn distinct(s: Seq<Seq<char>>) -> bool {
    forall|i: int, j: int| #![trigger s[i], s[j]] 0 <= i < j < s.len() ==> s[i] != s[j]
}

/// The flags of the positions that `remove` lists, for a list of `n` widgets.
pub open spec fn removal_flags(remove: Seq<usize>, n: int) -> Seq<bool> {
    Seq::new(n as nat, |i: int| exists|a: int| 0 <= a < remove.len() && remove[a] as int == i)
}

/// The rows after the row steps are carried out in order: a refresh sets the
/// wanted state on the widget at its position, keeping the widget; a new
/// widget (identity `fresh`) is appended with the wanted name and state.
pub open spec fn apply_steps<A>(
    base: Seq<RowModel<A>>,
    wanted: Seq<Seq<char>>,
    attrs: Seq<A>,
    steps: Seq<RowStep>,
    fresh: int,
) -> Seq<RowModel<A>>
    decreases steps.len(),
{
    if steps.len() == 0 {
        base
    } else {
        let n = steps.len() - 1;
        let b = apply_steps(base, wanted, attrs, steps.drop_last(), fresh);
        match steps.last() {
            RowStep::Update(p) => if p < b.len() {
                b.update(p as int, RowModel { id: b[p as int].id, name: b[p as int].name, attr: attrs[n] })
            } else {
                b
            },
            RowStep::Create => b.push(RowModel { id: fresh, name: wanted[n], attr: attrs[n] }),
        }
    }
}

/// `distinct` is `unique_where` for the empty prefix, which every name has.
pub proof fn lemma_distinct_unique(s: Seq<Seq<char>>)
    ensures
        distinct(s) <==> unique_where(s, Seq::<char>::empty()),
{
    assert forall|x: Seq<char>| crate::text::is_prefix(Seq::<char>::empty(), x) by {
        assert(x.subrange(0, 0) =~= Seq::<char>::empty());
    }
    if unique_where(s, Seq::<char>::empty()) {
        assert forall|i: int, j: int| 0 <= i < j < s.len() implies s[i] != s[j] by {
            assert(crate::text::is_prefix(Seq::<char>::empty(), s[i]));
        }
    }
}

/// The flags of a removal list are the flags it was made from.
pub proof fn lemma_removal_flags(remove: Seq<usize>, drop: Seq<bool>, n: int)
    requires
        is_removal_list(remove, drop, n),
        drop.len() == n,
    ensures
        removal_flags(remove, n) == drop,
{
    let f = removal_flags(remove, n);
    assert forall|i: int| 0 <= i < n implies f[i] == drop[i] by {
        if exists|a: int| 0 <= a < remove.len() && remove[a] as int == i {
            let a = choose|a: int| 0 <= a < remove.len() && remove[a] as int == i;
            assert(drop[remove[a] as int]);
        }
    }
    assert(f =~= drop);
}

/// Removal commutes with taking the names.
pub proof fn lemma_kept_names<A>(rows: Seq<RowModel<A>>, drop: Seq<bool>)
    ensures
        row_names(kept(rows, drop)) == kept(row_names(rows), drop),
    decreases rows.len(),
{
    if rows.len() > 0 {
        lemma_kept_names(rows.drop_last(), drop);
        assert(row_names(rows).drop_last() =~= row_names(rows.drop_last()));
        let r = kept(rows.drop_last(), drop);
        if !drop[rows.len() - 1] {
            assert(row_names(r.push(rows.last())) =~= row_names(r).push(rows.last().name));
        }
    }
}

/// An entry whose flag is clear is kept.
pub proof fn lemma_kept_keeps<T>(s: Seq<T>, drop: Seq<bool>, i: int)
    requires
        0 <= i < s.len() <= drop.len(),
        !drop[i],
    ensures
        kept(s, drop).contains(s[i]),
    decreases s.len(),
{
    let r = kept(s.drop_last(), drop);
    if i == s.len() - 1 {
        assert(kept(s, drop)[r.len() as int] == s[i]);
    } else {
        lemma_kept_keeps(s.drop_last(), drop, i);
        let k = choose|k: int| 0 <= k < r.len() && r[k] == s.drop_last()[i];
        if !drop[s.len() - 1] {
            assert(kept(s, drop)[k] == s[i]);
        } else {
            assert(kept(s, drop)[k] == s[i]);
        }
    }
}

/// Position `j` holds the first occurrence of its name in `s`.
pub open spec fn is_first(s: Seq<Seq<char>>, j: int) -> bool {
    forall|q: int| 0 <= q < j ==> s[q] != s[j]
}

/// Carrying out the row steps: the names become those of `after_rows`; the
/// base widgets keep their identity and place, and the ones no wanted name
/// addresses keep their state; the first widget of each wanted name carries
/// the state of the last step for that name; a widget that is not the first
/// of its name is a base widget and keeps its state; new widgets have identity
/// `fresh`.
pub proof fn lemma_apply_steps<A>(
    base: Seq<RowModel<A>>,
    wanted: Seq<Seq<char>>,
    attrs: Seq<A>,
    steps: Seq<RowStep>,
    fresh: int,
)
    requires
        steps.len() <= wanted.len(),
        attrs.len() == wanted.len(),
        forall|i: int|
            0 <= i < steps.len() ==> is_row_step(
                after_rows(row_names(base), wanted.take(i)),
                wanted[i],
                #[trigger] steps[i],
            ),
    ensures
        ({
            let out = apply_steps(base, wanted, attrs, steps, fresh);
            &&& row_names(out) == after_rows(row_names(base), wanted.take(steps.len() as int))
            &&& out.len() >= base.len()
            &&& forall|j: int|
                0 <= j < base.len() ==> (#[trigger] out[j]).id == base[j].id && out[j].name
                    == base[j].name
            &&& forall|j: int|
                0 <= j < base.len() && !wanted.take(steps.len() as int).contains(base[j].name)
                    ==> (#[trigger] out[j]).attr == base[j].attr
            &&& forall|j: int, g: int|
                0 <= j < out.len() && 0 <= g < steps.len() && (#[trigger] out[j]).name
                    == #[trigger] wanted[g] && is_first(row_names(out), j) && (forall|h: int|
                    g < h < steps.len() ==> wanted[h] != wanted[g]) ==> out[j].attr == attrs[g]
            &&& forall|j: int|
                0 <= j < out.len() && !is_first(row_names(out), j) ==> j < base.len() && (#[trigger] out[j]).attr
                    == base[j].attr
            &&& forall|j: int| base.len() <= j < out.len() ==> (#[trigger] out[j]).id == fresh
        }),
    decreases steps.len(),
{
    let out = apply_steps(base, wanted, attrs, steps, fresh);
    let m = steps.len() as int;
    if m == 0 {
        assert(wanted.take(0) =~= Seq::<Seq<char>>::empty());
    } else {
        let short = steps.drop_last();
        assert forall|i: int| 0 <= i < short.len() implies is_row_step(
            after_rows(row_names(base), wanted.take(i)),
            wanted[i],
            #[trigger] short[i],
        ) by {
            assert(short[i] == steps[i]);
        }
        lemma_apply_steps(base, wanted, attrs, short, fresh);
        let b = apply_steps(base, wanted, attrs, short, fresh);
        let n = m - 1;
        let w = wanted[n];
        assert(wanted.take(m).drop_last() =~= wanted.take(n));
        assert(wanted.take(m).last() == w);
        let nb = row_names(b);
        assert(is_row_step(nb, w, steps[n]));
        assert forall|x: Seq<char>| wanted.take(m).contains(x) && x != w implies wanted.take(n).contains(x) by {
            let k = choose|k: int| 0 <= k < m && wanted.take(m)[k] == x;
            assert(wanted.take(n)[k] == x);
        }
        assert forall|j: int|
            0 <= j < base.len() && !wanted.take(m).contains(base[j].name) implies !wanted.take(n).contains(
            base[j].name,
        ) && base[j].name != w by {
            if wanted.take(n).contains(base[j].name) {
                let k = choose|k: int| 0 <= k < n && wanted.take(n)[k] == base[j].name;
                assert(wanted.take(m)[k] == base[j].name);
            }
            assert(wanted.take(m)[n] == w);
        }
        match steps[n] {
            RowStep::Update(p) => {
                assert(row_names(out) =~= nb);
                assert forall|j: int, g: int|
                    0 <= j < out.len() && 0 <= g < m && (#[trigger] out[j]).name == #[trigger] wanted[g]
                        && is_first(row_names(out), j) && (forall|h: int| g < h < m ==> wanted[h] != wanted[g])
                        implies out[j].attr == attrs[g] by {
                    if g == n {
                        if j < p {
                            assert(nb[j] == w);
                        } else if j > p {
                            assert(nb[p as int] == nb[j]);
                        }
                    } else {
                        assert(wanted[n] != wanted[g]);
                        if j == p {
                            assert(nb[p as int] == w);
                        }
                        assert(out[j] == b[j]);
                    }
                }
                assert forall|j: int| 0 <= j < out.len() && !is_first(row_names(out), j) implies j < base.len()
                    && (#[trigger] out[j]).attr == base[j].attr by {
                    if j == p {
                        assert(is_first(nb, p as int));
                    }
                    assert(out[j] == b[j]);
                }
            },
            RowStep::Create => {
                assert(row_names(out) =~= nb.push(w));
                assert forall|j: int, g: int|
                    0 <= j < out.len() && 0 <= g < m && (#[trigger] out[j]).name == #[trigger] wanted[g]
                        && is_first(row_names(out), j) && (forall|h: int| g < h < m ==> wanted[h] != wanted[g])
                        implies out[j].attr == attrs[g] by {
                    if j < b.len() {
                        assert(out[j] == b[j]);
                        if g == n {
                            assert(nb[j] == w);
                        } else {
                            assert(wanted[n] != wanted[g]);
                            assert forall|q: int| 0 <= q < j implies nb[q] != nb[j] by {
                                assert(row_names(out)[q] == nb[q]);
                            }
                        }
                    } else if g != n {
                        assert(wanted[n] != wanted[g]);
                    }
                }
                assert forall|j: int| 0 <= j < out.len() && !is_first(row_names(out), j) implies j < base.len()
                    && (#[trigger] out[j]).attr == base[j].attr by {
                    if j == b.len() {
                        assert forall|q: int| 0 <= q < j implies row_names(out)[q] != row_names(out)[j] by {
                            assert(row_names(out)[q] == nb[q]);
                        }
                    }
                    assert(out[j] == b[j]);
                    assert(!is_first(nb, j)) by {
                        let q = choose|q: int| 0 <= q < j && row_names(out)[q] == row_names(out)[j];
                        assert(nb[q] == nb[j]);
                    }
                }
            },
        }
    }
}

/// With only updates, each writing the state the widget already has, the
/// row steps leave the rows as they are.
pub proof fn lemma_updates_keep_rows<A>(
    base: Seq<RowModel<A>>,
    wanted: Seq<Seq<char>>,
    attrs: Seq<A>,
    steps: Seq<RowStep>,
    fresh: int,
)
    requires
        steps.len() <= attrs.len(),
        forall|g: int|
            0 <= g < steps.len() ==> match #[trigger] steps[g] {
                RowStep::Update(p) => p < base.len() && base[p as int].attr == attrs[g],
                RowStep::Create => false,
            },
    ensures
        apply_steps(base, wanted, attrs, steps, fresh) == base,
    decreases steps.len(),
{
    if steps.len() > 0 {
        let short = steps.drop_last();
        assert forall|g: int| 0 <= g < short.len() implies match #[trigger] short[g] {
            RowStep::Update(p) => p < base.len() && base[p as int].attr == attrs[g],
            RowStep::Create => false,
        } by {
            assert(short[g] == steps[g]);
        }
        lemma_updates_keep_rows(base, wanted, attrs, short, fresh);
        let n = steps.len() - 1;
        match steps[n] {
            RowStep::Update(p) => {
                let r = RowModel { id: base[p as int].id, name: base[p as int].name, attr: attrs[n] };
                assert(r == base[p as int]);
                assert(base.update(p as int, r) =~= base);
            },
            RowStep::Create => {},
        }
    }
}

/// When every wanted name already stands in the base, the row steps append
/// nothing.
pub proof fn lemma_after_rows_present(base: Seq<Seq<char>>, wanted: Seq<Seq<char>>)
    requires
        forall|k: int| 0 <= k < wanted.len() ==> base.contains(#[trigger] wanted[k]),
    ensures
        after_rows(base, wanted) == base,
    decreases wanted.len(),
{
    if wanted.len() > 0 {
        let short = wanted.drop_last();
        assert forall|k: int| 0 <= k < short.len() implies base.contains(#[trigger] short[k]) by {
            assert(short[k] == wanted[k]);
        }
        lemma_after_rows_present(base, short);
    }
}

/// Removal keeps the kept entries of a prefix as a prefix.
pub proof fn lemma_kept_prefix<T>(s: Seq<T>, drop: Seq<bool>, i: int)
    requires
        0 <= i <= s.len() <= drop.len(),
    ensures
        kept(s.take(i), drop).len() <= kept(s, drop).len(),
        forall|q: int| 0 <= q < kept(s.take(i), drop).len() ==> #[trigger] kept(s, drop)[q] == kept(s.take(i), drop)[q],
    decreases s.len(),
{
    if i == s.len() {
        assert(s.take(i) =~= s);
    } else {
        let t = s.drop_last();
        assert(s.take(i) =~= t.take(i));
        lemma_kept_prefix(t, drop, i);
    }
}

/// A kept entry's place in the removal's result: before it stand exactly the
/// kept entries of earlier positions.
pub proof fn lemma_kept_index<T>(s: Seq<T>, drop: Seq<bool>, i: int) -> (k: int)
    requires
        0 <= i < s.len() <= drop.len(),
        !drop[i],
    ensures
        0 <= k < kept(s, drop).len(),
        kept(s, drop)[k] == s[i],
        forall|q: int| 0 <= q < k ==> exists|j: int| 0 <= j < i && !drop[j] && #[trigger] kept(s, drop)[q] == s[j],
        forall|j: int| 0 <= j < i && !drop[j] ==> exists|q: int| 0 <= q < k && kept(s, drop)[q] == #[trigger] s[j],
{
    let ki = kept(s.take(i), drop);
    assert(s.take(i + 1).drop_last() =~= s.take(i));
    assert(s.take(i + 1).last() == s[i]);
    assert(kept(s.take(i + 1), drop) == ki.push(s[i]));
    lemma_kept_prefix(s, drop, i + 1);
    let k = ki.len() as int;
    assert(kept(s, drop)[k] == s[i]);
    lemma_kept_drop_agnostic(s.take(i), drop, drop.take(i));
    lemma_kept_members_generic(s.take(i), drop.take(i));
    assert forall|q: int| 0 <= q < k implies exists|j: int| 0 <= j < i && !drop[j] && #[trigger] kept(s, drop)[q] == s[j] by {
        assert(kept(s, drop)[q] == ki[q]);
        assert(ki.contains(ki[q]));
        let j = choose|j: int| 0 <= j < i && s.take(i)[j] == ki[q] && !drop.take(i)[j];
        assert(s[j] == s.take(i)[j]);
    }
    assert forall|j: int| 0 <= j < i && !drop[j] implies exists|q: int| 0 <= q < k && kept(s, drop)[q] == #[trigger] s[j] by {
        lemma_kept_keeps(s.take(i), drop, j);
        let q = choose|q: int| 0 <= q < ki.len() && ki[q] == s.take(i)[j];
        assert(kept(s, drop)[q] == ki[q]);
    }
    k
}

/// What removal keeps is a kept entry of the original list (any element type).
pub proof fn lemma_kept_members_generic<T>(s: Seq<T>, drop: Seq<bool>)
    requires
        drop.len() == s.len(),
    ensures
        forall|x: T| #[trigger] kept(s, drop).contains(x) ==> exists|j: int|
            0 <= j < s.len() && s[j] == x && !drop[j],
    decreases s.len(),
{
    if s.len() > 0 {
        let t = s.drop_last();
        lemma_kept_drop_agnostic(t, drop, drop.drop_last());
        lemma_kept_members_generic(t, drop.drop_last());
        let rest = kept(t, drop);
        assert forall|x: T| #[trigger] kept(s, drop).contains(x) implies exists|j: int|
            0 <= j < s.len() && s[j] == x && !drop[j] by {
            if rest.contains(x) {
                let j = choose|j: int| 0 <= j < t.len() && t[j] == x && !drop.drop_last()[j];
                assert(s[j] == x);
            } else {
                let k = choose|k: int| 0 <= k < kept(s, drop).len() && kept(s, drop)[k] == x;
                assert(k == rest.len());
            }
        }
    }
}

} // verus!
