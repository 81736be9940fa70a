//! Strips.
use crate::sequences::{lemma_filter_contains, lemma_flatten_push};
use crate::strip::{
    appended, filtered, law_merge_keeps_order, lemma_appended_contains, lemma_filtered_all,
    lemma_filtered_push, lemma_filtered_windows, merged, refreshed, solid, StripView,
};
use crate::Entity;
use vstd::prelude::*;

verus! {

/// The windows of a strip are those of its columns, from left to right; the first is the top one of
/// the leftmost column.
pub proof fn law_strip_windows(strip: StripView, column: Seq<Entity>)
    ensures
        (StripView { columns: Seq::empty(), ..strip }).windows().len() == 0,
        (StripView { columns: strip.columns.push(column), ..strip }).windows() == strip.windows()
            + column,
        solid(strip.columns) ==> (strip.first() is Some <==> strip.windows().len() > 0),
        strip.first() matches Some(window) ==> window == strip.windows()[0],
    decreases strip.columns.len(),
{
    lemma_flatten_push(strip.columns, column);
    assert(Seq::<Seq<Entity>>::empty().flatten() =~= Seq::<Entity>::empty());
    if strip.columns.len() > 0 {
        lemma_first_column(strip.columns);
    } else {
        assert(strip.columns =~= Seq::<Seq<Entity>>::empty());
    }
}

/// The windows of columns begin with those of the first.
proof fn lemma_first_column(columns: Seq<Seq<Entity>>)
    requires
        columns.len() > 0,
    ensures
        columns[0].is_prefix_of(columns.flatten()),
    decreases columns.len(),
{
    let init = columns.drop_last();
    lemma_flatten_push(init, columns.last());
    assert(columns =~= init.push(columns.last()));
    if init.len() > 0 {
        lemma_first_column(init);
        assert(init[0] == columns[0]);
    } else {
        assert(init.flatten() =~= Seq::<Entity>::empty());
        assert(columns.flatten() =~= columns[0]);
    }
}

/// Taking windows away keeps those in each column that stay, in one column, and drops a column only
/// where none does.
pub proof fn law_filtered_columns(
    columns: Seq<Seq<Entity>>,
    column: Seq<Entity>,
    p: spec_fn(Entity) -> bool,
)
    ensures
        filtered(Seq::empty(), p).len() == 0,
        column.filter(p).len() > 0 ==> filtered(columns.push(column), p) == filtered(
            columns,
            p,
        ).push(column.filter(p)),
        column.filter(p).len() == 0 ==> filtered(columns.push(column), p) == filtered(columns, p),
        filtered(columns, p).flatten() == columns.flatten().filter(p),
{
    lemma_filtered_push(columns, column, p);
    lemma_filtered_windows(columns, p);
    reveal(Seq::filter);
}

/// A strip of which all windows stay keeps its columns; what is new has columns of its own after
/// them, of one window each.
pub proof fn law_refresh_keeps_columns(columns: Seq<Seq<Entity>>, windows: Seq<Entity>)
    requires
        solid(columns),
        forall|e: Entity| columns.flatten().contains(e) ==> #[trigger] windows.contains(e),
    ensures
        columns.is_prefix_of(refreshed(columns, windows)),
        forall|i: int|
            columns.len() <= i < refreshed(columns, windows).len() ==> (#[trigger] refreshed(
                columns,
                windows,
            )[i]).len() == 1,
{
    let p = |e: Entity| windows.contains(e);
    assert forall|e: Entity| columns.flatten().contains(e) implies #[trigger] p(e) by {
        assert(windows.contains(e));
    }
    lemma_filtered_all(columns, p);
    lemma_appended_columns(columns, windows);
}

/// Refreshing leaves in each column the windows that stay.
pub proof fn law_refresh_keeps_stacks(
    columns: Seq<Seq<Entity>>,
    column: Seq<Entity>,
    windows: Seq<Entity>,
)
    requires
        columns.contains(column),
        column.filter(|e: Entity| windows.contains(e)).len() > 0,
    ensures
        refreshed(columns, windows).contains(column.filter(|e: Entity| windows.contains(e))),
{
    let p = |e: Entity| windows.contains(e);
    let f = |c: Seq<Entity>| c.filter(p);
    let kept = filtered(columns, p);
    let k = columns.index_of(column);
    assert(columns.map_values(f)[k] == column.filter(p));
    assert(columns.map_values(f).contains(column.filter(p)));
    lemma_filter_contains(columns.map_values(f), |c: Seq<Entity>| c.len() > 0, column.filter(p));
    assert(kept.contains(column.filter(p)));
    lemma_appended_columns(kept, windows);
    let j = kept.index_of(column.filter(p));
    assert(refreshed(columns, windows)[j] == column.filter(p));
}

/// Appending leaves the columns, and adds columns of one window.
proof fn lemma_appended_columns(columns: Seq<Seq<Entity>>, windows: Seq<Entity>)
    ensures
        columns.is_prefix_of(appended(columns, windows)),
        forall|i: int|
            columns.len() <= i < appended(columns, windows).len() ==> (#[trigger] appended(
                columns,
                windows,
            )[i]).len() == 1,
    decreases windows.len(),
{
    if windows.len() > 0 {
        lemma_appended_columns(columns, windows.drop_last());
    }
}

/// Windows that are new to a strip come in the order in which they are given.
pub proof fn law_refresh_new_in_order(
    columns: Seq<Seq<Entity>>,
    windows: Seq<Entity>,
    i: int,
    j: int,
)
    requires
        0 <= i < j < windows.len(),
        !columns.flatten().contains(windows[i]),
        !columns.flatten().contains(windows[j]),
        !windows.take(j).contains(windows[j]),
    ensures
        exists|a: int, b: int|
            {
                let shown = refreshed(columns, windows).flatten();
                &&& 0 <= a < b < shown.len()
                &&& #[trigger] refreshed(columns, windows).flatten()[a] == windows[i]
                &&& #[trigger] refreshed(columns, windows).flatten()[b] == windows[j]
            },
{
    let p = |e: Entity| windows.contains(e);
    let kept = filtered(columns, p);
    lemma_filtered_windows(columns, p);
    lemma_filter_contains(columns.flatten(), p, windows[i]);
    lemma_filter_contains(columns.flatten(), p, windows[j]);
    let n = windows.len() as int;
    lemma_appended_in_order(kept, windows, n, i, j);
    assert(windows.take(n) =~= windows);
    let (a, b) = choose|a: int, b: int|
        {
            let shown = appended(kept, windows.take(n)).flatten();
            &&& 0 <= a < b < shown.len()
            &&& #[trigger] appended(kept, windows.take(n)).flatten()[a] == windows[i]
            &&& #[trigger] appended(kept, windows.take(n)).flatten()[b] == windows[j]
        };
    assert(refreshed(columns, windows).flatten()[a] == windows[i]);
    assert(refreshed(columns, windows).flatten()[b] == windows[j]);
}

proof fn lemma_appended_in_order(
    columns: Seq<Seq<Entity>>,
    windows: Seq<Entity>,
    n: int,
    i: int,
    j: int,
)
    requires
        0 <= i < j < n <= windows.len(),
        !columns.flatten().contains(windows[j]),
        !windows.take(j).contains(windows[j]),
    ensures
        exists|a: int, b: int|
            {
                let shown = appended(columns, windows.take(n)).flatten();
                &&& 0 <= a < b < shown.len()
                &&& #[trigger] appended(columns, windows.take(n)).flatten()[a] == windows[i]
                &&& #[trigger] appended(columns, windows.take(n)).flatten()[b] == windows[j]
            },
    decreases n,
{
    let now = windows.take(n);
    let init = windows.take(n - 1);
    assert(now.drop_last() =~= init);
    assert(now.last() == windows[n - 1]);
    let before = appended(columns, init);
    lemma_flatten_push(before, seq![windows[n - 1]]);
    if n - 1 == j {
        lemma_appended_contains(columns, init, windows[j]);
        lemma_appended_contains(columns, init, windows[i]);
        assert(init[i] == windows[i]);
        assert(init.contains(windows[i]));
        let a = before.flatten().index_of(windows[i]);
        let all = appended(columns, now).flatten();
        assert(all[a] == windows[i]);
        assert(all[before.flatten().len() as int] == windows[j]);
    } else {
        lemma_appended_in_order(columns, windows, n - 1, i, j);
        let (a, b) = choose|a: int, b: int|
            {
                let shown = appended(columns, windows.take(n - 1)).flatten();
                &&& 0 <= a < b < shown.len()
                &&& #[trigger] appended(columns, windows.take(n - 1)).flatten()[a] == windows[i]
                &&& #[trigger] appended(columns, windows.take(n - 1)).flatten()[b] == windows[j]
            };
        let all = appended(columns, now).flatten();
        assert(all[a] == windows[i]);
        assert(all[b] == windows[j]);
    }
}

/// Merging keeps the columns that are there, and takes over the others as they are where no window
/// of them is there already.
pub proof fn law_merge_keeps_columns(columns: Seq<Seq<Entity>>, other: Seq<Seq<Entity>>)
    ensures
        columns.is_prefix_of(merged(columns, other)),
        solid(other) && (forall|e: Entity|
            other.flatten().contains(e) ==> !#[trigger] columns.flatten().contains(e)) ==> merged(
            columns,
            other,
        ) == columns + other,
{
    if solid(other) && (forall|e: Entity|
        other.flatten().contains(e) ==> !#[trigger] columns.flatten().contains(e)) {
        let p = |e: Entity| !columns.flatten().contains(e);
        assert forall|e: Entity| other.flatten().contains(e) implies #[trigger] p(e) by {
            assert(!columns.flatten().contains(e));
        }
        lemma_filtered_all(other, p);
    }
}

/// After merging a strip holds the windows of both, and no others.
pub proof fn law_merge_holds_both(
    columns: Seq<Seq<Entity>>,
    other: Seq<Seq<Entity>>,
    entity: Entity,
)
    ensures
        merged(columns, other).flatten().contains(entity) <==> columns.flatten().contains(entity)
            || other.flatten().contains(entity),
{
    broadcast use vstd::seq_lib::lemma_seq_concat_contains_all_elements;

    law_merge_keeps_order(columns, other);
    lemma_filter_contains(
        other.flatten(),
        |e: Entity| !columns.flatten().contains(e),
        entity,
    );
}

} // verus!
