//! The strip of window columns that a workspace shows.
use crate::sequences::{
    first_where, holds, lemma_filter_all, lemma_filter_contains, lemma_filter_no_duplicates,
    lemma_filter_same, lemma_filter_step, lemma_filter_twice, lemma_first_where,
    lemma_first_where_is, lemma_first_where_none, lemma_flatten_add, lemma_flatten_contains,
    lemma_flatten_push, lemma_flatten_step,
};
use crate::{Entity, WorkspaceId};
use vstd::prelude::*;

verus! {

/// The windows of one workspace, in columns from left to right, each from top to bottom.
#[derive(Debug, PartialEq, Eq)]
pub struct LayoutStrip {
    id: WorkspaceId,
    columns: Vec<Vec<Entity>>,
}

/// What a strip is: the workspace and the columns.
#[verifier::ext_equal]
pub struct StripView {
    pub id: WorkspaceId,
    pub columns: Seq<Seq<Entity>>,
}

impl StripView {
    /// The windows of the strip, column by column.
    pub open spec fn windows(self) -> Seq<Entity> {
        self.columns.flatten()
    }

    /// The window at the top of the leftmost column.
    pub open spec fn first(self) -> Option<Entity> {
        if self.columns.len() > 0 && self.columns[0].len() > 0 {
            Some(self.columns[0][0])
        } else {
            None
        }
    }

    /// The leftmost column that holds a window.
    pub open spec fn index_of(self, entity: Entity) -> Option<int> {
        first_where(self.columns, |c: Seq<Entity>| c.contains(entity))
    }
}

/// No column is empty.
pub open spec fn solid(columns: Seq<Seq<Entity>>) -> bool {
    forall|i: int| 0 <= i < columns.len() ==> (#[trigger] columns[i]).len() > 0
}

/// The columns with only the windows of which a predicate holds; a column left empty goes.
pub open spec fn filtered(columns: Seq<Seq<Entity>>, p: spec_fn(Entity) -> bool) -> Seq<
    Seq<Entity>,
> {
    columns.map_values(|c: Seq<Entity>| c.filter(p)).filter(|c: Seq<Entity>| c.len() > 0)
}

/// The columns with a column of its own at the right end for each window they lack.
pub open spec fn appended(columns: Seq<Seq<Entity>>, windows: Seq<Entity>) -> Seq<Seq<Entity>>
    decreases windows.len(),
{
    if windows.len() == 0 {
        columns
    } else {
        let before = appended(columns, windows.drop_last());
        if before.flatten().contains(windows.last()) {
            before
        } else {
            before.push(seq![windows.last()])
        }
    }
}

/// The columns that show exactly the given windows: those that were there keep their places, the
/// others follow.
pub open spec fn refreshed(columns: Seq<Seq<Entity>>, windows: Seq<Entity>) -> Seq<Seq<Entity>> {
    appended(filtered(columns, |e: Entity| windows.contains(e)), windows)
}

/// The columns, followed by those of another strip without the windows that are already there.
pub open spec fn merged(columns: Seq<Seq<Entity>>, other: Seq<Seq<Entity>>) -> Seq<Seq<Entity>> {
    columns + filtered(other, |e: Entity| !columns.flatten().contains(e))
}

/// A further column is filtered like the others.
pub proof fn lemma_filtered_push(columns: Seq<Seq<Entity>>, column: Seq<Entity>, p: spec_fn(Entity) -> bool)
    ensures
        filtered(columns.push(column), p) == if column.filter(p).len() > 0 {
            filtered(columns, p).push(column.filter(p))
        } else {
            filtered(columns, p)
        },
{
    let f = |c: Seq<Entity>| c.filter(p);
    let long = columns.push(column).map_values(f);
    assert(long =~= columns.map_values(f).push(column.filter(p)));
    lemma_filter_step(long, |c: Seq<Entity>| c.len() > 0, columns.len() as int);
    assert(long.take(columns.len() as int) =~= columns.map_values(f));
    assert(long.take(columns.len() as int + 1) =~= long);
}

/// Columns are the columns before the last, and the last.
proof fn lemma_split_last(columns: Seq<Seq<Entity>>)
    requires
        columns.len() > 0,
    ensures
        columns == columns.drop_last().push(columns.last()),
{
    assert(columns =~= columns.drop_last().push(columns.last()));
}

/// Nothing is left of no columns.
proof fn lemma_filtered_none(columns: Seq<Seq<Entity>>, p: spec_fn(Entity) -> bool)
    requires
        columns.len() == 0,
    ensures
        filtered(columns, p) == columns,
{
    reveal(Seq::filter);
    assert(filtered(columns, p) =~= columns);
}

/// Filtered columns are never empty.
proof fn lemma_filtered_solid(columns: Seq<Seq<Entity>>, p: spec_fn(Entity) -> bool)
    ensures
        solid(filtered(columns, p)),
    decreases columns.len(),
{
    if columns.len() == 0 {
        lemma_filtered_none(columns, p);
    } else {
        lemma_split_last(columns);
        lemma_filtered_solid(columns.drop_last(), p);
        lemma_filtered_push(columns.drop_last(), columns.last(), p);
    }
}

/// Filtering columns twice is filtering them by both predicates.
proof fn lemma_filtered_twice(columns: Seq<Seq<Entity>>, p: spec_fn(Entity) -> bool, q: spec_fn(Entity) -> bool)
    ensures
        filtered(filtered(columns, p), q) == filtered(columns, |e: Entity| p(e) && q(e)),
    decreases columns.len(),
{
    let both = |e: Entity| p(e) && q(e);
    if columns.len() == 0 {
        lemma_filtered_none(columns, p);
        lemma_filtered_none(columns, q);
        lemma_filtered_none(columns, both);
    } else {
        let init = columns.drop_last();
        let last = columns.last();
        lemma_split_last(columns);
        lemma_filtered_twice(init, p, q);
        lemma_filtered_push(init, last, p);
        lemma_filtered_push(init, last, both);
        lemma_filter_twice(last, p, q);
        assert(last.filter(p).filter(q) == last.filter(both));
        if last.filter(p).len() > 0 {
            lemma_filtered_push(filtered(init, p), last.filter(p), q);
        } else {
            assert(last.filter(p).filter(q).len() == 0) by {
                reveal(Seq::filter);
            }
        }
    }
}

/// Predicates that agree on the windows filter columns alike.
proof fn lemma_filtered_same(columns: Seq<Seq<Entity>>, p: spec_fn(Entity) -> bool, q: spec_fn(Entity) -> bool)
    requires
        forall|e: Entity| columns.flatten().contains(e) ==> #[trigger] p(e) == q(e),
    ensures
        filtered(columns, p) == filtered(columns, q),
    decreases columns.len(),
{
    if columns.len() == 0 {
        lemma_filtered_none(columns, p);
        lemma_filtered_none(columns, q);
    } else {
        let init = columns.drop_last();
        let last = columns.last();
        lemma_split_last(columns);
        lemma_flatten_push(init, last);
        let all = columns.flatten();
        assert forall|e: Entity| init.flatten().contains(e) implies #[trigger] p(e) == q(e) by {
            let k = init.flatten().index_of(e);
            assert(all[k] == e);
            assert(all.contains(e));
        }
        assert forall|i: int| 0 <= i < last.len() implies p(#[trigger] last[i]) == q(last[i]) by {
            assert(all[init.flatten().len() + i] == last[i]);
            assert(all.contains(last[i]));
        }
        lemma_filtered_same(init, p, q);
        lemma_filter_same(last, p, q);
        lemma_filtered_push(init, last, p);
        lemma_filtered_push(init, last, q);
    }
}

/// A predicate that holds of every window keeps columns of which none is empty.
pub proof fn lemma_filtered_all(columns: Seq<Seq<Entity>>, p: spec_fn(Entity) -> bool)
    requires
        solid(columns),
        forall|e: Entity| columns.flatten().contains(e) ==> #[trigger] p(e),
    ensures
        filtered(columns, p) == columns,
    decreases columns.len(),
{
    if columns.len() == 0 {
        lemma_filtered_none(columns, p);
    } else {
        let init = columns.drop_last();
        let last = columns.last();
        lemma_split_last(columns);
        lemma_flatten_push(init, last);
        let all = columns.flatten();
        assert forall|e: Entity| init.flatten().contains(e) implies #[trigger] p(e) by {
            let k = init.flatten().index_of(e);
            assert(all[k] == e);
            assert(all.contains(e));
        }
        assert forall|i: int| 0 <= i < last.len() implies p(#[trigger] last[i]) by {
            assert(all[init.flatten().len() + i] == last[i]);
            assert(all.contains(last[i]));
        }
        assert forall|i: int| 0 <= i < init.len() implies (#[trigger] init[i]).len() > 0 by {
            assert(init[i] == columns[i]);
        }
        assert(columns[columns.len() - 1].len() > 0);
        lemma_filtered_all(init, p);
        lemma_filter_all(last, p);
        lemma_filtered_push(init, last, p);
    }
}

/// The windows of filtered columns are the filtered windows.
pub proof fn lemma_filtered_windows(columns: Seq<Seq<Entity>>, p: spec_fn(Entity) -> bool)
    ensures
        filtered(columns, p).flatten() == columns.flatten().filter(p),
    decreases columns.len(),
{
    if columns.len() == 0 {
        lemma_filtered_none(columns, p);
        reveal(Seq::filter);
        assert(columns.flatten() =~= Seq::<Entity>::empty());
    } else {
        let init = columns.drop_last();
        let last = columns.last();
        lemma_split_last(columns);
        lemma_filtered_windows(init, p);
        lemma_filtered_push(init, last, p);
        lemma_flatten_push(init, last);
        Seq::filter_distributes_over_add(init.flatten(), last, p);
        if last.filter(p).len() > 0 {
            lemma_flatten_push(filtered(init, p), last.filter(p));
        } else {
            assert(init.flatten().filter(p) + last.filter(p) =~= init.flatten().filter(p));
        }
    }
}

/// A strip holds a window where one of its columns does.
pub proof fn lemma_index_of(strip: StripView, entity: Entity)
    ensures
        strip.index_of(entity) is Some <==> strip.windows().contains(entity),
        strip.index_of(entity) matches Some(k) ==> {
            &&& 0 <= k < strip.columns.len()
            &&& strip.columns[k].contains(entity)
            &&& forall|j: int| 0 <= j < k ==> !(#[trigger] strip.columns[j]).contains(entity)
        },
{
    let p = |c: Seq<Entity>| c.contains(entity);
    lemma_first_where(strip.columns, p);
    lemma_flatten_contains(strip.columns, entity);
    match strip.index_of(entity) {
        Some(k) => {
            assert(p(strip.columns[k]));
            assert forall|j: int| 0 <= j < k implies !(#[trigger] strip.columns[j]).contains(entity) by {
                assert(!p(strip.columns[j]));
            }
        },
        None => {
            assert forall|j: int| 0 <= j < strip.columns.len() implies !(
            #[trigger] strip.columns[j]).contains(entity) by {
                assert(!p(strip.columns[j]));
            }
        },
    }
}

/// Refreshing keeps the order: the windows that stay come first, as they stood, and the others
/// follow.
pub proof fn law_refresh_keeps_order(columns: Seq<Seq<Entity>>, windows: Seq<Entity>)
    ensures
        columns.flatten().filter(|e: Entity| windows.contains(e)).is_prefix_of(
            refreshed(columns, windows).flatten(),
        ),
{
    let p = |e: Entity| windows.contains(e);
    lemma_filtered_windows(columns, p);
    lemma_appended_prefix(filtered(columns, p), windows);
}

/// Refreshed columns hold the given windows and no others.
pub proof fn law_refresh_shows_windows(columns: Seq<Seq<Entity>>, windows: Seq<Entity>, entity: Entity)
    ensures
        refreshed(columns, windows).flatten().contains(entity) <==> windows.contains(entity),
{
    let p = |e: Entity| windows.contains(e);
    lemma_filtered_windows(columns, p);
    lemma_filter_contains(columns.flatten(), p, entity);
    lemma_appended_contains(filtered(columns, p), windows, entity);
}

/// Refreshing again with the same windows changes nothing.
pub proof fn law_refresh_idempotent(columns: Seq<Seq<Entity>>, windows: Seq<Entity>)
    ensures
        refreshed(refreshed(columns, windows), windows) == refreshed(columns, windows),
{
    let p = |e: Entity| windows.contains(e);
    let once = refreshed(columns, windows);
    law_refresh_solid(columns, windows);
    assert forall|e: Entity| once.flatten().contains(e) implies #[trigger] p(e) by {
        law_refresh_shows_windows(columns, windows, e);
    }
    lemma_filtered_all(once, p);
    assert forall|i: int| 0 <= i < windows.len() implies once.flatten().contains(
        #[trigger] windows[i],
    ) by {
        law_refresh_shows_windows(columns, windows, windows[i]);
    }
    lemma_appended_nothing(once, windows);
}

/// No column of a refreshed strip is empty.
pub proof fn law_refresh_solid(columns: Seq<Seq<Entity>>, windows: Seq<Entity>)
    ensures
        solid(refreshed(columns, windows)),
{
    let p = |e: Entity| windows.contains(e);
    lemma_filtered_solid(columns, p);
    lemma_appended_solid(filtered(columns, p), windows);
}

/// A strip that shows each window once still does after refreshing.
pub proof fn law_refresh_no_duplicates(columns: Seq<Seq<Entity>>, windows: Seq<Entity>)
    requires
        columns.flatten().no_duplicates(),
    ensures
        refreshed(columns, windows).flatten().no_duplicates(),
{
    let p = |e: Entity| windows.contains(e);
    lemma_filtered_windows(columns, p);
    lemma_filter_no_duplicates(columns.flatten(), p);
    lemma_appended_no_duplicates(filtered(columns, p), windows);
}

/// Merging keeps the windows that are there, in order, and the others follow, in order.
pub proof fn law_merge_keeps_order(columns: Seq<Seq<Entity>>, other: Seq<Seq<Entity>>)
    ensures
        merged(columns, other).flatten() == columns.flatten() + other.flatten().filter(
            |e: Entity| !columns.flatten().contains(e),
        ),
{
    let p = |e: Entity| !columns.flatten().contains(e);
    lemma_filtered_windows(other, p);
    lemma_flatten_add(columns, filtered(other, p));
}

/// Merging leaves no empty column where there was none.
pub proof fn law_merge_solid(columns: Seq<Seq<Entity>>, other: Seq<Seq<Entity>>)
    requires
        solid(columns),
    ensures
        solid(merged(columns, other)),
{
    let p = |e: Entity| !columns.flatten().contains(e);
    lemma_filtered_solid(other, p);
}

/// A strip without windows takes the other over as it is.
pub proof fn law_merge_into_empty(other: Seq<Seq<Entity>>)
    requires
        solid(other),
    ensures
        merged(Seq::empty(), other) == other,
{
    let none = Seq::<Seq<Entity>>::empty();
    assert(none.flatten() =~= Seq::<Entity>::empty());
    lemma_filtered_all(other, |e: Entity| !none.flatten().contains(e));
    assert(merged(none, other) =~= other);
}

proof fn lemma_appended_prefix(columns: Seq<Seq<Entity>>, windows: Seq<Entity>)
    ensures
        columns.flatten().is_prefix_of(appended(columns, windows).flatten()),
    decreases windows.len(),
{
    if windows.len() > 0 {
        lemma_appended_prefix(columns, windows.drop_last());
        let before = appended(columns, windows.drop_last());
        lemma_flatten_push(before, seq![windows.last()]);
    }
}

pub proof fn lemma_appended_contains(columns: Seq<Seq<Entity>>, windows: Seq<Entity>, entity: Entity)
    ensures
        appended(columns, windows).flatten().contains(entity) <==> columns.flatten().contains(
            entity,
        ) || windows.contains(entity),
    decreases windows.len(),
{
    if windows.len() > 0 {
        let init = windows.drop_last();
        let last = windows.last();
        let before = appended(columns, init);
        lemma_appended_contains(columns, init, entity);
        lemma_flatten_push(before, seq![last]);
        let old = before.flatten();
        let new = before.push(seq![last]).flatten();
        assert(new[old.len() as int] == last);
        if old.contains(entity) {
            let k = old.index_of(entity);
            assert(new[k] == entity);
        }
        if new.contains(entity) {
            let k = new.index_of(entity);
            if k < old.len() {
                assert(old[k] == entity);
            }
        }
        if init.contains(entity) {
            let k = init.index_of(entity);
            assert(windows[k] == entity);
        }
        if windows.contains(entity) {
            let k = windows.index_of(entity);
            if k < init.len() {
                assert(init[k] == entity);
            }
        }
        assert(windows[windows.len() - 1] == last);
    }
}

proof fn lemma_appended_solid(columns: Seq<Seq<Entity>>, windows: Seq<Entity>)
    requires
        solid(columns),
    ensures
        solid(appended(columns, windows)),
    decreases windows.len(),
{
    if windows.len() > 0 {
        lemma_appended_solid(columns, windows.drop_last());
    }
}

proof fn lemma_appended_nothing(columns: Seq<Seq<Entity>>, windows: Seq<Entity>)
    requires
        forall|i: int| 0 <= i < windows.len() ==> columns.flatten().contains(#[trigger] windows[i]),
    ensures
        appended(columns, windows) == columns,
    decreases windows.len(),
{
    if windows.len() > 0 {
        let init = windows.drop_last();
        assert forall|i: int| 0 <= i < init.len() implies columns.flatten().contains(
            #[trigger] init[i],
        ) by {
            assert(init[i] == windows[i]);
        }
        lemma_appended_nothing(columns, init);
        assert(columns.flatten().contains(windows[windows.len() - 1]));
    }
}

proof fn lemma_appended_no_duplicates(columns: Seq<Seq<Entity>>, windows: Seq<Entity>)
    requires
        columns.flatten().no_duplicates(),
    ensures
        appended(columns, windows).flatten().no_duplicates(),
    decreases windows.len(),
{
    if windows.len() > 0 {
        lemma_appended_no_duplicates(columns, windows.drop_last());
        let before = appended(columns, windows.drop_last());
        lemma_flatten_push(before, seq![windows.last()]);
    }
}

impl View for LayoutStrip {
    type V = StripView;

    closed spec fn view(&self) -> StripView {
        StripView {
            id: self.id,
            columns: self.columns@.map_values(|c: Vec<Entity>| c@),
        }
    }
}

impl Clone for LayoutStrip {
    fn clone(&self) -> (copy: LayoutStrip)
        ensures
            copy@ == self@,
    {
        proof {
            use_type_invariant(self);
        }
        let ghost all = self@.columns;
        let mut columns: Vec<Vec<Entity>> = Vec::new();
        for i in 0..self.columns.len()
            invariant
                all == self@.columns,
                columns@.map_values(|c: Vec<Entity>| c@) == all.take(i as int),
        {
            let ghost before = columns@.map_values(|c: Vec<Entity>| c@);
            let column = self.columns[i].clone();
            assert(column@ =~= all[i as int]);
            columns.push(column);
            assert(columns@.map_values(|c: Vec<Entity>| c@) =~= before.push(all[i as int]));
            assert(all.take(i + 1) =~= all.take(i as int).push(all[i as int]));
        }
        assert(all.take(self.columns@.len() as int) =~= all);
        LayoutStrip { id: self.id, columns }
    }
}

/// Whether a list holds an entity.
fn lists(list: &Vec<Entity>, entity: Entity) -> (found: bool)
    ensures
        found == list@.contains(entity),
{
    let test = |e: &Entity| -> (r: bool)
        ensures
            r == (*e == entity),
    {
        *e == entity
    };
    holds(list, test, Ghost(entity))
}

/// The columns without the windows of a list; a column left empty goes.
fn without(columns: &Vec<Vec<Entity>>, list: &Vec<Entity>) -> (kept: Vec<Vec<Entity>>)
    ensures
        kept@.map_values(|c: Vec<Entity>| c@) == filtered(
            columns@.map_values(|c: Vec<Entity>| c@),
            |e: Entity| !list@.contains(e),
        ),
{
    let ghost all = columns@.map_values(|c: Vec<Entity>| c@);
    let ghost p = |e: Entity| !list@.contains(e);
    let mut kept: Vec<Vec<Entity>> = Vec::new();
    proof {
        lemma_filtered_none(all.take(0), p);
        assert(kept@.map_values(|c: Vec<Entity>| c@) =~= all.take(0));
    }
    for i in 0..columns.len()
        invariant
            all == columns@.map_values(|c: Vec<Entity>| c@),
            p == (|e: Entity| !list@.contains(e)),
            kept@.map_values(|c: Vec<Entity>| c@) == filtered(all.take(i as int), p),
    {
        let column = &columns[i];
        let mut rest: Vec<Entity> = Vec::new();
        proof {
            reveal(Seq::filter);
            assert(rest@ =~= column@.take(0).filter(p));
        }
        for j in 0..column.len()
            invariant
                p == (|e: Entity| !list@.contains(e)),
                rest@ == column@.take(j as int).filter(p),
        {
            proof {
                lemma_filter_step(column@, p, j as int);
            }
            if !lists(list, column[j]) {
                rest.push(column[j]);
            }
        }
        let ghost before = kept@.map_values(|c: Vec<Entity>| c@);
        proof {
            assert(column@.take(column@.len() as int) =~= column@);
            assert(column@ == all[i as int]);
            assert(all.take(i + 1) =~= all.take(i as int).push(all[i as int]));
            lemma_filtered_push(all.take(i as int), all[i as int], p);
        }
        if rest.len() > 0 {
            kept.push(rest);
            assert(kept@.map_values(|c: Vec<Entity>| c@) =~= before.push(rest@));
        }
    }
    assert(all.take(columns@.len() as int) =~= all);
    kept
}

impl LayoutStrip {
    #[verifier::type_invariant]
    spec fn well_formed(self) -> bool {
        solid(self.columns@.map_values(|c: Vec<Entity>| c@))
    }

    /// A strip without windows.
    pub fn new(id: WorkspaceId) -> (strip: LayoutStrip)
        ensures
            strip@ == (StripView { id, columns: Seq::empty() }),
    {
        let columns: Vec<Vec<Entity>> = Vec::new();
        proof {
            assert(columns@.map_values(|c: Vec<Entity>| c@) =~= Seq::<Seq<Entity>>::empty());
        }
        LayoutStrip { id, columns }
    }

    /// A strip of the given columns; empty ones are left out.
    pub fn from_columns(id: WorkspaceId, columns: Vec<Vec<Entity>>) -> (strip: LayoutStrip)
        ensures
            strip@.id == id,
            strip@.columns == columns@.map_values(|c: Vec<Entity>| c@).filter(
                |c: Seq<Entity>| c.len() > 0,
            ),
    {
        let ghost all = columns@.map_values(|c: Vec<Entity>| c@);
        let ghost p = |c: Seq<Entity>| c.len() > 0;
        let mut kept: Vec<Vec<Entity>> = Vec::new();
        proof {
            reveal(Seq::filter);
            assert(kept@.map_values(|c: Vec<Entity>| c@) =~= all.take(0).filter(p));
        }
        for i in 0..columns.len()
            invariant
                all == columns@.map_values(|c: Vec<Entity>| c@),
                p == (|c: Seq<Entity>| c.len() > 0),
                kept@.map_values(|c: Vec<Entity>| c@) == all.take(i as int).filter(p),
                solid(kept@.map_values(|c: Vec<Entity>| c@)),
        {
            let ghost before = kept@.map_values(|c: Vec<Entity>| c@);
            proof {
                lemma_filter_step(all, p, i as int);
            }
            if columns[i].len() > 0 {
                let column = columns[i].clone();
                assert(column@ =~= columns@[i as int]@);
                kept.push(column);
                assert(kept@.map_values(|c: Vec<Entity>| c@) =~= before.push(all[i as int]));
            }
        }
        assert(all.take(columns@.len() as int) =~= all);
        LayoutStrip { id, columns: kept }
    }

    /// The workspace of the strip.
    pub fn id(&self) -> (id: WorkspaceId)
        ensures
            id == self@.id,
    {
        self.id
    }

    /// The windows of the strip, column by column.
    pub fn all_windows(&self) -> (windows: Vec<Entity>)
        ensures
            windows@ == self@.windows(),
    {
        let ghost all = self@.columns;
        let mut windows: Vec<Entity> = Vec::new();
        assert(all.take(0).flatten() =~= Seq::<Entity>::empty());
        for i in 0..self.columns.len()
            invariant
                all == self@.columns,
                windows@ == all.take(i as int).flatten(),
        {
            let column = &self.columns[i];
            let ghost before = windows@;
            for j in 0..column.len()
                invariant
                    column@ == all[i as int],
                    windows@ == before + column@.take(j as int),
            {
                windows.push(column[j]);
                assert(windows@ =~= before + column@.take(j + 1));
            }
            proof {
                assert(column@.take(column@.len() as int) =~= column@);
                lemma_flatten_step(all, i as int);
            }
        }
        assert(all.take(self.columns@.len() as int) =~= all);
        windows
    }

    /// The leftmost column that holds a window.
    pub fn index_of(&self, entity: Entity) -> (index: Option<usize>)
        ensures
            match index {
                Some(k) => self@.index_of(entity) == Some(k as int),
                None => self@.index_of(entity) is None,
            },
    {
        for i in 0..self.columns.len()
            invariant
                forall|j: int| 0 <= j < i ==> !(#[trigger] self@.columns[j]).contains(entity),
        {
            assert(self@.columns[i as int] == self.columns@[i as int]@);
            if lists(&self.columns[i], entity) {
                proof {
                    lemma_first_where_is(
                        self@.columns,
                        |c: Seq<Entity>| c.contains(entity),
                        i as int,
                    );
                }
                return Some(i);
            }
        }
        proof {
            lemma_first_where_none(self@.columns, |c: Seq<Entity>| c.contains(entity));
        }
        None
    }

    /// The window at the top of the leftmost column.
    pub fn first(&self) -> (window: Option<Entity>)
        ensures
            window == self@.first(),
    {
        if self.columns.len() > 0 {
            assert(self@.columns[0] == self.columns@[0]@);
            if self.columns[0].len() > 0 {
                return Some(self.columns[0][0]);
            }
        }
        None
    }

    /// Puts a window into a column of its own at the right end.
    pub fn append(&mut self, entity: Entity)
        ensures
            final(self)@.id == old(self)@.id,
            final(self)@.columns == old(self)@.columns.push(seq![entity]),
    {
        proof {
            use_type_invariant(&*self);
        }
        let ghost before = self@.columns;
        let mut columns: Vec<Vec<Entity>> = Vec::new();
        std::mem::swap(&mut columns, &mut self.columns);
        let mut column: Vec<Entity> = Vec::new();
        column.push(entity);
        columns.push(column);
        proof {
            assert(column@ =~= seq![entity]);
            assert(columns@.map_values(|c: Vec<Entity>| c@) =~= before.push(seq![entity]));
        }
        self.columns = columns;
    }

    /// Takes a window out of the strip; a column left empty goes.
    pub fn remove(&mut self, entity: Entity)
        ensures
            final(self)@.id == old(self)@.id,
            final(self)@.columns == filtered(old(self)@.columns, |e: Entity| e != entity),
    {
        let mut list: Vec<Entity> = Vec::new();
        list.push(entity);
        let kept = without(&self.columns, &list);
        proof {
            let p = |e: Entity| !list@.contains(e);
            assert forall|e: Entity| self@.columns.flatten().contains(e) implies #[trigger] p(e) == (
            e != entity) by {
                assert(list@[0] == entity);
            }
            lemma_filtered_same(self@.columns, p, |e: Entity| e != entity);
            lemma_filtered_solid(self@.columns, p);
        }
        self.columns = kept;
    }

    /// Takes over the columns of another strip at the right end, without the windows that are
    /// already there.
    pub fn merge(&mut self, other: &LayoutStrip)
        ensures
            final(self)@.id == old(self)@.id,
            final(self)@.columns == merged(old(self)@.columns, other@.columns),
    {
        proof {
            use_type_invariant(&*self);
        }
        let ghost before = self@.columns;
        let shown = self.all_windows();
        let mut taken = without(&other.columns, &shown);
        let ghost added = taken@.map_values(|c: Vec<Entity>| c@);
        let mut columns: Vec<Vec<Entity>> = Vec::new();
        std::mem::swap(&mut columns, &mut self.columns);
        columns.append(&mut taken);
        proof {
            assert(columns@.map_values(|c: Vec<Entity>| c@) =~= before + added);
            law_merge_solid(before, other@.columns);
        }
        self.columns = columns;
    }

    /// Makes the strip show exactly the given windows. The order is kept: windows that are already
    /// shown stay where they are.
    pub fn refresh(&mut self, windows: &Vec<Entity>)
        ensures
            final(self)@.id == old(self)@.id,
            final(self)@.columns == refreshed(old(self)@.columns, windows@),
    {
        proof {
            use_type_invariant(&*self);
        }
        let ghost start = self@;
        let keep = windows;
        let shown = self.all_windows();
        proof {
            let q = |e: Entity| keep@.contains(e) || !shown@.take(0).contains(e);
            lemma_filtered_all(start.columns, q);
        }
        for i in 0..shown.len()
            invariant
                shown@ == start.windows(),
                self@.id == start.id,
                self@.columns == filtered(
                    start.columns,
                    |e: Entity| keep@.contains(e) || !shown@.take(i as int).contains(e),
                ),
        {
            let entity = shown[i];
            let ghost before = |e: Entity| keep@.contains(e) || !shown@.take(i as int).contains(e);
            let ghost after = |e: Entity| keep@.contains(e) || !shown@.take(i + 1).contains(e);
            let ghost seen = shown@.take(i as int);
            let ghost now = shown@.take(i + 1);
            proof {
                assert(now =~= seen.push(entity));
                assert(now[i as int] == entity);
                assert forall|e: Entity| now.contains(e) <==> seen.contains(e) || e == entity by {
                    if seen.contains(e) {
                        let k = seen.index_of(e);
                        assert(now[k] == e);
                    }
                    if now.contains(e) {
                        let k = now.index_of(e);
                        if k < i {
                            assert(seen[k] == e);
                        }
                    }
                }
            }
            if !lists(keep, entity) {
                self.remove(entity);
                proof {
                    let other = |e: Entity| e != entity;
                    let both = |e: Entity| before(e) && other(e);
                    lemma_filtered_twice(start.columns, before, other);
                    lemma_filtered_same(start.columns, both, after);
                }
            } else {
                proof {
                    lemma_filtered_same(start.columns, before, after);
                }
            }
        }
        proof {
            let last = |e: Entity| keep@.contains(e) || !shown@.take(shown@.len() as int).contains(e);
            let p = |e: Entity| keep@.contains(e);
            assert(shown@.take(shown@.len() as int) =~= shown@);
            lemma_filtered_same(start.columns, last, p);
        }
        let ghost kept = self@.columns;
        assert(keep@.take(0).len() == 0);
        for i in 0..keep.len()
            invariant
                self@.id == start.id,
                self@.columns == appended(kept, keep@.take(i as int)),
        {
            let ghost now = keep@.take(i + 1);
            proof {
                assert(now.drop_last() =~= keep@.take(i as int));
                assert(now.last() == keep@[i as int]);
                lemma_index_of(self@, keep@[i as int]);
            }
            if self.index_of(keep[i]).is_none() {
                self.append(keep[i]);
            }
        }
        assert(keep@.take(keep@.len() as int) =~= keep@);
    }
}

} // verus!
