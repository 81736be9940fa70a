//! What becomes of the strips of the world when the commands are carried out.
use crate::commands::CommandView;
use crate::displays::{
    added, display_removed, known_display, law_strips_outlive_display, orphaned, present_index,
    DisplayEntry, PresentDisplay, StripEntry,
};
use crate::geometry::Display;
use crate::orphans::{
    display_at, lemma_placements_follow, lemma_recovery_steps, orphan_of, recovered, reinserted, AttachedStrip,
    DisplayEntity, Orphan, RatedWindow, Recovery,
};
use crate::scalar::Scalar;
use crate::sequences::{lemma_first_where, lemma_flat_map_contains, lemma_flat_map_split};
use crate::strip::{law_merge_into_empty, merged, solid, StripView};
use crate::timeouts::TimeoutView;
use crate::{DisplayId, Entity, WorkspaceId};
use vstd::prelude::*;

verus! {

/// A strip in the world: the display that it is a child of, and how long it is waited for.
pub struct StripState {
    pub strip: StripView,
    pub parent: Option<Entity>,
    pub waits: Option<TimeoutView>,
}

/// The strips after an entity was removed, which takes its children along.
pub open spec fn despawned(world: Map<Entity, StripState>, entity: Entity) -> Map<
    Entity,
    StripState,
> {
    Map::new(
        |e: Entity| world.contains_key(e) && e != entity && world[e].parent != Some(entity),
        |e: Entity| world[e],
    )
}

/// The strips after a command.
pub open spec fn carried_out(world: Map<Entity, StripState>, command: CommandView) -> Map<
    Entity,
    StripState,
> {
    match command {
        CommandView::InsertTimeout { entity, timeout } => if world.contains_key(entity) {
            world.insert(entity, StripState { waits: Some(timeout), ..world[entity] })
        } else {
            world
        },
        CommandView::RemoveTimeout(entity) => if world.contains_key(entity) {
            world.insert(entity, StripState { waits: None, ..world[entity] })
        } else {
            world
        },
        CommandView::Detach { child, parent } => if world.contains_key(child)
            && world[child].parent == Some(parent) {
            world.insert(child, StripState { parent: None, ..world[child] })
        } else {
            world
        },
        CommandView::Despawn(entity) => despawned(world, entity),
        _ => world,
    }
}

/// The strips after commands.
pub open spec fn after_commands(world: Map<Entity, StripState>, commands: Seq<CommandView>) -> Map<
    Entity,
    StripState,
>
    decreases commands.len(),
{
    if commands.len() == 0 {
        world
    } else {
        carried_out(after_commands(world, commands.drop_last()), commands.last())
    }
}

/// The strips after a new one was spawned for each workspace, as children of a display.
pub open spec fn after_spawn(
    world: Map<Entity, StripState>,
    display: Entity,
    workspaces: Seq<WorkspaceId>,
    entities: Seq<Entity>,
) -> Map<Entity, StripState>
    decreases workspaces.len(),
{
    if workspaces.len() == 0 {
        world
    } else {
        after_spawn(world, display, workspaces.drop_last(), entities).insert(
            entities[workspaces.len() - 1],
            StripState {
                strip: StripView { id: workspaces.last(), columns: Seq::empty() },
                parent: Some(display),
                waits: None,
            },
        )
    }
}

/// The strips after the command to spawn a display, which becomes `display`, and its strips, which
/// become `entities`.
pub open spec fn after_display(
    world: Map<Entity, StripState>,
    command: CommandView,
    display: Entity,
    entities: Seq<Entity>,
) -> Map<Entity, StripState> {
    match command {
        CommandView::SpawnDisplay { workspaces, .. } => after_spawn(
            world,
            display,
            workspaces,
            entities,
        ),
        _ => world,
    }
}

/// The strips after a step of a recovery.
pub open spec fn recovered_by<C>(world: Map<Entity, StripState>, step: Recovery<C>) -> Map<
    Entity,
    StripState,
> {
    match step {
        Recovery::Merge { orphan, into } => if world.contains_key(orphan) && world.contains_key(
            into,
        ) {
            world.insert(
                into,
                StripState {
                    strip: StripView {
                        id: world[into].strip.id,
                        columns: merged(world[into].strip.columns, world[orphan].strip.columns),
                    },
                    ..world[into]
                },
            )
        } else {
            world
        },
        Recovery::Despawn(entity) => despawned(world, entity),
        Recovery::Place(_) => world,
    }
}

/// The strips after the steps of a recovery.
pub open spec fn after_recovery<C>(world: Map<Entity, StripState>, steps: Seq<Recovery<C>>) -> Map<
    Entity,
    StripState,
>
    decreases steps.len(),
{
    if steps.len() == 0 {
        world
    } else {
        recovered_by(after_recovery(world, steps.drop_last()), steps.last())
    }
}

/// Whether a list holds the strips that are without a display.
pub open spec fn lists_orphans(world: Map<Entity, StripState>, orphans: Seq<Orphan>) -> bool {
    &&& forall|i: int|
        0 <= i < orphans.len() ==> {
            &&& world.contains_key((#[trigger] orphans[i]).entity)
            &&& world[orphans[i].entity].parent is None
            &&& world[orphans[i].entity].strip == orphans[i].strip@
        }
    &&& forall|e: Entity| #[trigger]
        world.contains_key(e) && world[e].parent is None ==> exists|i: int|
            0 <= i < orphans.len() && (#[trigger] orphans[i]).entity == e
}

/// Whether a list holds the strips that are on a display, each once.
pub open spec fn lists_attached(world: Map<Entity, StripState>, strips: Seq<AttachedStrip>) -> bool {
    &&& forall|i: int|
        0 <= i < strips.len() ==> {
            &&& world.contains_key((#[trigger] strips[i]).entity)
            &&& world[strips[i].entity].parent == Some(strips[i].parent)
            &&& world[strips[i].entity].strip.id == strips[i].id
        }
    &&& forall|i: int, j: int|
        0 <= i < j < strips.len() ==> (#[trigger] strips[i]).entity != (#[trigger] strips[j]).entity
    &&& forall|e: Entity| #[trigger]
        world.contains_key(e) && world[e].parent is Some ==> exists|i: int|
            0 <= i < strips.len() && (#[trigger] strips[i]).entity == e
}

/// Whether a list of entries holds the strips that are on a display.
pub open spec fn lists_entries(world: Map<Entity, StripState>, strips: Seq<StripEntry>) -> bool {
    forall|e: Entity| #[trigger]
        world.contains_key(e) && world[e].parent is Some ==> exists|i: int|
            {
                &&& 0 <= i < strips.len()
                &&& (#[trigger] strips[i]).entity == e
                &&& strips[i].id == world[e].strip.id
                &&& world[e].parent == Some(strips[i].parent)
            }
}

/// The strips after a display was removed and has come back, as `display` with strips `entities`.
pub open spec fn display_back(
    world: Map<Entity, StripState>,
    id: DisplayId,
    entries: Seq<StripEntry>,
    known: Seq<DisplayEntry>,
    present: Seq<PresentDisplay>,
    display: Entity,
    entities: Seq<Entity>,
) -> Map<Entity, StripState> {
    after_display(
        after_commands(world, display_removed(id, entries, known)),
        added(id, present)[0],
        display,
        entities,
    )
}

/// What the removal of a display does to a strip, the return of the display undoes. When a display
/// is removed, and comes back with the workspace, listed once, of a strip that it had and that is the
/// only one of that workspace, and the orphans are brought back before the wait for them is over: then exactly
/// one strip of the workspace is left. It is on the display that has come back, has the columns of
/// the strip that was there, and is not waited for.
pub proof fn law_removal_is_undone<C: Scalar>(
    world: Map<Entity, StripState>,
    id: DisplayId,
    entries: Seq<StripEntry>,
    known: Seq<DisplayEntry>,
    strip: Entity,
    present: Seq<PresentDisplay>,
    display: Entity,
    entities: Seq<Entity>,
    j: int,
    orphans: Seq<Orphan>,
    strips: Seq<AttachedStrip>,
    windows: Seq<RatedWindow<C>>,
    displays: Seq<DisplayEntity<C>>,
)
    requires
        known_display(known, id) is Some,
        lists_entries(world, entries),
        !world.contains_key(known_display(known, id)->0.entity),
        world.contains_key(strip),
        world[strip].parent == Some(known_display(known, id)->0.entity),
        solid(world[strip].strip.columns),
        forall|e: Entity| #[trigger]
            world.contains_key(e) && e != strip ==> world[e].strip.id != world[strip].strip.id,
        present_index(present, id) is Some,
        ({
            let workspaces = present[present_index(present, id)->0].workspaces@;
            &&& 0 <= j < workspaces.len()
            &&& forall|i: int|
                0 <= i < workspaces.len() ==> (#[trigger] workspaces[i] == world[strip].strip.id
                    <==> i == j)
            &&& entities.len() == workspaces.len()
        }),
        entities.no_duplicates(),
        forall|i: int| 0 <= i < entities.len() ==> !world.contains_key(#[trigger] entities[i]),
        !world.contains_key(display),
        !entities.contains(display),
        display_at(displays, display) is Some,
        ({
            let back = display_back(world, id, entries, known, present, display, entities);
            &&& lists_orphans(back, orphans)
            &&& lists_attached(back, strips)
        }),
    ensures
        ({
            let back = display_back(world, id, entries, known, present, display, entities);
            let end = after_recovery(
                back,
                strips.flat_map(recovered(orphans, displays, windows)),
            );
            &&& end.contains_key(entities[j])
            &&& end[entities[j]] == (StripState {
                strip: world[strip].strip,
                parent: Some(display),
                waits: None,
            })
            &&& forall|e: Entity| #[trigger]
                end.contains_key(e) && end[e].strip.id == world[strip].strip.id ==> e
                    == entities[j]
        }),
{
    let workspaces = present[present_index(present, id)->0].workspaces@;
    let back = display_back(world, id, entries, known, present, display, entities);
    let new = entities[j];
    let number = world[strip].strip.id;

    // The strip outlives the display, and is then without one.
    let alone = after_commands(world, display_removed(id, entries, known));
    lemma_strip_orphaned(world, id, entries, known, strip);
    lemma_spawn(alone, display, workspaces, entities);
    assert(back == after_spawn(alone, display, workspaces, entities));
    assert(entities.contains(new));
    assert(!entities.contains(strip)) by {
        if entities.contains(strip) {
            assert(!world.contains_key(entities[entities.index_of(strip)]));
        }
    }
    assert forall|e: Entity| #[trigger] back.contains_key(e) && back[e].strip.id == number implies e
        == strip || e == new by {
        if entities.contains(e) {
            let k = entities.index_of(e);
            assert(back[entities[k]].strip.id == workspaces[k]);
        } else {
            assert(world.contains_key(e));
        }
    }

    // The orphan of the workspace is the strip; it is merged into the one that was spawned.
    let i = choose|i: int| 0 <= i < strips.len() && (#[trigger] strips[i]).entity == new;
    assert(back.contains_key(new));
    let p = |o: Orphan| o.strip@.id == number;
    lemma_first_where(orphans, p);
    let m = choose|m: int| 0 <= m < orphans.len() && (#[trigger] orphans[m]).entity == strip;
    assert(back.contains_key(strip));
    assert(p(orphans[m]));
    let k = orphan_of(orphans, number)->0;
    assert(orphan_of(orphans, number) is Some);
    assert(back.contains_key(orphans[k].entity));
    assert(orphans[k].entity == strip);

    let f = recovered(orphans, displays, windows);
    let (head, tail) = lemma_flat_map_split(strips, f, i);
    let own = f(strips[i]);
    lemma_recovery_add(back, head + own, tail);
    lemma_recovery_add(back, head, own);
    let first = after_recovery(back, head);
    let second = after_recovery(first, own);
    let end = after_recovery(second, tail);
    assert(after_recovery(back, strips.flat_map(f)) == end);

    let before = strips.take(i);
    let after = strips.skip(i + 1);
    assert forall|n: int| 0 <= n < before.len() implies (#[trigger] before[n]).entity != new by {
        assert(before[n] == strips[n]);
    }
    assert forall|n: int| 0 <= n < after.len() implies (#[trigger] after[n]).entity != new by {
        assert(after[n] == strips[n + i + 1]);
    }
    assert forall|n: int| 0 <= n < before.len() implies strips.contains(#[trigger] before[n]) by {
        assert(before[n] == strips[n]);
    }
    assert forall|n: int| 0 <= n < after.len() implies strips.contains(#[trigger] after[n]) by {
        assert(after[n] == strips[n + i + 1]);
    }
    lemma_apart(back, orphans, displays, windows, before, display, new);
    lemma_apart(back, orphans, displays, windows, after, display, new);
    lemma_apart_orphan(back, orphans, strips, displays, windows, before, new, strip);
    lemma_kept(back, head, new);
    lemma_kept(back, head, strip);

    lemma_merged(first, strips[i], orphans[k], display_at(displays, display)->0, windows);
    law_merge_into_empty(world[strip].strip.columns);
    assert(second[new].strip =~= world[strip].strip);

    lemma_kept(second, tail, new);
    lemma_numbers(back, head);
    lemma_numbers(first, own);
    lemma_numbers(second, tail);
    assert forall|e: Entity| #[trigger] end.contains_key(e) && end[e].strip.id == number implies e
        == new by {
        assert(second.contains_key(e));
        assert(first.contains_key(e));
        assert(back.contains_key(e));
    }
}

/// Taking strips away from a display, and waiting for them, changes none of them otherwise.
proof fn lemma_detached(
    world: Map<Entity, StripState>,
    commands: Seq<CommandView>,
    strip: Entity,
    display: Entity,
)
    requires
        forall|i: int|
            0 <= i < commands.len() ==> (#[trigger] commands[i]) is InsertTimeout
                || commands[i] is Detach,
    ensures
        ({
            let end = after_commands(world, commands);
            &&& forall|e: Entity| #[trigger] end.contains_key(e) <==> world.contains_key(e)
            &&& forall|e: Entity| #[trigger]
                end.contains_key(e) ==> end[e].strip == world[e].strip && (end[e].parent
                    == world[e].parent || end[e].parent is None)
            &&& world.contains_key(strip) && world[strip].parent == Some(display)
                && commands.contains(CommandView::Detach { child: strip, parent: display })
                ==> end[strip].parent is None
        }),
    decreases commands.len(),
{
    if commands.len() > 0 {
        let init = commands.drop_last();
        assert forall|i: int| 0 <= i < init.len() implies (#[trigger] init[i]) is InsertTimeout
            || init[i] is Detach by {
            assert(init[i] == commands[i]);
        }
        lemma_detached(world, init, strip, display);
        let detach = CommandView::Detach { child: strip, parent: display };
        assert(commands[commands.len() - 1] == commands.last());
        let less = after_commands(world, init);
        assert(less.contains_key(strip) <==> world.contains_key(strip));
        if commands.contains(detach) && commands.last() != detach {
            let k = commands.index_of(detach);
            assert(init[k] == detach);
        }
    }
}

/// When the display of a strip is removed, the strip is left as it was, without a display; and no
/// strip is new or has become another.
proof fn lemma_strip_orphaned(
    world: Map<Entity, StripState>,
    id: DisplayId,
    entries: Seq<StripEntry>,
    known: Seq<DisplayEntry>,
    strip: Entity,
)
    requires
        known_display(known, id) is Some,
        lists_entries(world, entries),
        !world.contains_key(known_display(known, id)->0.entity),
        world.contains_key(strip),
        world[strip].parent == Some(known_display(known, id)->0.entity),
    ensures
        ({
            let alone = after_commands(world, display_removed(id, entries, known));
            &&& alone.contains_key(strip)
            &&& alone[strip].strip == world[strip].strip
            &&& alone[strip].parent is None
            &&& forall|e: Entity| #[trigger]
                alone.contains_key(e) ==> world.contains_key(e) && alone[e].strip == world[e].strip
        }),
{
    let display = known_display(known, id)->0.entity;
    let commands = display_removed(id, entries, known);
    let f = orphaned(display);
    let init = entries.flat_map(f);
    assert(commands.drop_last() =~= init);
    assert(commands.last() == CommandView::Despawn(display));
    assert forall|i: int| 0 <= i < init.len() implies (#[trigger] init[i]) is InsertTimeout
        || init[i] is Detach by {
        let command = init[i];
        assert(init.contains(command));
        lemma_flat_map_contains(entries, f, command);
        let n = choose|n: int| 0 <= n < entries.len() && #[trigger] f(entries[n]).contains(command);
        let k = f(entries[n]).index_of(command);
        assert(f(entries[n])[k] == command);
    }
    let s = choose|i: int|
        {
            &&& 0 <= i < entries.len()
            &&& (#[trigger] entries[i]).entity == strip
            &&& entries[i].id == world[strip].strip.id
            &&& world[strip].parent == Some(entries[i].parent)
        };
    law_strips_outlive_display(id, entries, known, s);
    lemma_detached(world, init, strip, display);
    let less = after_commands(world, init);
    assert(less.contains_key(strip));
    assert(after_commands(world, commands) == despawned(less, display));
    assert forall|e: Entity| #[trigger] after_commands(world, commands).contains_key(e) implies
        world.contains_key(e) && after_commands(world, commands)[e].strip == world[e].strip by {
        assert(less.contains_key(e));
    }
}

/// Spawning strips adds empty ones and changes no other.
proof fn lemma_spawn(
    world: Map<Entity, StripState>,
    display: Entity,
    workspaces: Seq<WorkspaceId>,
    entities: Seq<Entity>,
)
    requires
        workspaces.len() <= entities.len(),
        entities.no_duplicates(),
    ensures
        ({
            let end = after_spawn(world, display, workspaces, entities);
            &&& forall|i: int|
                0 <= i < workspaces.len() ==> {
                    &&& end.contains_key(#[trigger] entities[i])
                    &&& end[entities[i]] == (StripState {
                        strip: StripView { id: workspaces[i], columns: Seq::empty() },
                        parent: Some(display),
                        waits: None,
                    })
                }
            &&& forall|e: Entity|
                !entities.contains(e) ==> (#[trigger] end.contains_key(e) <==> world.contains_key(e))
            &&& forall|e: Entity|
                !entities.contains(e) && #[trigger] end.contains_key(e) ==> end[e] == world[e]
        }),
    decreases workspaces.len(),
{
    if workspaces.len() > 0 {
        let init = workspaces.drop_last();
        lemma_spawn(world, display, init, entities);
        let last = entities[workspaces.len() - 1];
        assert(entities.contains(last));
    }
}

/// The steps of two recoveries in turn are the steps of one.
proof fn lemma_recovery_add<C>(
    world: Map<Entity, StripState>,
    first: Seq<Recovery<C>>,
    second: Seq<Recovery<C>>,
)
    ensures
        after_recovery(world, first + second) == after_recovery(
            after_recovery(world, first),
            second,
        ),
    decreases second.len(),
{
    if second.len() == 0 {
        assert(first + second =~= first);
    } else {
        lemma_recovery_add(world, first, second.drop_last());
        assert((first + second).drop_last() =~= first + second.drop_last());
    }
}

/// Whether a step leaves a strip, whose display is not removed by it, as it is.
spec fn spares<C>(step: Recovery<C>, entity: Entity, parent: Option<Entity>) -> bool {
    match step {
        Recovery::Merge { into, .. } => into != entity,
        Recovery::Despawn(gone) => gone != entity && parent != Some(gone),
        Recovery::Place(_) => true,
    }
}

/// A strip that every step leaves as it is stays as it is.
proof fn lemma_kept<C>(world: Map<Entity, StripState>, steps: Seq<Recovery<C>>, entity: Entity)
    requires
        world.contains_key(entity),
        forall|i: int|
            0 <= i < steps.len() ==> spares(#[trigger] steps[i], entity, world[entity].parent),
    ensures
        after_recovery(world, steps).contains_key(entity),
        after_recovery(world, steps)[entity] == world[entity],
    decreases steps.len(),
{
    if steps.len() > 0 {
        let init = steps.drop_last();
        assert forall|i: int| 0 <= i < init.len() implies spares(
            #[trigger] init[i],
            entity,
            world[entity].parent,
        ) by {
            assert(init[i] == steps[i]);
        }
        lemma_kept(world, init, entity);
        assert(spares(steps[steps.len() - 1], entity, world[entity].parent));
    }
}

/// A recovery adds no strip, and leaves each on its workspace.
proof fn lemma_numbers<C>(world: Map<Entity, StripState>, steps: Seq<Recovery<C>>)
    ensures
        forall|e: Entity| #[trigger]
            after_recovery(world, steps).contains_key(e) ==> world.contains_key(e)
                && after_recovery(world, steps)[e].strip.id == world[e].strip.id,
    decreases steps.len(),
{
    if steps.len() > 0 {
        let less = after_recovery(world, steps.drop_last());
        let end = after_recovery(world, steps);
        lemma_numbers(world, steps.drop_last());
        assert forall|e: Entity| #[trigger] end.contains_key(e) implies world.contains_key(e)
            && end[e].strip.id == world[e].strip.id by {
            assert(less.contains_key(e));
        }
    }
}

/// What is done for other strips leaves a strip that is on a display as it is.
proof fn lemma_apart<C: Scalar>(
    world: Map<Entity, StripState>,
    orphans: Seq<Orphan>,
    displays: Seq<DisplayEntity<C>>,
    windows: Seq<RatedWindow<C>>,
    others: Seq<AttachedStrip>,
    display: Entity,
    entity: Entity,
)
    requires
        lists_orphans(world, orphans),
        world.contains_key(entity),
        world[entity].parent == Some(display),
        !world.contains_key(display),
        forall|n: int| 0 <= n < others.len() ==> (#[trigger] others[n]).entity != entity,
    ensures
        forall|i: int|
            0 <= i < others.flat_map(recovered(orphans, displays, windows)).len() ==> spares(
                #[trigger] others.flat_map(recovered(orphans, displays, windows))[i],
                entity,
                Some(display),
            ),
{
    let f = recovered(orphans, displays, windows);
    let steps = others.flat_map(f);
    assert forall|i: int| 0 <= i < steps.len() implies spares(
        #[trigger] steps[i],
        entity,
        Some(display),
    ) by {
        let step = steps[i];
        assert(steps.contains(step));
        lemma_flat_map_contains(others, f, step);
        let n = choose|n: int| 0 <= n < others.len() && #[trigger] f(others[n]).contains(step);
        lemma_recovery_steps(others[n], orphans, displays, windows, step);
        lemma_first_where(orphans, |o: Orphan| o.strip@.id == others[n].id);
        let orphan = orphans[orphan_of(orphans, others[n].id)->0];
        assert(world.contains_key(orphan.entity));
    }
}

/// What is done for strips of other workspaces leaves an orphan as it is.
proof fn lemma_apart_orphan<C: Scalar>(
    world: Map<Entity, StripState>,
    orphans: Seq<Orphan>,
    strips: Seq<AttachedStrip>,
    displays: Seq<DisplayEntity<C>>,
    windows: Seq<RatedWindow<C>>,
    others: Seq<AttachedStrip>,
    new: Entity,
    entity: Entity,
)
    requires
        lists_orphans(world, orphans),
        lists_attached(world, strips),
        world.contains_key(entity),
        world[entity].parent is None,
        forall|n: int| 0 <= n < others.len() ==> strips.contains(#[trigger] others[n]),
        forall|n: int| 0 <= n < others.len() ==> (#[trigger] others[n]).entity != new,
        forall|e: Entity| #[trigger]
            world.contains_key(e) && world[e].strip.id == world[entity].strip.id ==> e == entity
                || e == new,
    ensures
        forall|i: int|
            0 <= i < others.flat_map(recovered(orphans, displays, windows)).len() ==> spares(
                #[trigger] others.flat_map(recovered(orphans, displays, windows))[i],
                entity,
                None,
            ),
{
    let f = recovered(orphans, displays, windows);
    let steps = others.flat_map(f);
    assert forall|i: int| 0 <= i < steps.len() implies spares(
        #[trigger] steps[i],
        entity,
        None,
    ) by {
        let step = steps[i];
        assert(steps.contains(step));
        lemma_flat_map_contains(others, f, step);
        let n = choose|n: int| 0 <= n < others.len() && #[trigger] f(others[n]).contains(step);
        lemma_recovery_steps(others[n], orphans, displays, windows, step);
        lemma_first_where(orphans, |o: Orphan| o.strip@.id == others[n].id);
        let orphan = orphans[orphan_of(orphans, others[n].id)->0];
        assert(world.contains_key(orphan.entity));
        let a = strips.index_of(others[n]);
        assert(strips[a] == others[n]);
        assert(world.contains_key(others[n].entity));
    }
}

/// What is done for a strip merges the orphan into it and removes the orphan.
proof fn lemma_merged<C: Scalar>(
    world: Map<Entity, StripState>,
    strip: AttachedStrip,
    orphan: Orphan,
    display: Display<C>,
    windows: Seq<RatedWindow<C>>,
)
    requires
        world.contains_key(strip.entity),
        world.contains_key(orphan.entity),
        strip.entity != orphan.entity,
        world[strip.entity].parent != Some(orphan.entity),
    ensures
        ({
            let end = after_recovery(
                world,
                reinserted(strip, orphan, display, windows),
            );
            let old = world[strip.entity];
            &&& !end.contains_key(orphan.entity)
            &&& end.contains_key(strip.entity)
            &&& end[strip.entity] == (StripState {
                strip: StripView {
                    id: old.strip.id,
                    columns: merged(old.strip.columns, world[orphan.entity].strip.columns),
                },
                ..old
            })
        }),
{
    let steps = reinserted(strip, orphan, display, windows);
    let merge = seq![steps[0]];
    let gone = seq![steps[1]];
    let places = steps.skip(2);
    assert(steps =~= merge + gone + places);
    lemma_recovery_add(world, merge + gone, places);
    lemma_recovery_add(world, merge, gone);
    let first = after_recovery(world, merge);
    let second = after_recovery(first, gone);
    assert(merge.drop_last() =~= Seq::empty());
    assert(gone.drop_last() =~= Seq::empty());
    assert(first == recovered_by(world, steps[0])) by {
        reveal_with_fuel(after_recovery, 2);
    }
    assert(second == recovered_by(first, steps[1])) by {
        reveal_with_fuel(after_recovery, 2);
    }
    assert forall|i: int| 0 <= i < places.len() implies (#[trigger] places[i]) is Place by {
        lemma_placements_follow(strip, orphan, display, windows, i + 2);
    }
    lemma_places(second, places);
}

/// Placing windows changes no strip.
proof fn lemma_places<C>(world: Map<Entity, StripState>, steps: Seq<Recovery<C>>)
    requires
        forall|i: int| 0 <= i < steps.len() ==> (#[trigger] steps[i]) is Place,
    ensures
        after_recovery(world, steps) == world,
    decreases steps.len(),
{
    if steps.len() > 0 {
        let init = steps.drop_last();
        assert forall|i: int| 0 <= i < init.len() implies (#[trigger] init[i]) is Place by {
            assert(init[i] == steps[i]);
        }
        lemma_places(world, init);
        assert(steps[steps.len() - 1] is Place);
    }
}

} // verus!
