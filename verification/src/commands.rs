//! Deferred commands and the one place where they change the document, the
//! identity map and, through the actions they emit, the runtime.
//!
//! A command is inert data. `Editor::apply_command` applies one command;
//! `EditorCommands::apply` drains a queue of them in the order they were
//! queued. Neither touches the runtime: each returns the actions that the
//! caller is to perform on it, in order. A command queued while a queue is
//! being applied goes into the queue that the next call of `apply` drains.

use vstd::prelude::*;
use crate::entity::{
    added, added_all, all_registered, bags_view, clone_bags, is_store, lemma_add_all_appends,
    lemma_add_all_keeps_store, lemma_add_keeps_store, ComponentsExt, EditorBundle,
};
use crate::error::EditorError;
use crate::identity::{handle_bound, lemma_bound_fresh, IdentityMap};
use crate::property::{BagView, DynamicProperties};
use crate::registry::ComponentRegistry;
use crate::scene::{index_of_entity, EntityView, Scene, SceneEntity};
use crate::util::reversed;

verus! {

/// Something for the caller to do to the runtime.
#[derive(Debug)]
pub enum WorldAction {
    /// Mark the runtime object `handle` as the widget of entity `widget`.
    Spawn { widget: u32, handle: u64 },
    /// Build the component that `component` describes and put it on the
    /// runtime object `handle`, in place of one of the same type.
    Insert { handle: u64, component: DynamicProperties },
}

/// Mathematical model of a [`WorldAction`].
pub enum ActionView {
    Spawn { widget: u32, handle: u64 },
    Insert { handle: u64, component: BagView },
}

impl View for WorldAction {
    type V = ActionView;

    open spec fn view(&self) -> ActionView {
        match self {
            WorldAction::Spawn { widget, handle } => ActionView::Spawn {
                widget: *widget,
                handle: *handle,
            },
            WorldAction::Insert { handle, component } => ActionView::Insert {
                handle: *handle,
                component: component@,
            },
        }
    }
}

/// The models of the actions of `v`, in order.
pub open spec fn actions_view(v: Seq<WorldAction>) -> Seq<ActionView> {
    Seq::new(v.len(), |i: int| v[i]@)
}

/// A deferred change.
#[derive(Debug)]
pub enum Command {
    /// Make a new entity from the bags of a bundle.
    Spawn(EditorBundle),
    /// Add a bag to the entity that was spawned last.
    With(DynamicProperties),
    /// Add the bags of a bundle to the entity that was spawned last.
    WithBundle(EditorBundle),
    /// Add a bag to the entity with the given id.
    InsertOne(u32, DynamicProperties),
    /// Put every bag of the entity with the given id on its runtime object.
    SyncToWorld(u32),
    /// Put the bags of the named type of the entity with the given id on
    /// its runtime object.
    SyncOneToWorld(u32, String),
}

/// Mathematical model of a [`Command`].
pub enum CommandView {
    Spawn(Seq<BagView>),
    With(BagView),
    WithBundle(Seq<BagView>),
    InsertOne(u32, BagView),
    SyncToWorld(u32),
    SyncOneToWorld(u32, Seq<char>),
}

impl View for Command {
    type V = CommandView;

    open spec fn view(&self) -> CommandView {
        match self {
            Command::Spawn(bundle) => CommandView::Spawn(bundle@),
            Command::With(bag) => CommandView::With(bag@),
            Command::WithBundle(bundle) => CommandView::WithBundle(bundle@),
            Command::InsertOne(id, bag) => CommandView::InsertOne(*id, bag@),
            Command::SyncToWorld(id) => CommandView::SyncToWorld(*id),
            Command::SyncOneToWorld(id, name) => CommandView::SyncOneToWorld(*id, name@),
        }
    }
}

/// The models of the commands of `v`, in order.
pub open spec fn commands_view(v: Seq<Command>) -> Seq<CommandView> {
    Seq::new(v.len(), |i: int| v[i]@)
}

/// Mathematical model of an [`Editor`].
pub struct EditorView {
    /// The runtime handle of each entity that has one.
    pub handles: Map<u32, u64>,
    /// The id that the next spawned entity gets.
    pub next_entity: u32,
    /// The entity that was spawned last, if any.
    pub current_entity: Option<u32>,
    /// The document.
    pub entities: Seq<EntityView>,
}

/// What applying one command gives.
pub struct Applied {
    /// The editor afterwards.
    pub state: EditorView,
    /// The actions emitted, in order.
    pub actions: Seq<ActionView>,
    /// Whether the fresh handle was bound to a new entity.
    pub used: bool,
    /// Whether the command was applied. Where it was not, nothing changed.
    pub result: Result<(), EditorError>,
}

/// What applying a sequence of commands gives.
pub struct Ran {
    /// The editor afterwards.
    pub state: EditorView,
    /// The actions emitted, in order.
    pub actions: Seq<ActionView>,
    /// The fresh handles that were not bound.
    pub handles: Seq<u64>,
    /// The failure that stopped the run, if one did.
    pub result: Result<(), EditorError>,
}

/// The actions that put each of `bags`, in order, on the object `handle`.
pub open spec fn installs(handle: u64, bags: Seq<BagView>) -> Seq<ActionView> {
    Seq::new(bags.len(), |i: int| ActionView::Insert { handle, component: bags[i] })
}

/// The bags of type `name` among `bags`, in order.
pub open spec fn bags_of_type(bags: Seq<BagView>, name: Seq<char>) -> Seq<BagView>
    decreases bags.len(),
{
    if bags.len() == 0 {
        Seq::empty()
    } else if bags.last().type_tag == name {
        bags_of_type(bags.drop_last(), name).push(bags.last())
    } else {
        bags_of_type(bags.drop_last(), name)
    }
}

/// A command that is refused: nothing changes and nothing is emitted.
pub open spec fn refused(state: EditorView, e: EditorError) -> Applied {
    Applied { state, actions: Seq::empty(), used: false, result: Err(e) }
}

/// The editor `state` with the bags of the entity at position `i` replaced.
pub open spec fn with_components(state: EditorView, i: int, components: Seq<BagView>) -> EditorView {
    EditorView {
        entities: state.entities.update(
            i,
            EntityView { entity: state.entities[i].entity, components },
        ),
        ..state
    }
}

/// Adding one bag to the entity with id `id`.
pub open spec fn step_insert(
    state: EditorView,
    id: u32,
    bag: BagView,
    registry: Map<Seq<char>, BagView>,
) -> Applied {
    match index_of_entity(state.entities, id) {
        None => refused(state, EditorError::IndexOutOfRange),
        Some(i) => match added(state.entities[i].components, bag, registry) {
            Err(e) => refused(state, e),
            Ok(after) => Applied {
                state: with_components(state, i, after),
                actions: Seq::empty(),
                used: false,
                result: Ok(()),
            },
        },
    }
}

/// Adding the bags of a bundle to the entity with id `id`: all of them, or
/// none where one of them fails.
pub open spec fn step_insert_all(
    state: EditorView,
    id: u32,
    bags: Seq<BagView>,
    registry: Map<Seq<char>, BagView>,
) -> Applied {
    match index_of_entity(state.entities, id) {
        None => refused(state, EditorError::IndexOutOfRange),
        Some(i) => match added_all(state.entities[i].components, bags, registry) {
            (_, Err(e)) => refused(state, e),
            (after, Ok(())) => Applied {
                state: with_components(state, i, after),
                actions: Seq::empty(),
                used: false,
                result: Ok(()),
            },
        },
    }
}

/// Spawning an entity from `bags`, with `fresh` as its runtime handle. The
/// spawn is refused where no id is left, where no handle is given, and
/// where the handle given is bound to an entity already.
pub open spec fn step_spawn(
    state: EditorView,
    bags: Seq<BagView>,
    registry: Map<Seq<char>, BagView>,
    fresh: Option<u64>,
) -> Applied {
    if state.next_entity == u32::MAX || fresh is None || handle_bound(
        state.handles,
        fresh->Some_0,
    ) {
        refused(state, EditorError::IndexOutOfRange)
    } else {
        match added_all(Seq::empty(), bags, registry) {
            (_, Err(e)) => refused(state, e),
            (store, Ok(())) => Applied {
                state: EditorView {
                    handles: state.handles.insert(state.next_entity, fresh->Some_0),
                    next_entity: (state.next_entity + 1) as u32,
                    current_entity: Some(state.next_entity),
                    entities: state.entities.push(
                        EntityView { entity: state.next_entity, components: store },
                    ),
                },
                actions: seq![
                    ActionView::Spawn { widget: state.next_entity, handle: fresh->Some_0 },
                ] + installs(fresh->Some_0, store),
                used: true,
                result: Ok(()),
            },
        }
    }
}

/// Putting on its runtime object the bags of the entity with id `id`: all
/// of them, or those of type `only`.
pub open spec fn step_sync(
    state: EditorView,
    id: u32,
    only: Option<Seq<char>>,
    registry: Map<Seq<char>, BagView>,
) -> Applied {
    match index_of_entity(state.entities, id) {
        None => refused(state, EditorError::IndexOutOfRange),
        Some(i) => {
            let bags = match only {
                Some(name) => bags_of_type(state.entities[i].components, name),
                None => state.entities[i].components,
            };
            if !state.handles.contains_key(id) {
                refused(state, EditorError::IndexOutOfRange)
            } else if !all_registered(bags, bags.len() as int, registry) {
                refused(state, EditorError::UnregisteredType)
            } else {
                Applied {
                    state,
                    actions: installs(state.handles[id], bags),
                    used: false,
                    result: Ok(()),
                }
            }
        },
    }
}

/// What applying `command` to `state` gives. `fresh` is a runtime handle
/// that no entity has yet, if the caller has one to give.
pub open spec fn step(
    state: EditorView,
    command: CommandView,
    registry: Map<Seq<char>, BagView>,
    fresh: Option<u64>,
) -> Applied {
    match command {
        CommandView::Spawn(bags) => step_spawn(state, bags, registry, fresh),
        CommandView::With(bag) => match state.current_entity {
            None => refused(state, EditorError::IndexOutOfRange),
            Some(id) => step_insert(state, id, bag, registry),
        },
        CommandView::WithBundle(bags) => match state.current_entity {
            None => refused(state, EditorError::IndexOutOfRange),
            Some(id) => step_insert_all(state, id, bags, registry),
        },
        CommandView::InsertOne(id, bag) => step_insert(state, id, bag, registry),
        CommandView::SyncToWorld(id) => step_sync(state, id, None, registry),
        CommandView::SyncOneToWorld(id, name) => step_sync(state, id, Some(name), registry),
    }
}

/// The first of the fresh handles, if there is one.
pub open spec fn first_handle(handles: Seq<u64>) -> Option<u64> {
    if handles.len() > 0 {
        Some(handles[0])
    } else {
        None
    }
}

/// What applying `commands` in order gives: each command is applied once, to
/// the state that the one before it left, and a spawn binds the first fresh
/// handle that is left.
///
/// The first command that fails stops the run, and the commands behind it
/// are not applied: they were queued on the footing that it succeeds. A
/// `With` behind a spawn that failed would reach the entity that was spawned
/// before, and a sync behind an add that failed would put on the runtime
/// what the add was to change.
pub open spec fn run(
    state: EditorView,
    commands: Seq<CommandView>,
    registry: Map<Seq<char>, BagView>,
    handles: Seq<u64>,
) -> Ran
    decreases commands.len(),
{
    if commands.len() == 0 {
        Ran { state, actions: Seq::empty(), handles, result: Ok(()) }
    } else {
        let first = step(state, commands[0], registry, first_handle(handles));
        match first.result {
            Err(e) => Ran { state, actions: Seq::empty(), handles, result: Err(e) },
            Ok(()) => {
                let rest = run(
                    first.state,
                    commands.drop_first(),
                    registry,
                    if first.used {
                        handles.drop_first()
                    } else {
                        handles
                    },
                );
                Ran { actions: first.actions + rest.actions, ..rest }
            },
        }
    }
}

/// What a run gives when one more command is applied behind it: the command
/// is applied to the state that the run left, with the first fresh handle
/// that the run left, unless the run had failed.
pub open spec fn and_then(ran: Ran, command: CommandView, registry: Map<Seq<char>, BagView>) -> Ran {
    match ran.result {
        Err(_) => ran,
        Ok(()) => {
            let next = step(ran.state, command, registry, first_handle(ran.handles));
            match next.result {
                Err(e) => Ran { result: Err(e), ..ran },
                Ok(()) => Ran {
                    state: next.state,
                    actions: ran.actions + next.actions,
                    handles: if next.used {
                        ran.handles.drop_first()
                    } else {
                        ran.handles
                    },
                    result: Ok(()),
                },
            }
        },
    }
}

/// What applying the commands one by one gives, each to the state that the
/// one before it left.
pub open spec fn one_by_one(
    state: EditorView,
    commands: Seq<CommandView>,
    registry: Map<Seq<char>, BagView>,
    handles: Seq<u64>,
) -> Ran
    decreases commands.len(),
{
    if commands.len() == 0 {
        Ran { state, actions: Seq::empty(), handles, result: Ok(()) }
    } else {
        and_then(one_by_one(state, commands.drop_last(), registry, handles), commands.last(), registry)
    }
}

/// A command that fails leaves the state as it was and emits nothing.
pub proof fn lemma_step_refused(
    state: EditorView,
    command: CommandView,
    registry: Map<Seq<char>, BagView>,
    fresh: Option<u64>,
)
    ensures
        step(state, command, registry, fresh).result is Err ==> step(
            state,
            command,
            registry,
            fresh,
        ) == refused(state, step(state, command, registry, fresh).result->Err_0),
{
}

/// A run of commands with one more command queued behind them is the run of
/// the commands, and then that command.
pub proof fn lemma_run_push(
    state: EditorView,
    commands: Seq<CommandView>,
    command: CommandView,
    registry: Map<Seq<char>, BagView>,
    handles: Seq<u64>,
)
    ensures
        run(state, commands.push(command), registry, handles) == and_then(
            run(state, commands, registry, handles),
            command,
            registry,
        ),
    decreases commands.len(),
{
    let longer = commands.push(command);
    let whole = run(state, longer, registry, handles);
    let front = run(state, commands, registry, handles);
    let expected = and_then(front, command, registry);
    if commands.len() == 0 {
        reveal_with_fuel(run, 3);
        assert(longer[0] == command);
        assert(longer.drop_first() =~= Seq::<CommandView>::empty());
        let first = step(state, command, registry, first_handle(handles));
        lemma_step_refused(state, command, registry, first_handle(handles));
        assert(whole.actions =~= expected.actions);
        assert(whole == expected);
    } else {
        assert(longer[0] == commands[0]);
        assert(longer.drop_first() =~= commands.drop_first().push(command));
        let first = step(state, commands[0], registry, first_handle(handles));
        lemma_step_refused(state, commands[0], registry, first_handle(handles));
        if first.result is Ok {
            let left = if first.used {
                handles.drop_first()
            } else {
                handles
            };
            lemma_run_push(first.state, commands.drop_first(), command, registry, left);
            let rest = run(first.state, commands.drop_first(), registry, left);
            let rest_longer = run(first.state, longer.drop_first(), registry, left);
            assert(rest_longer == and_then(rest, command, registry));
            assert(whole.actions =~= expected.actions);
            assert(whole == expected);
        }
    }
}

/// Draining a queue gives what applying its commands one by one, in the
/// order they were queued, gives.
pub proof fn lemma_run_is_one_by_one(
    state: EditorView,
    commands: Seq<CommandView>,
    registry: Map<Seq<char>, BagView>,
    handles: Seq<u64>,
)
    ensures
        run(state, commands, registry, handles) == one_by_one(state, commands, registry, handles),
    decreases commands.len(),
{
    if commands.len() > 0 {
        lemma_run_is_one_by_one(state, commands.drop_last(), registry, handles);
        lemma_run_push(state, commands.drop_last(), commands.last(), registry, handles);
        assert(commands.drop_last().push(commands.last()) =~= commands);
    }
}

/// Whether every entity of the document has an id below the next id.
pub open spec fn ids_below_next(state: EditorView) -> bool {
    forall|i: int| 0 <= i < state.entities.len() ==> state.entities[i].entity < state.next_entity
}

/// Whether an entity of the document has the id `id`.
pub open spec fn has_id(entities: Seq<EntityView>, id: u32) -> bool {
    exists|i: int| 0 <= i < entities.len() && #[trigger] entities[i].entity == id
}

/// Whether no two entities of the document have the same id.
pub open spec fn distinct_ids(entities: Seq<EntityView>) -> bool {
    forall|i: int, j: int| 0 <= i < j < entities.len() ==> entities[i].entity != entities[j].entity
}

/// Whether no two ids are bound to the same handle.
pub open spec fn one_to_one(handles: Map<u32, u64>) -> bool {
    forall|a: u32, b: u32|
        handles.contains_key(a) && handles.contains_key(b) && handles[a] == handles[b] ==> a == b
}

/// What holds of every editor: the ids in the document are distinct and
/// below the next id; the identity map binds the ids of the document, and
/// no others, each to a handle of its own.
pub open spec fn well_formed(state: EditorView) -> bool {
    &&& ids_below_next(state)
    &&& distinct_ids(state.entities)
    &&& one_to_one(state.handles)
    &&& forall|id: u32| #[trigger] state.handles.contains_key(id) <==> has_id(state.entities, id)
}

/// A command keeps the editor well-formed. A spawn puts exactly one pair
/// into the identity map: the new id, which was not bound, with the fresh
/// handle, which no id was bound to. Any other command, and a command that
/// fails, leaves the identity map as it was.
pub proof fn lemma_step_well_formed(
    state: EditorView,
    command: CommandView,
    registry: Map<Seq<char>, BagView>,
    fresh: Option<u64>,
)
    requires
        well_formed(state),
    ensures
        well_formed(step(state, command, registry, fresh).state),
        step(state, command, registry, fresh).used ==> {
            &&& fresh is Some
            &&& !state.handles.contains_key(state.next_entity)
            &&& !handle_bound(state.handles, fresh->Some_0)
            &&& step(state, command, registry, fresh).state.handles == state.handles.insert(
                state.next_entity,
                fresh->Some_0,
            )
        },
        !step(state, command, registry, fresh).used ==> step(
            state,
            command,
            registry,
            fresh,
        ).state.handles == state.handles,
{
    let after = step(state, command, registry, fresh).state;
    lemma_step_ids(state, command, registry, fresh);
    if step(state, command, registry, fresh).used {
        let id = state.next_entity;
        assert(!has_id(state.entities, id));
        assert(after.entities.last().entity == id);
        assert forall|other: u32| #[trigger] after.handles.contains_key(other) <==> has_id(
            after.entities,
            other,
        ) by {
            if other == id {
                assert(after.entities[after.entities.len() - 1].entity == id);
            } else if has_id(state.entities, other) {
                let i = choose|i: int|
                    0 <= i < state.entities.len() && #[trigger] state.entities[i].entity == other;
                assert(after.entities[i].entity == other);
            } else if has_id(after.entities, other) {
                let i = choose|i: int|
                    0 <= i < after.entities.len() && #[trigger] after.entities[i].entity == other;
                assert(state.entities[i].entity == other);
            }
        }
        assert forall|a: u32, b: u32|
            after.handles.contains_key(a) && after.handles.contains_key(b) && after.handles[a]
                == after.handles[b] implies a == b by {
            if a != b {
                if a == id {
                    assert(state.handles.contains_key(b));
                } else if b == id {
                    assert(state.handles.contains_key(a));
                }
            }
        }
    } else {
        assert forall|other: u32| #[trigger] after.handles.contains_key(other) <==> has_id(
            after.entities,
            other,
        ) by {
            if has_id(state.entities, other) {
                let i = choose|i: int|
                    0 <= i < state.entities.len() && #[trigger] state.entities[i].entity == other;
                assert(after.entities[i].entity == other);
            } else if has_id(after.entities, other) {
                let i = choose|i: int|
                    0 <= i < after.entities.len() && #[trigger] after.entities[i].entity == other;
                assert(state.entities[i].entity == other);
            }
        }
    }
}

/// A run of commands keeps the editor well-formed.
pub proof fn lemma_run_well_formed(
    state: EditorView,
    commands: Seq<CommandView>,
    registry: Map<Seq<char>, BagView>,
    handles: Seq<u64>,
)
    requires
        well_formed(state),
    ensures
        well_formed(run(state, commands, registry, handles).state),
    decreases commands.len(),
{
    if commands.len() > 0 {
        let first = step(state, commands[0], registry, first_handle(handles));
        lemma_step_well_formed(state, commands[0], registry, first_handle(handles));
        if first.result is Ok {
            let left = if first.used {
                handles.drop_first()
            } else {
                handles
            };
            lemma_run_well_formed(first.state, commands.drop_first(), registry, left);
        }
    }
}

/// Whether `after` holds the entities of `before`, each under its id and at
/// its place, and behind them entities with ids that `before` had not given
/// out, each greater than the one before it.
pub open spec fn ids_grow(before: EditorView, after: EditorView) -> bool {
    &&& before.next_entity <= after.next_entity
    &&& before.entities.len() <= after.entities.len()
    &&& forall|i: int|
        0 <= i < before.entities.len() ==> after.entities[i].entity == before.entities[i].entity
    &&& forall|i: int|
        before.entities.len() <= i < after.entities.len() ==> before.next_entity
            <= after.entities[i].entity
    &&& forall|i: int, j: int|
        before.entities.len() <= i < j < after.entities.len() ==> after.entities[i].entity
            < after.entities[j].entity
}

/// One command gives out at most one id: the next id, which is greater than
/// every id in the document, to the entity it spawns. It changes no id.
pub proof fn lemma_step_ids(
    state: EditorView,
    command: CommandView,
    registry: Map<Seq<char>, BagView>,
    fresh: Option<u64>,
)
    requires
        ids_below_next(state),
    ensures
        ids_below_next(step(state, command, registry, fresh).state),
        ids_grow(state, step(state, command, registry, fresh).state),
        step(state, command, registry, fresh).used ==> {
            let after = step(state, command, registry, fresh).state;
            &&& after.next_entity == state.next_entity + 1
            &&& after.entities.len() == state.entities.len() + 1
            &&& after.entities.last().entity == state.next_entity
        },
        !step(state, command, registry, fresh).used ==> {
            let after = step(state, command, registry, fresh).state;
            &&& after.next_entity == state.next_entity
            &&& after.entities.len() == state.entities.len()
        },
{
    match command {
        CommandView::With(bag) => {
            if let Some(id) = state.current_entity {
                crate::scene::lemma_index_of_entity_from(state.entities, id, 0);
            }
        },
        CommandView::WithBundle(bags) => {
            if let Some(id) = state.current_entity {
                crate::scene::lemma_index_of_entity_from(state.entities, id, 0);
            }
        },
        CommandView::InsertOne(id, bag) => {
            crate::scene::lemma_index_of_entity_from(state.entities, id, 0);
        },
        _ => {},
    }
}

/// Ids are given out in increasing order and never twice: after a run, the
/// entities that were there keep their ids, and the entities that the run
/// spawned have ids that were not given out before, each greater than the
/// one before it.
pub proof fn lemma_run_ids(
    state: EditorView,
    commands: Seq<CommandView>,
    registry: Map<Seq<char>, BagView>,
    handles: Seq<u64>,
)
    requires
        ids_below_next(state),
    ensures
        ids_below_next(run(state, commands, registry, handles).state),
        ids_grow(state, run(state, commands, registry, handles).state),
    decreases commands.len(),
{
    if commands.len() > 0 {
        let first = step(state, commands[0], registry, first_handle(handles));
        lemma_step_ids(state, commands[0], registry, first_handle(handles));
        if first.result is Ok {
            let left = if first.used {
                handles.drop_first()
            } else {
                handles
            };
            lemma_run_ids(first.state, commands.drop_first(), registry, left);
        }
    }
}

/// The editor before anything was spawned or loaded.
pub open spec fn fresh_editor() -> EditorView {
    EditorView {
        handles: Map::empty(),
        next_entity: 0,
        current_entity: None,
        entities: Seq::empty(),
    }
}

/// The id that follows `id`, unless `next` lies behind it already.
pub open spec fn next_after(next: u32, id: u32) -> u32 {
    if next > id {
        next
    } else {
        (id + 1) as u32
    }
}

/// Taking over one entity of a loaded document, under the id that it
/// carries and with `fresh` as its runtime handle: its bags are added, one
/// after the other, to an empty store. It is refused with `IndexOutOfRange`
/// where no handle is given or the handle is bound to an entity already,
/// with `SerializationFailure` where the id is in the document already or is
/// the last id, behind which no id is left, and as an add of a bag is.
pub open spec fn load_entity(
    state: EditorView,
    entity: EntityView,
    registry: Map<Seq<char>, BagView>,
    fresh: Option<u64>,
) -> Applied {
    if fresh is None || handle_bound(state.handles, fresh->Some_0) {
        refused(state, EditorError::IndexOutOfRange)
    } else if entity.entity == u32::MAX || index_of_entity(state.entities, entity.entity) is Some {
        refused(state, EditorError::SerializationFailure)
    } else {
        match added_all(Seq::empty(), entity.components, registry) {
            (_, Err(e)) => refused(state, e),
            (store, Ok(())) => Applied {
                state: EditorView {
                    handles: state.handles.insert(entity.entity, fresh->Some_0),
                    next_entity: next_after(state.next_entity, entity.entity),
                    current_entity: state.current_entity,
                    entities: state.entities.push(
                        EntityView { entity: entity.entity, components: store },
                    ),
                },
                actions: seq![
                    ActionView::Spawn { widget: entity.entity, handle: fresh->Some_0 },
                ] + installs(fresh->Some_0, store),
                used: true,
                result: Ok(()),
            },
        }
    }
}

/// Taking over the entities of a loaded document, in order, each with the
/// first fresh handle that is left. The first entity that is refused stops
/// the load.
pub open spec fn loaded(
    state: EditorView,
    entities: Seq<EntityView>,
    registry: Map<Seq<char>, BagView>,
    handles: Seq<u64>,
) -> Ran
    decreases entities.len(),
{
    if entities.len() == 0 {
        Ran { state, actions: Seq::empty(), handles, result: Ok(()) }
    } else {
        let first = load_entity(state, entities[0], registry, first_handle(handles));
        match first.result {
            Err(e) => Ran { state, actions: Seq::empty(), handles, result: Err(e) },
            Ok(()) => {
                let rest = loaded(
                    first.state,
                    entities.drop_first(),
                    registry,
                    handles.drop_first(),
                );
                Ran { actions: first.actions + rest.actions, ..rest }
            },
        }
    }
}

/// The entity that a loaded entity becomes: it keeps its id, and its store
/// is what adding its bags to an empty store gives.
pub open spec fn taken_over(entity: EntityView, registry: Map<Seq<char>, BagView>) -> EntityView {
    EntityView {
        entity: entity.entity,
        components: added_all(Seq::empty(), entity.components, registry).0,
    }
}

/// Taking over one entity keeps the editor well-formed. Where it succeeds,
/// the entity stands behind the others under its own id, which is below the
/// next id, and the identity map has gained the pair of that id and the
/// fresh handle, and no other.
pub proof fn lemma_load_entity(
    state: EditorView,
    entity: EntityView,
    registry: Map<Seq<char>, BagView>,
    fresh: Option<u64>,
)
    requires
        well_formed(state),
    ensures
        well_formed(load_entity(state, entity, registry, fresh).state),
        load_entity(state, entity, registry, fresh).result is Err ==> load_entity(
            state,
            entity,
            registry,
            fresh,
        ) == refused(state, load_entity(state, entity, registry, fresh).result->Err_0),
        load_entity(state, entity, registry, fresh).result is Ok ==> {
            let after = load_entity(state, entity, registry, fresh).state;
            &&& fresh is Some
            &&& !state.handles.contains_key(entity.entity)
            &&& after.handles == state.handles.insert(entity.entity, fresh->Some_0)
            &&& after.entities == state.entities.push(taken_over(entity, registry))
            &&& after.next_entity >= state.next_entity
            &&& after.next_entity > entity.entity
            &&& after.current_entity == state.current_entity
        },
{
    let applied = load_entity(state, entity, registry, fresh);
    let after = applied.state;
    if applied.result is Ok {
        let id = entity.entity;
        crate::scene::lemma_index_of_entity_from(state.entities, id, 0);
        assert(!has_id(state.entities, id));
        assert(after.entities[after.entities.len() - 1].entity == id);
        assert forall|other: u32| #[trigger] after.handles.contains_key(other) <==> has_id(
            after.entities,
            other,
        ) by {
            if other == id {
                assert(after.entities[after.entities.len() - 1].entity == id);
            } else if has_id(state.entities, other) {
                let i = choose|i: int|
                    0 <= i < state.entities.len() && #[trigger] state.entities[i].entity == other;
                assert(after.entities[i].entity == other);
            } else if has_id(after.entities, other) {
                let i = choose|i: int|
                    0 <= i < after.entities.len() && #[trigger] after.entities[i].entity == other;
                assert(state.entities[i].entity == other);
            }
        }
        assert forall|a: u32, b: u32|
            after.handles.contains_key(a) && after.handles.contains_key(b) && after.handles[a]
                == after.handles[b] implies a == b by {
            if a != b {
                if a == id {
                    assert(state.handles.contains_key(b));
                } else if b == id {
                    assert(state.handles.contains_key(a));
                }
            }
        }
        assert forall|i: int, j: int| 0 <= i < j < after.entities.len() implies after.entities[i].entity
            != after.entities[j].entity by {
            if j == after.entities.len() - 1 {
                assert(state.entities[i].entity != id);
            }
        }
    }
}

/// A load keeps the editor well-formed and the current entity. Where it
/// succeeds, the loaded entities stand behind those that were there, in
/// their order and each under the id that it carries; each is bound to the
/// handle at its place among the fresh handles; the pairs that the identity
/// map held are kept; and the next id lies above every id.
pub proof fn lemma_loaded(
    state: EditorView,
    entities: Seq<EntityView>,
    registry: Map<Seq<char>, BagView>,
    handles: Seq<u64>,
)
    requires
        well_formed(state),
    ensures
        well_formed(loaded(state, entities, registry, handles).state),
        loaded(state, entities, registry, handles).state.current_entity == state.current_entity,
        loaded(state, entities, registry, handles).state.next_entity >= state.next_entity,
        loaded(state, entities, registry, handles).result is Ok ==> {
            let after = loaded(state, entities, registry, handles).state;
            &&& handles.len() >= entities.len()
            &&& after.entities.len() == state.entities.len() + entities.len()
            &&& forall|i: int|
                0 <= i < state.entities.len() ==> #[trigger] after.entities[i] == state.entities[i]
            &&& forall|i: int|
                0 <= i < entities.len() ==> #[trigger] after.entities[state.entities.len() + i]
                    == taken_over(entities[i], registry)
            &&& forall|i: int|
                0 <= i < entities.len() ==> after.handles.contains_key(
                    (#[trigger] entities[i]).entity,
                ) && after.handles[entities[i].entity] == handles[i]
            &&& forall|id: u32| #[trigger]
                state.handles.contains_key(id) ==> after.handles.contains_key(id)
                    && after.handles[id] == state.handles[id]
        },
    decreases entities.len(),
{
    if entities.len() > 0 {
        let first = load_entity(state, entities[0], registry, first_handle(handles));
        lemma_load_entity(state, entities[0], registry, first_handle(handles));
        if first.result is Ok {
            let tail = entities.drop_first();
            let left = handles.drop_first();
            lemma_loaded(first.state, tail, registry, left);
            let whole = loaded(state, entities, registry, handles);
            let rest = loaded(first.state, tail, registry, left);
            assert(whole.state == rest.state);
            if whole.result is Ok {
                let after = whole.state;
                let base = state.entities.len() as int;
                assert forall|i: int| 0 <= i < base implies #[trigger] after.entities[i]
                    == state.entities[i] by {
                    assert(first.state.entities[i] == state.entities[i]);
                }
                assert forall|i: int| 0 <= i < entities.len() implies #[trigger] after.entities[base
                    + i] == taken_over(entities[i], registry) by {
                    if i == 0 {
                        assert(after.entities[base] == first.state.entities[base]);
                    } else {
                        assert(tail[i - 1] == entities[i]);
                        assert(after.entities[first.state.entities.len() + (i - 1)] == taken_over(
                            tail[i - 1],
                            registry,
                        ));
                    }
                }
                assert forall|i: int| 0 <= i < entities.len() implies after.handles.contains_key(
                    (#[trigger] entities[i]).entity,
                ) && after.handles[entities[i].entity] == handles[i] by {
                    if i == 0 {
                        assert(first.state.handles.contains_key(entities[0].entity));
                    } else {
                        assert(tail[i - 1] == entities[i]);
                        assert(left[i - 1] == handles[i]);
                    }
                }
                assert forall|id: u32| #[trigger] state.handles.contains_key(id) implies after.handles.contains_key(
                    id,
                ) && after.handles[id] == state.handles[id] by {
                    assert(first.state.handles.contains_key(id));
                }
            }
        }
    }
}

/// Whether the bags of every entity are a store as adds make it: no two
/// bags of one type, and every type registered.
pub open spec fn stores_valid(entities: Seq<EntityView>, registry: Map<Seq<char>, BagView>) -> bool {
    forall|i: int| 0 <= i < entities.len() ==> is_store((#[trigger] entities[i]).components, registry)
}

/// A command leaves every entity with a store as adds make it.
pub proof fn lemma_step_stores(
    state: EditorView,
    command: CommandView,
    registry: Map<Seq<char>, BagView>,
    fresh: Option<u64>,
)
    requires
        stores_valid(state.entities, registry),
    ensures
        stores_valid(step(state, command, registry, fresh).state.entities, registry),
{
    let applied = step(state, command, registry, fresh);
    let after = applied.state.entities;
    lemma_step_refused(state, command, registry, fresh);
    if applied.result is Ok {
        match command {
            CommandView::Spawn(bags) => {
                lemma_add_all_keeps_store(Seq::empty(), bags, registry);
                assert forall|i: int| 0 <= i < after.len() implies is_store(
                    (#[trigger] after[i]).components,
                    registry,
                ) by {
                    if i < state.entities.len() {
                        assert(after[i] == state.entities[i]);
                    }
                }
            },
            CommandView::With(bag) => {
                let id = state.current_entity->Some_0;
                crate::scene::lemma_index_of_entity_from(state.entities, id, 0);
                let at = index_of_entity(state.entities, id)->Some_0;
                lemma_add_keeps_store(state.entities[at].components, bag, registry);
                assert forall|i: int| 0 <= i < after.len() implies is_store(
                    (#[trigger] after[i]).components,
                    registry,
                ) by {
                    if i != at {
                        assert(after[i] == state.entities[i]);
                    }
                }
            },
            CommandView::InsertOne(id, bag) => {
                crate::scene::lemma_index_of_entity_from(state.entities, id, 0);
                let at = index_of_entity(state.entities, id)->Some_0;
                lemma_add_keeps_store(state.entities[at].components, bag, registry);
                assert forall|i: int| 0 <= i < after.len() implies is_store(
                    (#[trigger] after[i]).components,
                    registry,
                ) by {
                    if i != at {
                        assert(after[i] == state.entities[i]);
                    }
                }
            },
            CommandView::WithBundle(bags) => {
                let id = state.current_entity->Some_0;
                crate::scene::lemma_index_of_entity_from(state.entities, id, 0);
                let at = index_of_entity(state.entities, id)->Some_0;
                lemma_add_all_keeps_store(state.entities[at].components, bags, registry);
                assert forall|i: int| 0 <= i < after.len() implies is_store(
                    (#[trigger] after[i]).components,
                    registry,
                ) by {
                    if i != at {
                        assert(after[i] == state.entities[i]);
                    }
                }
            },
            _ => {},
        }
    }
}

/// A run of commands leaves every entity with a store as adds make it.
pub proof fn lemma_run_stores(
    state: EditorView,
    commands: Seq<CommandView>,
    registry: Map<Seq<char>, BagView>,
    handles: Seq<u64>,
)
    requires
        stores_valid(state.entities, registry),
    ensures
        stores_valid(run(state, commands, registry, handles).state.entities, registry),
    decreases commands.len(),
{
    if commands.len() > 0 {
        let first = step(state, commands[0], registry, first_handle(handles));
        lemma_step_stores(state, commands[0], registry, first_handle(handles));
        if first.result is Ok {
            let left = if first.used {
                handles.drop_first()
            } else {
                handles
            };
            lemma_run_stores(first.state, commands.drop_first(), registry, left);
        }
    }
}

/// A load leaves every entity with a store as adds make it.
pub proof fn lemma_loaded_stores(
    state: EditorView,
    entities: Seq<EntityView>,
    registry: Map<Seq<char>, BagView>,
    handles: Seq<u64>,
)
    requires
        stores_valid(state.entities, registry),
    ensures
        stores_valid(loaded(state, entities, registry, handles).state.entities, registry),
    decreases entities.len(),
{
    if entities.len() > 0 {
        let first = load_entity(state, entities[0], registry, first_handle(handles));
        if first.result is Ok {
            lemma_add_all_keeps_store(Seq::empty(), entities[0].components, registry);
            assert forall|i: int| 0 <= i < first.state.entities.len() implies is_store(
                (#[trigger] first.state.entities[i]).components,
                registry,
            ) by {
                if i < state.entities.len() {
                    assert(first.state.entities[i] == state.entities[i]);
                }
            }
            lemma_loaded_stores(first.state, entities.drop_first(), registry, handles.drop_first());
        }
    }
}

/// Whether the first `n` of `handles` are there and differ from each other.
pub open spec fn fresh_handles(handles: Seq<u64>, n: int) -> bool {
    n <= handles.len() && forall|i: int, j: int| 0 <= i < j < n ==> handles[i] != handles[j]
}

/// A load succeeds, and puts the entities behind those that are there just
/// as they are, where the handles are fresh, the ids are new, and every
/// entity has a store as adds make it.
pub proof fn lemma_loaded_as_it_is(
    state: EditorView,
    entities: Seq<EntityView>,
    registry: Map<Seq<char>, BagView>,
    handles: Seq<u64>,
)
    requires
        well_formed(state),
        fresh_handles(handles, entities.len() as int),
        forall|i: int| 0 <= i < entities.len() ==> !handle_bound(state.handles, #[trigger] handles[i]),
        distinct_ids(entities),
        forall|i: int|
            0 <= i < entities.len() ==> (#[trigger] entities[i]).entity < u32::MAX && !has_id(
                state.entities,
                entities[i].entity,
            ),
        stores_valid(entities, registry),
    ensures
        loaded(state, entities, registry, handles).result is Ok,
        loaded(state, entities, registry, handles).state.entities == state.entities + entities,
    decreases entities.len(),
{
    if entities.len() == 0 {
        assert(state.entities + entities =~= state.entities);
    } else {
        let entity = entities[0];
        let first = load_entity(state, entity, registry, first_handle(handles));
        crate::scene::lemma_index_of_entity_from(state.entities, entity.entity, 0);
        assert(!handle_bound(state.handles, handles[0]));
        assert(!has_id(state.entities, entity.entity));
        assert(index_of_entity(state.entities, entity.entity) is None);
        assert(is_store(entity.components, registry));
        assert(Seq::<BagView>::empty() + entity.components =~= entity.components);
        lemma_add_all_appends(Seq::empty(), entity.components, registry);
        assert(first.result is Ok);
        assert(first.state.entities == state.entities.push(entity));
        lemma_load_entity(state, entity, registry, first_handle(handles));
        let tail = entities.drop_first();
        let left = handles.drop_first();
        assert forall|i: int| 0 <= i < tail.len() implies !handle_bound(
            first.state.handles,
            #[trigger] left[i],
        ) by {
            assert(left[i] == handles[i + 1]);
            assert(!handle_bound(state.handles, handles[i + 1]));
            if handle_bound(first.state.handles, left[i]) {
                let id = choose|id: u32| #[trigger]
                    first.state.handles.contains_key(id) && first.state.handles[id] == left[i];
                if id != entity.entity {
                    assert(state.handles.contains_key(id));
                }
            }
        }
        assert forall|i: int| 0 <= i < tail.len() implies (#[trigger] tail[i]).entity < u32::MAX
            && !has_id(first.state.entities, tail[i].entity) by {
            assert(tail[i] == entities[i + 1]);
            assert(!has_id(state.entities, entities[i + 1].entity));
            if has_id(first.state.entities, tail[i].entity) {
                let k = choose|k: int|
                    0 <= k < first.state.entities.len() && #[trigger] first.state.entities[k].entity
                        == tail[i].entity;
                if k < state.entities.len() {
                    assert(state.entities[k].entity == tail[i].entity);
                }
            }
        }
        assert forall|i: int| 0 <= i < tail.len() implies is_store(
            (#[trigger] tail[i]).components,
            registry,
        ) by {
            assert(tail[i] == entities[i + 1]);
        }
        assert forall|i: int, j: int| 0 <= i < j < tail.len() implies tail[i].entity
            != tail[j].entity by {
            assert(tail[i] == entities[i + 1]);
            assert(tail[j] == entities[j + 1]);
        }
        assert forall|i: int, j: int| 0 <= i < j < tail.len() implies left[i] != left[j] by {
            assert(left[i] == handles[i + 1]);
            assert(left[j] == handles[j + 1]);
        }
        lemma_loaded_as_it_is(first.state, tail, registry, left);
        assert(state.entities.push(entity) + tail =~= state.entities + entities);
    }
}

/// A document that the editor holds, written as a value and read back into
/// a fresh editor with fresh handles, is the document that was written: the
/// same entities in the same order, each under its id and with its bags.
pub proof fn lemma_written_document_reads_back(
    state: EditorView,
    registry: Map<Seq<char>, BagView>,
    handles: Seq<u64>,
)
    requires
        well_formed(state),
        stores_valid(state.entities, registry),
        fresh_handles(handles, state.entities.len() as int),
    ensures
        crate::scene::is_scene_value(crate::scene::scene_value(state.entities)),
        loaded(
            fresh_editor(),
            crate::scene::scene_of_value(crate::scene::scene_value(state.entities)),
            registry,
            handles,
        ).result is Ok,
        loaded(
            fresh_editor(),
            crate::scene::scene_of_value(crate::scene::scene_value(state.entities)),
            registry,
            handles,
        ).state.entities == state.entities,
{
    crate::scene::lemma_scene_value_round_trip(state.entities);
    assert(well_formed(fresh_editor()));
    assert forall|i: int| 0 <= i < state.entities.len() implies !handle_bound(
        fresh_editor().handles,
        #[trigger] handles[i],
    ) by {}
    lemma_loaded_as_it_is(fresh_editor(), state.entities, registry, handles);
    assert(fresh_editor().entities + state.entities =~= state.entities);
}

/// The document, the identity map and the counter that ids come from.
pub struct Editor {
    entity_map: IdentityMap,
    next_entity: u32,
    current_entity: Option<u32>,
    scene: Scene,
}

/// What applying one command returned.
#[derive(Debug)]
pub struct Outcome {
    /// The actions to perform on the runtime, in order.
    pub actions: Vec<WorldAction>,
    /// Whether the fresh handle was bound to a new entity.
    pub used: bool,
    /// Whether the command was applied. Where it was not, nothing changed.
    pub result: Result<(), EditorError>,
}

impl View for Editor {
    type V = EditorView;

    closed spec fn view(&self) -> EditorView {
        EditorView {
            handles: self.entity_map@,
            next_entity: self.next_entity,
            current_entity: self.current_entity,
            entities: self.scene@,
        }
    }
}

/// Appends to `actions` the actions that put each of `bags`, in order, on
/// the object `handle`.
fn install_all(actions: &mut Vec<WorldAction>, handle: u64, bags: &Vec<DynamicProperties>)
    ensures
        actions_view(final(actions)@) == actions_view(old(actions)@) + installs(
            handle,
            bags_view(bags@),
        ),
{
    let mut i: usize = 0;
    assert(actions_view(actions@) =~= actions_view(old(actions)@) + installs(
        handle,
        bags_view(bags@),
    ).take(0));
    while i < bags.len()
        invariant
            i <= bags.len(),
            actions_view(actions@) == actions_view(old(actions)@) + installs(
                handle,
                bags_view(bags@),
            ).take(i as int),
        decreases bags.len() - i,
    {
        let ghost before = actions_view(actions@);
        actions.push(WorldAction::Insert { handle, component: bags[i].clone_prop() });
        assert(actions_view(actions@) =~= before.push(
            ActionView::Insert { handle, component: bags[i as int]@ },
        ));
        assert(installs(handle, bags_view(bags@)).take(i + 1) =~= installs(
            handle,
            bags_view(bags@),
        ).take(i as int).push(ActionView::Insert { handle, component: bags[i as int]@ }));
        i += 1;
    }
    assert(installs(handle, bags_view(bags@)).take(bags.len() as int) =~= installs(
        handle,
        bags_view(bags@),
    ));
}

/// Deep copies of the bags of type `name` among `bags`, in order.
fn collect_of_type(bags: &Vec<DynamicProperties>, name: &String) -> (r: Vec<DynamicProperties>)
    ensures
        bags_view(r@) == bags_of_type(bags_view(bags@), name@),
{
    let mut found: Vec<DynamicProperties> = Vec::new();
    let mut i: usize = 0;
    assert(bags_view(found@) =~= bags_of_type(bags_view(bags@).take(0), name@));
    while i < bags.len()
        invariant
            i <= bags.len(),
            bags_view(found@) == bags_of_type(bags_view(bags@).take(i as int), name@),
        decreases bags.len() - i,
    {
        let ghost before = bags_view(found@);
        assert(bags_view(bags@).take(i + 1).drop_last() =~= bags_view(bags@).take(i as int));
        assert(bags_view(bags@).take(i + 1).last() == bags[i as int]@);
        if bags[i].type_tag == *name {
            found.push(bags[i].clone_prop());
            assert(bags_view(found@) =~= before.push(bags[i as int]@));
        }
        i += 1;
    }
    assert(bags_view(bags@).take(bags.len() as int) =~= bags_view(bags@));
    found
}

/// Whether the type of every one of `bags` is registered.
fn all_known(bags: &Vec<DynamicProperties>, registry: &ComponentRegistry) -> (r: bool)
    ensures
        r == all_registered(bags_view(bags@), bags.len() as int, registry@),
{
    let mut i: usize = 0;
    while i < bags.len()
        invariant
            i <= bags.len(),
            all_registered(bags_view(bags@), i as int, registry@),
        decreases bags.len() - i,
    {
        if !registry.contains(bags[i].type_tag.as_str()) {
            assert(bags_view(bags@)[i as int].type_tag == bags[i as int].type_tag@);
            return false;
        }
        assert(bags_view(bags@)[i as int].type_tag == bags[i as int].type_tag@);
        i += 1;
    }
    true
}

impl Editor {
    /// Whether the two directions of the identity map agree and the editor
    /// is well-formed.
    pub closed spec fn wf(&self) -> bool {
        self.entity_map.wf() && well_formed(self@)
    }

    /// What `wf` says of the model of the editor.
    pub proof fn lemma_well_formed(&self)
        requires
            self.wf(),
        ensures
            well_formed(self@),
    {
    }

    /// An editor with an empty document, no bound handle, and 0 as the next
    /// id.
    pub fn new() -> (r: Editor)
        ensures
            r.wf(),
            r@ == fresh_editor(),
    {
        Editor {
            entity_map: IdentityMap::new(),
            next_entity: 0,
            current_entity: None,
            scene: Scene::new(),
        }
    }

    /// The document.
    pub fn scene(&self) -> (r: &Scene)
        ensures
            r@ == self@.entities,
    {
        &self.scene
    }

    /// The value that stands for the document, as it is written when the
    /// document is saved.
    pub fn write(&self) -> (r: crate::property::Value)
        ensures
            r@ == crate::scene::scene_value(self@.entities),
    {
        self.scene.to_dynamic()
    }

    /// The id that the next spawned entity gets.
    pub fn next_entity(&self) -> (r: u32)
        ensures
            r == self@.next_entity,
    {
        self.next_entity
    }

    /// The entity that was spawned last, if any.
    pub fn current_entity(&self) -> (r: Option<u32>)
        ensures
            r == self@.current_entity,
    {
        self.current_entity
    }

    /// The runtime handle of the entity with id `id`, if it has one.
    pub fn handle(&self, id: u32) -> (r: Option<u64>)
        ensures
            r == if self@.handles.contains_key(id) {
                Some(self@.handles[id])
            } else {
                None
            },
    {
        self.entity_map.handle(id)
    }

    fn refuse(e: EditorError) -> (r: Outcome)
        ensures
            r.actions@.len() == 0,
            !r.used,
            r.result == Err::<(), EditorError>(e),
    {
        Outcome { actions: Vec::new(), used: false, result: Err(e) }
    }

    fn insert_at(&mut self, id: u32, bag: DynamicProperties, registry: &ComponentRegistry) -> (r:
        Outcome)
        requires
            old(self).entity_map.wf(),
        ensures
            final(self).entity_map.wf(),
            (Applied {
                state: final(self)@,
                actions: actions_view(r.actions@),
                used: r.used,
                result: r.result,
            }) == step_insert(old(self)@, id, bag@, registry@),
    {
        match self.scene.index_of(id) {
            None => {
                let r = Editor::refuse(EditorError::IndexOutOfRange);
                assert(actions_view(r.actions@) =~= Seq::empty());
                r
            },
            Some(i) => {
                let entity = &mut self.scene.entities[i];
                match entity.components.add(bag, registry) {
                    Err(e) => {
                        let r = Editor::refuse(e);
                        assert(actions_view(r.actions@) =~= Seq::empty());
                        assert(self.scene@ =~= old(self).scene@);
                        r
                    },
                    Ok(()) => {
                        let r = Outcome { actions: Vec::new(), used: false, result: Ok(()) };
                        assert(actions_view(r.actions@) =~= Seq::empty());
                        assert(self.scene@ =~= with_components(
                            old(self)@,
                            i as int,
                            added(old(self)@.entities[i as int].components, bag@, registry@)->Ok_0,
                        ).entities);
                        r
                    },
                }
            },
        }
    }

    fn insert_all_at(&mut self, id: u32, bundle: EditorBundle, registry: &ComponentRegistry) -> (r:
        Outcome)
        requires
            old(self).entity_map.wf(),
        ensures
            final(self).entity_map.wf(),
            (Applied {
                state: final(self)@,
                actions: actions_view(r.actions@),
                used: r.used,
                result: r.result,
            }) == step_insert_all(old(self)@, id, bundle@, registry@),
    {
        match self.scene.index_of(id) {
            None => {
                let r = Editor::refuse(EditorError::IndexOutOfRange);
                assert(actions_view(r.actions@) =~= Seq::empty());
                r
            },
            Some(i) => {
                // The bags are added to a copy, which takes the place of the
                // entity's bags only where every add succeeds.
                let mut store = clone_bags(&self.scene.entities[i].components);
                match store.add_bundle(bundle.into_inner(), registry) {
                    Err(e) => {
                        let r = Editor::refuse(e);
                        assert(actions_view(r.actions@) =~= Seq::empty());
                        r
                    },
                    Ok(()) => {
                        let entity = &mut self.scene.entities[i];
                        entity.components = store;
                        let r = Outcome { actions: Vec::new(), used: false, result: Ok(()) };
                        assert(actions_view(r.actions@) =~= Seq::empty());
                        assert(self.scene@ =~= with_components(
                            old(self)@,
                            i as int,
                            added_all(
                                old(self)@.entities[i as int].components,
                                bundle@,
                                registry@,
                            ).0,
                        ).entities);
                        r
                    },
                }
            },
        }
    }

    fn spawn_entity(&mut self, bundle: EditorBundle, registry: &ComponentRegistry, fresh: Option<
        u64,
    >) -> (r: Outcome)
        requires
            old(self).entity_map.wf(),
        ensures
            final(self).entity_map.wf(),
            (Applied {
                state: final(self)@,
                actions: actions_view(r.actions@),
                used: r.used,
                result: r.result,
            }) == step_spawn(old(self)@, bundle@, registry@, fresh),
    {
        if self.next_entity == u32::MAX {
            let r = Editor::refuse(EditorError::IndexOutOfRange);
            assert(actions_view(r.actions@) =~= Seq::empty());
            return r;
        }
        let handle = match fresh {
            Some(handle) => handle,
            None => {
                let r = Editor::refuse(EditorError::IndexOutOfRange);
                assert(actions_view(r.actions@) =~= Seq::empty());
                return r;
            },
        };
        if self.entity_map.holds_handle(handle) {
            let r = Editor::refuse(EditorError::IndexOutOfRange);
            assert(actions_view(r.actions@) =~= Seq::empty());
            return r;
        }
        proof {
            lemma_bound_fresh(self@.handles, self.next_entity, handle);
        }
        let mut store: Vec<DynamicProperties> = Vec::new();
        assert(store.bags() =~= Seq::empty());
        match store.add_bundle(bundle.into_inner(), registry) {
            Err(e) => {
                let r = Editor::refuse(e);
                assert(actions_view(r.actions@) =~= Seq::empty());
                r
            },
            Ok(()) => {
                let id = self.next_entity;
                let mut actions: Vec<WorldAction> = Vec::new();
                actions.push(WorldAction::Spawn { widget: id, handle });
                assert(actions_view(actions@) =~= seq![ActionView::Spawn { widget: id, handle }]);
                install_all(&mut actions, handle, &store);
                self.entity_map.insert(id, handle);
                self.scene.entities.push(SceneEntity { entity: id, components: store });
                self.next_entity = id + 1;
                self.current_entity = Some(id);
                assert(self.scene@ =~= old(self).scene@.push(
                    EntityView { entity: id, components: bags_view(store@) },
                ));
                Outcome { actions, used: true, result: Ok(()) }
            },
        }
    }

    fn sync_entity(&self, id: u32, only: Option<&String>, registry: &ComponentRegistry) -> (r:
        Outcome)
        ensures
            (Applied {
                state: self@,
                actions: actions_view(r.actions@),
                used: r.used,
                result: r.result,
            }) == step_sync(
                self@,
                id,
                match only {
                    Some(name) => Some(name@),
                    None => None,
                },
                registry@,
            ),
    {
        match self.scene.index_of(id) {
            None => {
                let r = Editor::refuse(EditorError::IndexOutOfRange);
                assert(actions_view(r.actions@) =~= Seq::empty());
                r
            },
            Some(i) => {
                let bags = match only {
                    Some(name) => collect_of_type(&self.scene.entities[i].components, name),
                    None => clone_bags(&self.scene.entities[i].components),
                };
                match self.entity_map.handle(id) {
                    None => {
                        let r = Editor::refuse(EditorError::IndexOutOfRange);
                        assert(actions_view(r.actions@) =~= Seq::empty());
                        r
                    },
                    Some(handle) => {
                        if !all_known(&bags, registry) {
                            let r = Editor::refuse(EditorError::UnregisteredType);
                            assert(actions_view(r.actions@) =~= Seq::empty());
                            r
                        } else {
                            let mut actions: Vec<WorldAction> = Vec::new();
                            assert(actions_view(actions@) =~= Seq::empty());
                            install_all(&mut actions, handle, &bags);
                            assert(actions_view(actions@) =~= installs(handle, bags_view(bags@)));
                            Outcome { actions, used: false, result: Ok(()) }
                        }
                    },
                }
            },
        }
    }

    /// Applies one command. Where it fails, nothing changes and no action is
    /// emitted. `fresh` is a runtime handle that the caller has made for the
    /// case that the command spawns an entity.
    ///
    /// - A spawn gives the new entity the next id, binds it to `fresh`, and
    ///   emits the actions that mark the runtime object and put each bag of
    ///   the new entity on it. It fails with `IndexOutOfRange` where no
    ///   handle is given, the handle is bound to an entity already, or no id
    ///   is left.
    /// - The three kinds of add change the document only. They fail with
    ///   `IndexOutOfRange` where the entity is not in the document (or none
    ///   was spawned yet), and as an add of a bag does.
    /// - The two kinds of sync change nothing and emit one action for each
    ///   bag. They fail with `IndexOutOfRange` where the entity is not in the
    ///   document or has no handle, and with `UnregisteredType` where the
    ///   type of one of the bags is not registered.
    pub fn apply_command(
        &mut self,
        command: Command,
        registry: &ComponentRegistry,
        fresh: Option<u64>,
    ) -> (r: Outcome)
        requires
            old(self).wf(),
        ensures
            final(self).wf(),
            (Applied {
                state: final(self)@,
                actions: actions_view(r.actions@),
                used: r.used,
                result: r.result,
            }) == step(old(self)@, command@, registry@, fresh),
    {
        proof {
            lemma_step_well_formed(old(self)@, command@, registry@, fresh);
        }
        match command {
            Command::Spawn(bundle) => self.spawn_entity(bundle, registry, fresh),
            Command::With(bag) => match self.current_entity {
                None => {
                    let r = Editor::refuse(EditorError::IndexOutOfRange);
                    assert(actions_view(r.actions@) =~= Seq::empty());
                    r
                },
                Some(id) => self.insert_at(id, bag, registry),
            },
            Command::WithBundle(bundle) => match self.current_entity {
                None => {
                    let r = Editor::refuse(EditorError::IndexOutOfRange);
                    assert(actions_view(r.actions@) =~= Seq::empty());
                    r
                },
                Some(id) => self.insert_all_at(id, bundle, registry),
            },
            Command::InsertOne(id, bag) => self.insert_at(id, bag, registry),
            Command::SyncToWorld(id) => self.sync_entity(id, None, registry),
            Command::SyncOneToWorld(id, name) => self.sync_entity(id, Some(&name), registry),
        }
    }
}

/// The queue of deferred commands.
pub struct EditorCommands {
    next_entity: u32,
    current_entity: Option<u32>,
    queue: Vec<Command>,
}

/// Mathematical model of an [`EditorCommands`].
pub struct QueueView {
    /// The id that the entity of the next queued spawn is expected to get.
    pub next_entity: u32,
    /// The id expected for the entity of the spawn that was queued last
    /// since the queue was applied.
    pub current_entity: Option<u32>,
    /// The queued commands, oldest first.
    pub queue: Seq<CommandView>,
}

/// What draining a queue returned.
#[derive(Debug)]
pub struct Drained {
    /// The actions to perform on the runtime, in order.
    pub actions: Vec<WorldAction>,
    /// The failure that stopped the run, if one did.
    pub result: Result<(), EditorError>,
}

/// The number of spawns among `commands`.
pub open spec fn spawns(commands: Seq<CommandView>) -> nat
    decreases commands.len(),
{
    if commands.len() == 0 {
        0
    } else if commands.last() is Spawn {
        spawns(commands.drop_last()) + 1
    } else {
        spawns(commands.drop_last())
    }
}

impl View for EditorCommands {
    type V = QueueView;

    closed spec fn view(&self) -> QueueView {
        QueueView {
            next_entity: self.next_entity,
            current_entity: self.current_entity,
            queue: commands_view(self.queue@),
        }
    }
}

impl Default for EditorCommands {
    fn default() -> (r: EditorCommands)
        ensures
            r@ == (QueueView { next_entity: 0, current_entity: None, queue: Seq::empty() }),
    {
        EditorCommands::new()
    }
}

impl EditorCommands {
    /// An empty queue that expects 0 as the next id.
    pub fn new() -> (r: EditorCommands)
        ensures
            r@ == (QueueView { next_entity: 0, current_entity: None, queue: Seq::empty() }),
    {
        let r = EditorCommands { next_entity: 0, current_entity: None, queue: Vec::new() };
        assert(r@.queue =~= Seq::empty());
        r
    }

    fn enqueue(&mut self, command: Command)
        ensures
            final(self)@ == (QueueView { queue: old(self)@.queue.push(command@), ..old(self)@ }),
    {
        self.queue.push(command);
        assert(self@.queue =~= old(self)@.queue.push(command@));
    }

    /// The id that the entity of the next queued spawn is expected to get.
    pub fn next_entity(&self) -> (r: u32)
        ensures
            r == self@.next_entity,
    {
        self.next_entity
    }

    /// The id expected for the entity of the spawn that was queued last
    /// since the queue was applied.
    pub fn current_entity(&self) -> (r: Option<u32>)
        ensures
            r == self@.current_entity,
    {
        self.current_entity
    }

    /// The number of queued commands.
    pub fn len(&self) -> (r: usize)
        ensures
            r == self@.queue.len(),
    {
        self.queue.len()
    }

    /// The number of queued spawns: as many fresh handles does `apply` bind
    /// where no command fails.
    pub fn pending_spawns(&self) -> (r: usize)
        ensures
            r == spawns(self@.queue),
    {
        let mut count: usize = 0;
        let mut i: usize = 0;
        assert(self@.queue.take(0) =~= Seq::empty());
        while i < self.queue.len()
            invariant
                i <= self.queue.len(),
                count <= i,
                count == spawns(self@.queue.take(i as int)),
            decreases self.queue.len() - i,
        {
            assert(self@.queue.take(i + 1).drop_last() =~= self@.queue.take(i as int));
            assert(self@.queue.take(i + 1).last() == self.queue[i as int]@);
            match &self.queue[i] {
                Command::Spawn(_) => {
                    count += 1;
                },
                _ => {},
            }
            i += 1;
        }
        assert(self@.queue.take(self.queue.len() as int) =~= self@.queue);
        count
    }

    /// Queues the spawn of an entity with the bags of `components`, and
    /// returns the id that the entity is expected to get.
    pub fn spawn(&mut self, components: EditorBundle) -> (id: u32)
        requires
            old(self)@.next_entity < u32::MAX,
        ensures
            id == old(self)@.next_entity,
            final(self)@ == (QueueView {
                next_entity: (id + 1) as u32,
                current_entity: Some(id),
                queue: old(self)@.queue.push(CommandView::Spawn(components@)),
            }),
    {
        self.enqueue(Command::Spawn(components));
        let id = self.next_entity;
        self.current_entity = Some(id);
        self.next_entity = id + 1;
        id
    }

    /// Queues the add of `component` to the entity that is spawned last
    /// before this command is applied.
    pub fn with(&mut self, component: DynamicProperties)
        ensures
            final(self)@ == (QueueView {
                queue: old(self)@.queue.push(CommandView::With(component@)),
                ..old(self)@
            }),
    {
        self.enqueue(Command::With(component));
    }

    /// Queues the add of the bags of `bundle` to the entity that is spawned
    /// last before this command is applied.
    pub fn with_bundle(&mut self, bundle: EditorBundle)
        ensures
            final(self)@ == (QueueView {
                queue: old(self)@.queue.push(CommandView::WithBundle(bundle@)),
                ..old(self)@
            }),
    {
        self.enqueue(Command::WithBundle(bundle));
    }

    /// Queues the add of `component` to the entity with id `entity`.
    pub fn insert_one(&mut self, entity: u32, component: DynamicProperties)
        ensures
            final(self)@ == (QueueView {
                queue: old(self)@.queue.push(CommandView::InsertOne(entity, component@)),
                ..old(self)@
            }),
    {
        self.enqueue(Command::InsertOne(entity, component));
    }

    /// Queues putting every bag of the entity with id `entity` on its
    /// runtime object.
    pub fn sync_to_world(&mut self, entity: u32)
        ensures
            final(self)@ == (QueueView {
                queue: old(self)@.queue.push(CommandView::SyncToWorld(entity)),
                ..old(self)@
            }),
    {
        self.enqueue(Command::SyncToWorld(entity));
    }

    /// Queues putting the bags of type `name` of the entity with id
    /// `entity` on its runtime object.
    pub fn sync_one_to_world(&mut self, entity: u32, name: String)
        ensures
            final(self)@ == (QueueView {
                queue: old(self)@.queue.push(CommandView::SyncOneToWorld(entity, name@)),
                ..old(self)@
            }),
    {
        self.enqueue(Command::SyncOneToWorld(entity, name));
    }

    /// Drains the queue: applies the queued commands to `editor`, oldest
    /// first, each once, and leaves the queue empty. Each spawn binds the
    /// first of `handles` that is left. Returns the actions that the applied
    /// commands emitted, in order.
    ///
    /// The first command that fails stops the run and is reported. The
    /// commands behind it leave the queue unapplied, because they were
    /// queued on the footing that it succeeds: applied later, or to the
    /// state that the failure left, they would reach another entity or
    /// another state than their author meant. The editor is then as the
    /// last command that succeeded left it.
    pub fn apply(
        &mut self,
        editor: &mut Editor,
        registry: &ComponentRegistry,
        handles: Vec<u64>,
    ) -> (r: Drained)
        requires
            old(editor).wf(),
        ensures
            final(editor).wf(),
            final(self)@ == (QueueView {
                next_entity: old(self)@.next_entity,
                current_entity: None,
                queue: Seq::empty(),
            }),
            final(editor)@ == run(old(editor)@, old(self)@.queue, registry@, handles@).state,
            actions_view(r.actions@) == run(
                old(editor)@,
                old(self)@.queue,
                registry@,
                handles@,
            ).actions,
            r.result == run(old(editor)@, old(self)@.queue, registry@, handles@).result,
    {
        self.current_entity = None;
        let mut queue: Vec<Command> = Vec::new();
        core::mem::swap(&mut self.queue, &mut queue);
        assert(self@.queue =~= Seq::empty());
        let ghost commands = commands_view(queue@);
        let ghost total = run(old(editor)@, commands, registry@, handles@);
        let n = queue.len();
        let mut rest = reversed(queue);
        let mut actions: Vec<WorldAction> = Vec::new();
        let mut k: usize = 0;
        let mut next: usize = 0;
        assert(commands.skip(0) =~= commands);
        assert(handles@.skip(0) =~= handles@);
        assert(actions_view(actions@) =~= Seq::empty());
        assert(Seq::<ActionView>::empty() + total.actions =~= total.actions);
        while rest.len() > 0
            invariant
                editor.wf(),
                self@ == (QueueView {
                    next_entity: old(self)@.next_entity,
                    current_entity: None,
                    queue: Seq::empty(),
                }),
                commands == old(self)@.queue,
                total == run(old(editor)@, commands, registry@, handles@),
                commands.len() == n,
                k + rest.len() == n,
                next <= handles.len(),
                forall|j: int| 0 <= j < rest.len() ==> rest[j]@ == commands[n - 1 - j],
                total == (Ran {
                    actions: actions_view(actions@) + run(
                        editor@,
                        commands.skip(k as int),
                        registry@,
                        handles@.skip(next as int),
                    ).actions,
                    ..run(editor@, commands.skip(k as int), registry@, handles@.skip(next as int))
                }),
            decreases rest.len(),
        {
            let command = rest.pop().unwrap();
            let fresh = if next < handles.len() {
                Some(handles[next])
            } else {
                None
            };
            let ghost before = editor@;
            let ghost emitted = actions_view(actions@);
            let ghost left = handles@.skip(next as int);
            assert(command@ == commands.skip(k as int)[0]);
            assert(commands.skip(k as int).drop_first() =~= commands.skip(k + 1));
            assert(fresh == first_handle(left));
            assert(left.len() > 0 ==> left.drop_first() =~= handles@.skip(next + 1));
            let outcome = editor.apply_command(command, registry, fresh);
            let ghost first = step(before, command@, registry@, fresh);
            match outcome.result {
                Err(e) => {
                    assert(emitted + Seq::<ActionView>::empty() =~= emitted);
                    return Drained { actions, result: Err(e) };
                },
                Ok(()) => {},
            }
            let mut emitted_now = outcome.actions;
            let ghost tail = run(
                editor@,
                commands.skip(k + 1),
                registry@,
                if first.used {
                    left.drop_first()
                } else {
                    left
                },
            );
            actions.append(&mut emitted_now);
            assert(actions_view(actions@) =~= emitted + first.actions);
            assert((emitted + first.actions) + tail.actions =~= emitted + (first.actions
                + tail.actions));
            if outcome.used {
                next += 1;
            }
            k += 1;
        }
        assert(actions_view(actions@) + Seq::<ActionView>::empty() =~= actions_view(actions@));
        Drained { actions, result: Ok(()) }
    }
}

impl Editor {
    fn load_one(&mut self, entity: SceneEntity, registry: &ComponentRegistry, fresh: Option<u64>) -> (r:
        Outcome)
        requires
            old(self).entity_map.wf(),
        ensures
            final(self).entity_map.wf(),
            (Applied {
                state: final(self)@,
                actions: actions_view(r.actions@),
                used: r.used,
                result: r.result,
            }) == load_entity(old(self)@, entity@, registry@, fresh),
    {
        let handle = match fresh {
            Some(handle) => handle,
            None => {
                let r = Editor::refuse(EditorError::IndexOutOfRange);
                assert(actions_view(r.actions@) =~= Seq::empty());
                return r;
            },
        };
        if self.entity_map.holds_handle(handle) {
            let r = Editor::refuse(EditorError::IndexOutOfRange);
            assert(actions_view(r.actions@) =~= Seq::empty());
            return r;
        }
        let id = entity.entity;
        if id == u32::MAX || self.scene.index_of(id).is_some() {
            let r = Editor::refuse(EditorError::SerializationFailure);
            assert(actions_view(r.actions@) =~= Seq::empty());
            return r;
        }
        let mut store: Vec<DynamicProperties> = Vec::new();
        assert(store.bags() =~= Seq::empty());
        match store.add_bundle(entity.components, registry) {
            Err(e) => {
                let r = Editor::refuse(e);
                assert(actions_view(r.actions@) =~= Seq::empty());
                r
            },
            Ok(()) => {
                proof {
                    lemma_bound_fresh(self@.handles, id, handle);
                }
                let mut actions: Vec<WorldAction> = Vec::new();
                actions.push(WorldAction::Spawn { widget: id, handle });
                assert(actions_view(actions@) =~= seq![ActionView::Spawn { widget: id, handle }]);
                install_all(&mut actions, handle, &store);
                self.entity_map.insert(id, handle);
                self.scene.entities.push(SceneEntity { entity: id, components: store });
                if self.next_entity <= id {
                    self.next_entity = id + 1;
                }
                assert(self.scene@ =~= old(self).scene@.push(
                    EntityView { entity: id, components: bags_view(store@) },
                ));
                Outcome { actions, used: true, result: Ok(()) }
            },
        }
    }

    /// Takes over a loaded document: starts afresh and takes in each entity
    /// of `scene`, in order, under the id that it carries, with the handle
    /// at its place in `handles` as its runtime handle. The store of each
    /// entity is what adding its bags to an empty store gives, and the next
    /// id lies above every id of the document.
    ///
    /// Returns the actions that mark each runtime object as the widget of
    /// its entity and put the bags of the entity on it. Where an entity is
    /// refused, the editor stays as it was: with `IndexOutOfRange` where
    /// `handles` holds too few handles or one handle twice, with
    /// `SerializationFailure` where two entities carry one id or an entity
    /// carries the last id, and with `UnregisteredType` where a bag is of a
    /// type that is not registered.
    pub fn read(&mut self, scene: Scene, registry: &ComponentRegistry, handles: Vec<u64>) -> (r:
        Result<Vec<WorldAction>, EditorError>)
        requires
            old(self).wf(),
        ensures
            final(self).wf(),
            match loaded(fresh_editor(), scene@, registry@, handles@).result {
                Ok(()) => r is Ok && final(self)@ == loaded(
                    fresh_editor(),
                    scene@,
                    registry@,
                    handles@,
                ).state && actions_view(r->Ok_0@) == loaded(
                    fresh_editor(),
                    scene@,
                    registry@,
                    handles@,
                ).actions,
                Err(e) => r == Err::<Vec<WorldAction>, EditorError>(e) && final(self)@ == old(
                    self,
                )@,
            },
            r is Ok ==> {
                &&& distinct_ids(scene@)
                &&& handles@.len() >= scene@.len()
                &&& final(self)@.current_entity is None
                &&& final(self)@.entities.len() == scene@.len()
                &&& forall|i: int|
                    0 <= i < scene@.len() ==> #[trigger] final(self)@.entities[i] == taken_over(
                        scene@[i],
                        registry@,
                    )
                &&& forall|i: int|
                    0 <= i < scene@.len() ==> final(self)@.handles.contains_key(
                        (#[trigger] scene@[i]).entity,
                    ) && final(self)@.handles[scene@[i].entity] == handles@[i]
                &&& forall|i: int|
                    0 <= i < scene@.len() ==> (#[trigger] scene@[i]).entity
                        < final(self)@.next_entity
            },
    {
        let ghost entities = scene@;
        let ghost total = loaded(fresh_editor(), entities, registry@, handles@);
        let n = scene.entities.len();
        let mut rest = reversed(scene.entities);
        let mut taken = Editor::new();
        let mut actions: Vec<WorldAction> = Vec::new();
        let mut k: usize = 0;
        assert(entities.skip(0) =~= entities);
        assert(handles@.skip(0) =~= handles@);
        assert(actions_view(actions@) =~= Seq::empty());
        assert(Seq::<ActionView>::empty() + total.actions =~= total.actions);
        while rest.len() > 0
            invariant
                taken.entity_map.wf(),
                self.wf(),
                self@ == old(self)@,
                entities == scene@,
                entities.len() == n,
                total == loaded(fresh_editor(), entities, registry@, handles@),
                k + rest.len() == n,
                k <= handles.len(),
                forall|j: int| 0 <= j < rest.len() ==> rest[j]@ == entities[n - 1 - j],
                total == (Ran {
                    actions: actions_view(actions@) + loaded(
                        taken@,
                        entities.skip(k as int),
                        registry@,
                        handles@.skip(k as int),
                    ).actions,
                    ..loaded(taken@, entities.skip(k as int), registry@, handles@.skip(k as int))
                }),
            decreases rest.len(),
        {
            let entity = rest.pop().unwrap();
            let fresh = if k < handles.len() {
                Some(handles[k])
            } else {
                None
            };
            let ghost before = taken@;
            let ghost emitted = actions_view(actions@);
            let ghost left = handles@.skip(k as int);
            assert(entity@ == entities.skip(k as int)[0]);
            assert(entities.skip(k as int).drop_first() =~= entities.skip(k + 1));
            assert(fresh == first_handle(left));
            assert(left.len() > 0 ==> left.drop_first() =~= handles@.skip(k + 1));
            let outcome = taken.load_one(entity, registry, fresh);
            let ghost first = load_entity(before, entity@, registry@, fresh);
            match outcome.result {
                Err(e) => {
                    return Err(e);
                },
                Ok(()) => {},
            }
            let mut emitted_now = outcome.actions;
            let ghost tail = loaded(taken@, entities.skip(k + 1), registry@, left.drop_first());
            actions.append(&mut emitted_now);
            assert(actions_view(actions@) =~= emitted + first.actions);
            assert((emitted + first.actions) + tail.actions =~= emitted + (first.actions
                + tail.actions));
            k += 1;
        }
        assert(actions_view(actions@) + Seq::<ActionView>::empty() =~= actions_view(actions@));
        proof {
            lemma_loaded(fresh_editor(), entities, registry@, handles@);
            if total.result is Ok {
                assert forall|i: int| 0 <= i < entities.len() implies #[trigger] total.state.entities[i]
                    == taken_over(entities[i], registry@) by {
                    assert(total.state.entities[fresh_editor().entities.len() + i] == taken_over(
                        entities[i],
                        registry@,
                    ));
                }
                assert forall|i: int| 0 <= i < entities.len() implies (#[trigger] entities[i]).entity
                    < total.state.next_entity by {
                    assert(total.state.entities[fresh_editor().entities.len() + i] == taken_over(
                        entities[i],
                        registry@,
                    ));
                }
                assert forall|i: int, j: int| 0 <= i < j < entities.len() implies entities[i].entity
                    != entities[j].entity by {
                    assert(total.state.entities[fresh_editor().entities.len() + i] == taken_over(
                        entities[i],
                        registry@,
                    ));
                    assert(total.state.entities[fresh_editor().entities.len() + j] == taken_over(
                        entities[j],
                        registry@,
                    ));
                }
            }
        }
        *self = taken;
        Ok(actions)
    }
}

} // verus!
