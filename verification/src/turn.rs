//! The turn: one step of the simulation, and when a step is taken.

use vstd::prelude::*;
use crate::actors::Actor;
use crate::actors::Position;
use crate::behavior::Reaction;
use crate::behavior::alerted;
use crate::behavior::run_monster_ai;
use crate::map::GameMap;
use crate::visibility::is_ready_to_look;
use crate::visibility::ready_to_look;
use crate::visibility::run_visibility;
use crate::visibility::visibility_pass;

verus! {

/// Whether the simulation waits for the player or has a step to take.
#[derive(Clone, Copy, Debug, PartialEq, Eq, Structural)]
pub enum RunState {
    Paused,
    Running,
}

/// Whether `reactions` are the reactions of `actors`, each in its place, to
/// a player on the tile with index `player_idx`.
pub open spec fn reactions_of(
    reactions: Seq<Reaction>,
    actors: Seq<Actor>,
    player_idx: int,
) -> bool {
    &&& reactions.len() == actors.len()
    &&& forall|k: int|
        0 <= k < actors.len() ==> (#[trigger] reactions[k] == Reaction::Alert <==> alerted(
            actors[k].role,
            &actors[k].viewshed,
            player_idx,
        ))
    &&& forall|k: int|
        0 <= k < actors.len() ==> (#[trigger] reactions[k] == Reaction::Idle <==> !alerted(
            actors[k].role,
            &actors[k].viewshed,
            player_idx,
        ))
}

/// Whether a step can be taken: the map is well formed, the player stands
/// on it, and every actor whose perception is due can look.
pub open spec fn fit_for_step(map: &GameMap, actors: Seq<Actor>, player: Position) -> bool {
    &&& map.wf()
    &&& map.in_bounds(player.x as int, player.y as int)
    &&& ready_to_look(map, actors)
}

/// Whether a step leads from the map `before` and the actors `watchers` to
/// the map `after`, the actors `seers` and their `reactions` to the player
/// standing at `player`: a visibility pass has been made, and the reactions
/// are those of the actors as that pass has left them.
pub open spec fn stepped(
    before: &GameMap,
    watchers: Seq<Actor>,
    after: &GameMap,
    seers: Seq<Actor>,
    player: Position,
    reactions: Seq<Reaction>,
) -> bool {
    &&& after.wf()
    &&& visibility_pass(before, watchers, after, seers)
    &&& reactions_of(reactions, seers, before.index_of(player.x as int, player.y as int))
}

/// Whether a tick in the state `runstate` leads from the map `before` and
/// the actors `watchers` to the map `after`, the actors `seers`, the state
/// `then.0` and the reactions `then.1`. A running game takes a step and
/// pauses. A paused game takes no step and goes on in the state `input`.
pub open spec fn ticked(
    runstate: RunState,
    input: RunState,
    before: &GameMap,
    watchers: Seq<Actor>,
    after: &GameMap,
    seers: Seq<Actor>,
    player: Position,
    then: (RunState, Vec<Reaction>),
) -> bool {
    match runstate {
        RunState::Running => {
            &&& then.0 == RunState::Paused
            &&& stepped(before, watchers, after, seers, player, then.1@)
        },
        RunState::Paused => {
            &&& then.0 == input
            &&& *after == *before
            &&& seers == watchers
            &&& then.1@.len() == 0
        },
    }
}

/// Whether a step can be taken.
pub fn is_fit_for_step(map: &GameMap, actors: &Vec<Actor>, player: Position) -> (fit: bool)
    ensures
        fit == fit_for_step(map, actors@, player),
{
    map.is_wf() && map.on_map(player.x, player.y) && is_ready_to_look(map, actors)
}

/// One step of the simulation: a visibility pass, then the monsters'
/// behaviour on what that pass has left every actor seeing.
pub fn run_systems(map: &mut GameMap, actors: &mut Vec<Actor>, player: Position) -> (reactions: Vec<
    Reaction,
>)
    requires
        fit_for_step(old(map), old(actors)@, player),
    ensures
        stepped(old(map), old(actors)@, final(map), final(actors)@, player, reactions@),
{
    run_visibility(map, actors);
    run_monster_ai(map, actors, player)
}

/// One tick. A running game takes a step and pauses. A paused game takes
/// no step and goes on in the state `input`, which is what the player's
/// turn came to: running if the player acted, paused if not.
pub fn tick(
    runstate: RunState,
    input: RunState,
    map: &mut GameMap,
    actors: &mut Vec<Actor>,
    player: Position,
) -> (then: (RunState, Vec<Reaction>))
    requires
        runstate == RunState::Running ==> fit_for_step(old(map), old(actors)@, player),
    ensures
        ticked(runstate, input, old(map), old(actors)@, final(map), final(actors)@, player, then),
{
    match runstate {
        RunState::Running => {
            let reactions = run_systems(map, actors, player);
            (RunState::Paused, reactions)
        },
        RunState::Paused => (input, Vec::new()),
    }
}

/// One tick, if it can be taken: a running game that is not fit for a step
/// is left as it is, and nothing is returned.
pub fn try_tick(
    runstate: RunState,
    input: RunState,
    map: &mut GameMap,
    actors: &mut Vec<Actor>,
    player: Position,
) -> (then: Option<(RunState, Vec<Reaction>)>)
    ensures
        then is None <==> runstate == RunState::Running && !fit_for_step(
            old(map),
            old(actors)@,
            player,
        ),
        then is None ==> *final(map) == *old(map) && final(actors)@ == old(actors)@,
        then is Some ==> ticked(
            runstate,
            input,
            old(map),
            old(actors)@,
            final(map),
            final(actors)@,
            player,
            then->0,
        ),
{
    if runstate == RunState::Running && !is_fit_for_step(map, actors, player) {
        None
    } else {
        Some(tick(runstate, input, map, actors, player))
    }
}

} // verus!
