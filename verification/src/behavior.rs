//! How monsters react to what they see.

use vstd::prelude::*;
use crate::actors::Actor;
use crate::actors::Position;
use crate::actors::Role;
use crate::actors::Viewshed;
use crate::map::GameMap;

verus! {

/// What an actor does about the player in one step.
#[derive(Clone, Copy, Debug, PartialEq, Eq, Structural)]
pub enum Reaction {
    /// The actor does nothing.
    Idle,
    /// The actor has the player in sight and makes itself heard.
    Alert,
}

/// Whether an actor of the given role and perception is alert to a player
/// on the tile with index `player_idx`: a monster is if it sees that tile,
/// and the player's own actor never is.
pub open spec fn alerted(role: Role, viewshed: &Viewshed, player_idx: int) -> bool {
    role == Role::Monster && viewshed.sees(player_idx)
}

/// The reaction of a monster with the perception `viewshed` to the player
/// standing at `player` on `map`: alert if the tile of the player is among
/// the tiles that the monster sees, idle if not. How far the two are apart
/// plays no part.
pub fn react(viewshed: &Viewshed, map: &GameMap, player: Position) -> (reaction: Reaction)
    requires
        map.wf(),
        map.in_bounds(player.x as int, player.y as int),
    ensures
        reaction == Reaction::Alert <==> viewshed.sees(
            map.index_of(player.x as int, player.y as int),
        ),
        reaction == Reaction::Idle <==> !viewshed.sees(
            map.index_of(player.x as int, player.y as int),
        ),
{
    let player_idx = map.xy_idx(player.x, player.y);
    if viewshed.contains(player_idx) {
        Reaction::Alert
    } else {
        Reaction::Idle
    }
}

/// One pass of the monsters' behaviour: the reaction of each of `actors`,
/// in their order, to the player standing at `player`. Each reaction is
/// worked out from what the actor sees now and from nothing else.
pub fn run_monster_ai(map: &GameMap, actors: &Vec<Actor>, player: Position) -> (reactions: Vec<
    Reaction,
>)
    requires
        map.wf(),
        map.in_bounds(player.x as int, player.y as int),
    ensures
        reactions@.len() == actors@.len(),
        forall|k: int|
            0 <= k < actors@.len() ==> (#[trigger] reactions@[k] == Reaction::Alert <==> alerted(
                actors@[k].role,
                &actors@[k].viewshed,
                map.index_of(player.x as int, player.y as int),
            )),
        forall|k: int|
            0 <= k < actors@.len() ==> (#[trigger] reactions@[k] == Reaction::Idle <==> !alerted(
                actors@[k].role,
                &actors@[k].viewshed,
                map.index_of(player.x as int, player.y as int),
            )),
{
    let mut reactions: Vec<Reaction> = Vec::new();
    let mut k: usize = 0;
    while k < actors.len()
        invariant
            map.wf(),
            map.in_bounds(player.x as int, player.y as int),
            0 <= k <= actors@.len(),
            reactions@.len() == k,
            forall|j: int|
                0 <= j < k ==> (#[trigger] reactions@[j] == Reaction::Alert <==> alerted(
                    actors@[j].role,
                    &actors@[j].viewshed,
                    map.index_of(player.x as int, player.y as int),
                )),
            forall|j: int|
                0 <= j < k ==> (#[trigger] reactions@[j] == Reaction::Idle <==> !alerted(
                    actors@[j].role,
                    &actors@[j].viewshed,
                    map.index_of(player.x as int, player.y as int),
                )),
        decreases actors@.len() - k,
    {
        let reaction = match actors[k].role {
            Role::Monster => react(&actors[k].viewshed, map, player),
            Role::Player => Reaction::Idle,
        };
        reactions.push(reaction);
        k = k + 1;
    }
    reactions
}

} // verus!
