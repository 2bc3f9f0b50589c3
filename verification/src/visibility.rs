//! Field of view: what an actor sees from where it stands, and what of the
//! level is lit and remembered once every actor has looked.

use vstd::prelude::*;
use crate::actors::Actor;
use crate::actors::Position;
use crate::actors::Viewshed;
use crate::actors::lists;
use crate::map::GameMap;
use crate::map::TileType;
use crate::map::lemma_cell_of_index;
use crate::map::lemma_index_of_cell;

verus! {

/// The farthest an actor can be asked to see. Before it looks, the field of
/// view sets aside room for as many cells as the square of twice the range:
/// at this range some four million, and beyond it soon more than a machine
/// has memory for.
pub const MAX_RANGE: i32 = 1024;

/// A point of `bracket-geometry`, which `rltk` hands on: a column `x` and a
/// row `y`, both public and read as they are declared.
#[verifier::external_type_specification]
pub struct ExPoint(rltk::Point);

/// The cells that `rltk::field_of_view` reports for a grid `width` wide and
/// `height` high whose cell with index `i` stops sight if `opaque[i]`, seen
/// from `(x, y)` at most `range` cells far.
pub uninterp spec fn field_of_view_cells(
    opaque: Seq<bool>,
    width: int,
    height: int,
    x: int,
    y: int,
    range: int,
) -> Set<(i32, i32)>;

impl rltk::BaseMap for GameMap {
    /// What `GameMap::is_opaque` answers, for the field of view to ask:
    /// sight stops at a wall, and at any index that is not on the grid.
    fn is_opaque(&self, idx: usize) -> (opaque: bool)
        ensures
            opaque == !(idx < self.tiles@.len() && self.tiles@[idx as int] == TileType::Floor),
    {
        GameMap::is_opaque(self, idx)
    }
}

impl rltk::Algorithm2D for GameMap {
    /// What `GameMap::dimensions` answers, for the field of view to ask: the
    /// width of the grid as `x` and its height as `y`.
    fn dimensions(&self) -> (extent: rltk::Point)
        ensures
            extent.x == self.width,
            extent.y == self.height,
    {
        GameMap::dimensions(self)
    }
}

/// `rltk::field_of_view`, with the map read through its impls of `BaseMap`
/// and `Algorithm2D`, and each point handed out as a pair.
///
/// Which cells come back is given a name and not stated. They come back in
/// no order to rely on, each once, so the claim is about them as a set. The
/// function drops every cell that is not on the grid before it returns. It sets
/// aside room for the square of twice the range, and indexes cells in
/// `i32`: the bounds keep the one within memory and the other within `i32`.
#[verifier::external_body]
fn field_of_view(map: &GameMap, x: i32, y: i32, range: i32) -> (cells: Vec<(i32, i32)>)
    requires
        map.wf(),
        map.in_bounds(x as int, y as int),
        0 < range <= MAX_RANGE,
    ensures
        cells@.to_set() == field_of_view_cells(
            map.opaque_cells(),
            map.width as int,
            map.height as int,
            x as int,
            y as int,
            range as int,
        ),
        forall|k: int|
            0 <= k < cells@.len() ==> map.in_bounds(
                (#[trigger] cells@[k]).0 as int,
                cells@[k].1 as int,
            ),
        cells@.no_duplicates(),
{
    rltk::field_of_view(rltk::Point::new(x, y), range, map)
        .into_iter()
        .map(|p| (p.x, p.y))
        .collect()
}

/// The index of a cell if it lies on a grid of the given extent.
pub open spec fn index_on_grid(width: int, height: int, cell: (i32, i32)) -> Option<usize> {
    if 0 <= cell.0 < width && 0 <= cell.1 < height {
        Some((cell.1 * width + cell.0) as usize)
    } else {
        None
    }
}

/// What is kept of a sequence stays in what is kept of a longer one.
proof fn lemma_filter_map_keeps<A, B>(s: Seq<A>, f: spec_fn(A) -> Option<B>, k: int)
    requires
        0 <= k < s.len(),
        f(s[k]) is Some,
    ensures
        s.filter_map(f).contains(f(s[k])->0),
    decreases s.len(),
{
    let kept = s.filter_map(f);
    let rest = s.drop_last();
    if k == s.len() - 1 {
        let tail = seq![f(s[k])->0];
        assert(kept == rest.filter_map(f) + tail);
        assert(kept[kept.len() - 1] == f(s[k])->0);
    } else {
        lemma_filter_map_keeps(rest, f, k);
        let j = choose|j: int| 0 <= j < rest.filter_map(f).len() && rest.filter_map(f)[j]
            == f(s[k])->0;
        assert(kept[j] == f(s[k])->0);
    }
}

impl GameMap {
    /// For each index of the grid, whether sight stops at its tile.
    pub open spec fn opaque_cells(&self) -> Seq<bool> {
        Seq::new(self.tiles@.len(), |i: int| self.tiles@[i] != TileType::Floor)
    }

    /// Whether an actor at `(x, y)` that sees `range` cells far sees the
    /// tile with index `idx`. Without a positive range it sees nothing.
    pub open spec fn in_sight(&self, x: int, y: int, range: int, idx: int) -> bool {
        &&& range > 0
        &&& 0 <= idx < self.size()
        &&& field_of_view_cells(
            self.opaque_cells(),
            self.width as int,
            self.height as int,
            x,
            y,
            range,
        ).contains(((idx % (self.width as int)) as i32, (idx / (self.width as int)) as i32))
    }

    /// The indices, in their order, of those of `cells` that lie on the
    /// grid.
    pub fn cells_to_indices(&self, cells: &Vec<(i32, i32)>) -> (indices: Vec<usize>)
        requires
            self.wf(),
        ensures
            indices@ == cells@.filter_map(
                |c: (i32, i32)| index_on_grid(self.width as int, self.height as int, c),
            ),
            forall|k: int| 0 <= k < indices@.len() ==> (#[trigger] indices@[k]) < self.size(),
            cells@.no_duplicates() ==> indices@.no_duplicates(),
    {
        let ghost on_grid = |c: (i32, i32)| index_on_grid(self.width as int, self.height as int, c);
        let mut indices: Vec<usize> = Vec::new();
        let mut k: usize = 0;
        while k < cells.len()
            invariant
                self.wf(),
                0 <= k <= cells@.len(),
                on_grid == |c: (i32, i32)| index_on_grid(self.width as int, self.height as int, c),
                indices@ == cells@.take(k as int).filter_map(on_grid),
                forall|j: int| 0 <= j < indices@.len() ==> (#[trigger] indices@[j]) < self.size(),
                cells@.no_duplicates() ==> indices@.no_duplicates(),
            decreases cells@.len() - k,
        {
            let (x, y) = cells[k];
            proof {
                cells@.lemma_filter_map_take_succ(on_grid, k as int);
            }
            if 0 <= x && x < self.width && 0 <= y && y < self.height {
                let idx = self.xy_idx(x, y);
                proof {
                    if cells@.no_duplicates() && indices@.contains(idx) {
                        let earlier = cells@.take(k as int);
                        earlier.lemma_filter_map_contains(on_grid, idx);
                        let c = choose|c: (i32, i32)| #[trigger]
                            earlier.contains(c) && on_grid(c) == Some(idx);
                        lemma_index_of_cell(
                            self.width as int,
                            self.height as int,
                            c.0 as int,
                            c.1 as int,
                        );
                        lemma_index_of_cell(
                            self.width as int,
                            self.height as int,
                            x as int,
                            y as int,
                        );
                        let m = choose|m: int| 0 <= m < earlier.len() && earlier[m] == c;
                        assert(cells@[m] == cells@[k as int]);
                    }
                }
                indices.push(idx);
            }
            k = k + 1;
        }
        proof {
            assert(cells@.take(k as int) == cells@);
        }
        indices
    }

    /// The indices of the tiles that an actor at `at` sees when it sees
    /// `range` cells far; none if the range is not positive.
    pub fn visible_from(&self, at: Position, range: i32) -> (indices: Vec<usize>)
        requires
            self.wf(),
            self.in_bounds(at.x as int, at.y as int),
            range <= MAX_RANGE,
        ensures
            forall|idx: int|
                #![trigger lists(indices@, idx)]
                #![trigger self.in_sight(at.x as int, at.y as int, range as int, idx)]
                lists(indices@, idx) <==> self.in_sight(
                    at.x as int,
                    at.y as int,
                    range as int,
                    idx,
                ),
            range <= 0 ==> indices@.len() == 0,
            indices@.no_duplicates(),
    {
        if range <= 0 {
            return Vec::new();
        }
        let cells = field_of_view(self, at.x, at.y, range);
        let indices = self.cells_to_indices(&cells);
        proof {
            let width = self.width as int;
            let height = self.height as int;
            let on_grid = |c: (i32, i32)| index_on_grid(width, height, c);
            assert forall|idx: int| #[trigger] lists(indices@, idx) implies self.in_sight(
                at.x as int,
                at.y as int,
                range as int,
                idx,
            ) by {
                let k = choose|k: int| 0 <= k < indices@.len() && #[trigger] indices@[k] == idx;
                assert(indices@.contains(indices@[k]));
                cells@.lemma_filter_map_contains(on_grid, indices@[k]);
                let c = choose|c: (i32, i32)| #[trigger]
                    cells@.contains(c) && on_grid(c) == Some(indices@[k]);
                lemma_index_of_cell(width, height, c.0 as int, c.1 as int);
                assert(cells@.to_set().contains(c));
            }
            assert forall|idx: int|
                self.in_sight(at.x as int, at.y as int, range as int, idx) implies #[trigger] lists(
                indices@,
                idx,
            ) by {
                lemma_cell_of_index(width, height, idx);
                let c = ((idx % width) as i32, (idx / width) as i32);
                assert(cells@.to_set().contains(c));
                let j = choose|j: int| 0 <= j < cells@.len() && cells@[j] == c;
                lemma_filter_map_keeps(cells@, on_grid, j);
                let k = choose|k: int| 0 <= k < indices@.len() && indices@[k] == on_grid(c)->0;
                assert(indices@[k] == idx);
            }
        }
        indices
    }
}

impl Viewshed {
    /// Works out anew what an actor at `at` sees on `map`, and marks the
    /// perception as done.
    pub fn recompute(&mut self, map: &GameMap, at: Position)
        requires
            map.wf(),
            map.in_bounds(at.x as int, at.y as int),
            old(self).range <= MAX_RANGE,
        ensures
            final(self).range == old(self).range,
            !final(self).dirty,
            forall|idx: int|
                #![trigger final(self).sees(idx)]
                #![trigger map.in_sight(at.x as int, at.y as int, old(self).range as int, idx)]
                final(self).sees(idx) <==> map.in_sight(
                    at.x as int,
                    at.y as int,
                    old(self).range as int,
                    idx,
                ),
            final(self).range <= 0 ==> final(self).visible_tiles@.len() == 0,
            final(self).visible_tiles@.no_duplicates(),
    {
        self.visible_tiles.clear();
        self.visible_tiles = map.visible_from(at, self.range);
        self.dirty = false;
    }
}

/// Whether one of `actors` sees the tile with index `idx`.
pub open spec fn lit_by(actors: Seq<Actor>, idx: int) -> bool {
    exists|k: int| 0 <= k < actors.len() && (#[trigger] actors[k]).viewshed.sees(idx)
}

/// Whether `after` is `before` once it has looked at `map`: an actor whose
/// perception was due lists, each once, the tiles in sight from where it
/// stands, any other lists what it listed, and neither is due any more.
pub open spec fn looked(map: &GameMap, before: Actor, after: Actor) -> bool {
    &&& after.role == before.role
    &&& after.position == before.position
    &&& after.viewshed.range == before.viewshed.range
    &&& !after.viewshed.dirty
    &&& if before.viewshed.dirty {
        &&& after.viewshed.visible_tiles@.no_duplicates()
        &&& forall|idx: int|
            #![trigger after.viewshed.sees(idx)]
            #![trigger map.in_sight(
                before.position.x as int,
                before.position.y as int,
                before.viewshed.range as int,
                idx,
            )]
            after.viewshed.sees(idx) <==> map.in_sight(
                before.position.x as int,
                before.position.y as int,
                before.viewshed.range as int,
                idx,
            )
    } else {
        after.viewshed.visible_tiles@ == before.viewshed.visible_tiles@
    }
}

/// Whether a visibility pass leads from the map `before` and the actors
/// `watchers` to the map `after` and the actors `seers`: every actor has
/// looked, a tile is seen now exactly if some actor sees it, and a tile is
/// revealed exactly if it was before or is seen now.
pub open spec fn visibility_pass(
    before: &GameMap,
    watchers: Seq<Actor>,
    after: &GameMap,
    seers: Seq<Actor>,
) -> bool {
    &&& after.width == before.width
    &&& after.height == before.height
    &&& after.tiles@ == before.tiles@
    &&& after.rooms@ == before.rooms@
    &&& seers.len() == watchers.len()
    &&& forall|k: int| 0 <= k < watchers.len() ==> looked(before, watchers[k], #[trigger] seers[k])
    &&& forall|i: int|
        0 <= i < after.size() ==> (#[trigger] after.visible_tiles@[i] <==> lit_by(seers, i))
    &&& forall|i: int|
        0 <= i < after.size() ==> (#[trigger] after.revealed_tiles@[i]
            <==> before.revealed_tiles@[i]
            || lit_by(seers, i))
}

impl GameMap {
    /// Whether `actor` stands on the grid and sees no farther than
    /// `MAX_RANGE`.
    pub open spec fn can_look(&self, actor: Actor) -> bool {
        self.in_bounds(actor.position.x as int, actor.position.y as int) && actor.viewshed.range
            <= MAX_RANGE
    }

    /// Forgets what is seen now; what has been revealed stays.
    pub fn clear_visible(&mut self)
        requires
            old(self).wf(),
        ensures
            final(self).wf(),
            final(self).width == old(self).width,
            final(self).height == old(self).height,
            final(self).tiles@ == old(self).tiles@,
            final(self).rooms@ == old(self).rooms@,
            final(self).revealed_tiles@ == old(self).revealed_tiles@,
            forall|i: int| 0 <= i < final(self).size() ==> !final(self).visible_tiles@[i],
    {
        let mut i: usize = 0;
        while i < self.visible_tiles.len()
            invariant
                self.width == old(self).width,
                self.height == old(self).height,
                self.tiles@ == old(self).tiles@,
                self.rooms@ == old(self).rooms@,
                self.revealed_tiles@ == old(self).revealed_tiles@,
                self.visible_tiles@.len() == old(self).visible_tiles@.len(),
                0 <= i <= self.visible_tiles@.len(),
                forall|j: int| 0 <= j < i ==> !self.visible_tiles@[j],
                forall|j: int|
                    i <= j < self.visible_tiles@.len() ==> self.visible_tiles@[j]
                        == old(self).visible_tiles@[j],
                old(self).wf(),
            decreases self.visible_tiles@.len() - i,
        {
            self.visible_tiles[i] = false;
            i = i + 1;
        }
    }

    /// Takes in what `viewshed` sees: each tile of the grid that it sees is
    /// seen now and revealed. Indices that are not on the grid are passed
    /// over.
    pub fn apply_viewshed(&mut self, viewshed: &Viewshed)
        requires
            old(self).wf(),
        ensures
            final(self).wf(),
            final(self).width == old(self).width,
            final(self).height == old(self).height,
            final(self).tiles@ == old(self).tiles@,
            final(self).rooms@ == old(self).rooms@,
            forall|i: int|
                0 <= i < final(self).size() ==> (#[trigger] final(self).visible_tiles@[i]
                    <==> old(self).visible_tiles@[i] || viewshed.sees(i)),
            forall|i: int|
                0 <= i < final(self).size()
                    ==> (#[trigger] final(self).revealed_tiles@[i]
                        <==> old(self).revealed_tiles@[i] || viewshed.sees(i)),
    {
        let mut k: usize = 0;
        while k < viewshed.visible_tiles.len()
            invariant
                self.wf(),
                self.width == old(self).width,
                self.height == old(self).height,
                self.tiles@ == old(self).tiles@,
                self.rooms@ == old(self).rooms@,
                0 <= k <= viewshed.visible_tiles@.len(),
                forall|i: int|
                    0 <= i < self.size() ==> (#[trigger] self.visible_tiles@[i]
                        <==> old(self).visible_tiles@[i] || lists(
                        viewshed.visible_tiles@.take(k as int),
                        i,
                    )),
                forall|i: int|
                    0 <= i < self.size() ==> (#[trigger] self.revealed_tiles@[i]
                        <==> old(self).revealed_tiles@[i] || lists(
                        viewshed.visible_tiles@.take(k as int),
                        i,
                    )),
            decreases viewshed.visible_tiles@.len() - k,
        {
            let idx = viewshed.visible_tiles[k];
            let ghost seen = viewshed.visible_tiles@.take(k as int);
            let ghost more = viewshed.visible_tiles@.take(k + 1);
            if idx < self.visible_tiles.len() {
                self.revealed_tiles[idx] = true;
                self.visible_tiles[idx] = true;
            }
            proof {
                assert(more[k as int] == idx);
                assert forall|i: int| lists(more, i) <==> lists(seen, i) || i == idx by {
                    if lists(seen, i) {
                        let j = choose|j: int| 0 <= j < seen.len() && #[trigger] seen[j] == i;
                        assert(more[j] == i);
                    }
                    if lists(more, i) {
                        let j = choose|j: int| 0 <= j < more.len() && #[trigger] more[j] == i;
                        if j < k {
                            assert(seen[j] == i);
                        }
                    }
                }
            }
            k = k + 1;
        }
        proof {
            assert(viewshed.visible_tiles@.take(k as int) == viewshed.visible_tiles@);
        }
    }
}

/// Whether every one of `actors` whose perception is due can look at `map`.
pub open spec fn ready_to_look(map: &GameMap, actors: Seq<Actor>) -> bool {
    forall|k: int|
        0 <= k < actors.len() && (#[trigger] actors[k]).viewshed.dirty ==> map.can_look(actors[k])
}

/// Whether every one of `actors` whose perception is due can look at `map`.
pub fn is_ready_to_look(map: &GameMap, actors: &Vec<Actor>) -> (ready: bool)
    ensures
        ready == ready_to_look(map, actors@),
{
    let mut k: usize = 0;
    while k < actors.len()
        invariant
            0 <= k <= actors@.len(),
            forall|j: int|
                0 <= j < k && (#[trigger] actors@[j]).viewshed.dirty ==> map.can_look(actors@[j]),
        decreases actors@.len() - k,
    {
        let actor = &actors[k];
        if actor.viewshed.dirty && !(map.on_map(actor.position.x, actor.position.y)
            && actor.viewshed.range <= MAX_RANGE) {
            return false;
        }
        k = k + 1;
    }
    true
}

/// One visibility pass. What is seen now is forgotten once; then every
/// actor whose perception is due looks anew from where it stands, and what
/// each actor sees, due or not, is taken in by the map.
pub fn run_visibility(map: &mut GameMap, actors: &mut Vec<Actor>)
    requires
        old(map).wf(),
        ready_to_look(old(map), old(actors)@),
    ensures
        final(map).wf(),
        visibility_pass(old(map), old(actors)@, final(map), final(actors)@),
        forall|i: int|
            0 <= i < final(map).size() && #[trigger] final(map).visible_tiles@[i]
                ==> final(map).revealed_tiles@[i],
{
    map.clear_visible();
    let mut k: usize = 0;
    while k < actors.len()
        invariant
            map.wf(),
            map.width == old(map).width,
            map.height == old(map).height,
            map.tiles@ == old(map).tiles@,
            map.rooms@ == old(map).rooms@,
            old(map).revealed_tiles@.len() == map.size(),
            actors@.len() == old(actors)@.len(),
            0 <= k <= actors@.len(),
            forall|j: int| k <= j < actors@.len() ==> actors@[j] == old(actors)@[j],
            forall|j: int|
                k <= j < actors@.len() && (#[trigger] old(actors)@[j]).viewshed.dirty
                    ==> old(map).can_look(old(actors)@[j]),
            forall|j: int| 0 <= j < k ==> looked(old(map), old(actors)@[j], #[trigger] actors@[j]),
            forall|i: int|
                0 <= i < map.size() ==> (#[trigger] map.visible_tiles@[i] <==> lit_by(
                    actors@.take(k as int),
                    i,
                )),
            forall|i: int|
                0 <= i < map.size() ==> (#[trigger] map.revealed_tiles@[i]
                    <==> old(map).revealed_tiles@[i] || lit_by(
                    actors@.take(k as int),
                    i,
                )),
        decreases actors@.len() - k,
    {
        let ghost prior = actors@;
        if actors[k].viewshed.dirty {
            let at = actors[k].position;
            actors[k].viewshed.recompute(map, at);
        }
        map.apply_viewshed(&actors[k].viewshed);
        proof {
            let was = prior.take(k as int);
            let done = actors@.take(k + 1);
            assert(actors@.take(k as int) =~= was);
            assert forall|i: int| lit_by(
                done,
                i,
            ) <==> lit_by(was, i) || actors@[k as int].viewshed.sees(i) by {
                if lit_by(was, i) {
                    let j = choose|j: int| 0 <= j < was.len()
                        && (#[trigger] was[j]).viewshed.sees(i);
                    assert(done[j].viewshed.sees(i));
                }
                if actors@[k as int].viewshed.sees(i) {
                    assert(done[k as int].viewshed.sees(i));
                }
                if lit_by(done, i) {
                    let j = choose|j: int| 0 <= j < done.len()
                        && (#[trigger] done[j]).viewshed.sees(i);
                    if j < k {
                        assert(was[j].viewshed.sees(i));
                    }
                }
            }
        }
        k = k + 1;
    }
    proof {
        assert(actors@.take(k as int) == actors@);
    }
}


/// Whether `later` is `earlier` where it stood, seeing as far and listing
/// the same tiles; it may have been marked as due in between.
pub open spec fn stood_still(earlier: Actor, later: Actor) -> bool {
    &&& later.role == earlier.role
    &&& later.position == earlier.position
    &&& later.viewshed.range == earlier.viewshed.range
    &&& later.viewshed.visible_tiles@ == earlier.viewshed.visible_tiles@
}

/// A visibility pass that follows another changes nothing, if no actor has
/// moved in between and none is due that was not due before the first pass:
/// the same tiles are seen now, the same are revealed, and every actor sees
/// what it saw. An actor that has not been marked in between lists its
/// tiles as it did.
pub proof fn lemma_visibility_idempotent(
    start: GameMap,
    watchers: Seq<Actor>,
    once: GameMap,
    seers: Seq<Actor>,
    rested: Seq<Actor>,
    twice: GameMap,
    again: Seq<Actor>,
)
    requires
        once.wf(),
        twice.wf(),
        visibility_pass(&start, watchers, &once, seers),
        rested.len() == seers.len(),
        forall|k: int| 0 <= k < seers.len() ==> stood_still(seers[k], #[trigger] rested[k]),
        forall|k: int|
            0 <= k < seers.len() && (#[trigger] rested[k]).viewshed.dirty
                ==> watchers[k].viewshed.dirty,
        visibility_pass(&once, rested, &twice, again),
    ensures
        twice.visible_tiles@ == once.visible_tiles@,
        twice.revealed_tiles@ == once.revealed_tiles@,
        forall|k: int, idx: int|
            0 <= k < seers.len() ==> (#[trigger] again[k].viewshed.sees(idx)
                <==> seers[k].viewshed.sees(idx)),
        forall|k: int|
            0 <= k < seers.len() && !rested[k].viewshed.dirty
                ==> (#[trigger] again[k]).viewshed.visible_tiles@
                == seers[k].viewshed.visible_tiles@,
{
    assert forall|k: int, idx: int| 0 <= k < seers.len() implies (
    #[trigger] again[k].viewshed.sees(idx) <==> seers[k].viewshed.sees(idx)) by {
        assert(looked(&start, watchers[k], seers[k]));
        assert(stood_still(seers[k], rested[k]));
        assert(looked(&once, rested[k], again[k]));
        if rested[k].viewshed.dirty {
            let at = rested[k].position;
            let range = rested[k].viewshed.range;
            assert(once.opaque_cells() =~= start.opaque_cells());
            assert(once.in_sight(at.x as int, at.y as int, range as int, idx) == start.in_sight(
                at.x as int,
                at.y as int,
                range as int,
                idx,
            ));
        }
    }
    assert forall|k: int|
        0 <= k < seers.len() && !rested[k].viewshed.dirty implies (
    #[trigger] again[k]).viewshed.visible_tiles@ == seers[k].viewshed.visible_tiles@ by {
        assert(stood_still(seers[k], rested[k]));
        assert(looked(&once, rested[k], again[k]));
    }
    assert forall|i: int| lit_by(again, i) <==> lit_by(seers, i) by {
        if lit_by(again, i) {
            let k = choose|k: int| 0 <= k < again.len() && (#[trigger] again[k]).viewshed.sees(i);
            assert(seers[k].viewshed.sees(i));
        }
        if lit_by(seers, i) {
            let k = choose|k: int| 0 <= k < seers.len() && (#[trigger] seers[k]).viewshed.sees(i);
            assert(again[k].viewshed.sees(i));
        }
    }
    assert(twice.visible_tiles@ =~= once.visible_tiles@);
    assert(twice.revealed_tiles@ =~= once.revealed_tiles@);
}

} // verus!
