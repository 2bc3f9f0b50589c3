//! Walking the floor: when two cells of a grid are joined by a path of
//! floor tiles, and the shapes of floor that are known to join their cells.

use vstd::prelude::*;
use crate::map::TileType;
use crate::map::lower;
use crate::map::upper;
use crate::map::in_box;

verus! {

/// Whether `(x, y)` is a cell of the grid and holds floor.
pub open spec fn floor_at(tiles: Seq<TileType>, width: int, height: int, x: int, y: int) -> bool {
    0 <= x < width && 0 <= y < height && tiles[y * width + x] == TileType::Floor
}

/// Whether the two cells share an edge.
pub open spec fn adjacent(a: (int, int), b: (int, int)) -> bool {
    ||| a.0 == b.0 && (a.1 - b.1 == 1 || b.1 - a.1 == 1)
    ||| a.1 == b.1 && (a.0 - b.0 == 1 || b.0 - a.0 == 1)
}

/// Whether `path` walks from `a` to `b` over floor, each step to a cell
/// that shares an edge with the one before.
pub open spec fn walks(
    tiles: Seq<TileType>,
    width: int,
    height: int,
    path: Seq<(int, int)>,
    a: (int, int),
    b: (int, int),
) -> bool {
    &&& path.len() > 0
    &&& path[0] == a
    &&& path[path.len() - 1] == b
    &&& forall|k: int|
        0 <= k < path.len() ==> floor_at(tiles, width, height, (#[trigger] path[k]).0, path[k].1)
    &&& forall|k: int| 0 <= k < path.len() - 1 ==> adjacent(#[trigger] path[k], path[k + 1])
}

/// Whether some walk over floor leads from `a` to `b`.
pub open spec fn connected(
    tiles: Seq<TileType>,
    width: int,
    height: int,
    a: (int, int),
    b: (int, int),
) -> bool {
    exists|path: Seq<(int, int)>| walks(tiles, width, height, path, a, b)
}

/// Whether every cell that is floor in `before` is floor in `after`.
pub open spec fn keeps_floor(before: Seq<TileType>, after: Seq<TileType>) -> bool {
    &&& before.len() == after.len()
    &&& forall|i: int|
        0 <= i < before.len() && #[trigger] before[i] == TileType::Floor ==> after[i]
            == TileType::Floor
}

/// A walk can be taken backwards.
pub proof fn lemma_connected_symmetric(
    tiles: Seq<TileType>,
    width: int,
    height: int,
    a: (int, int),
    b: (int, int),
)
    requires
        connected(tiles, width, height, a, b),
    ensures
        connected(tiles, width, height, b, a),
{
    let path = choose|path: Seq<(int, int)>| walks(tiles, width, height, path, a, b);
    let back = Seq::new(path.len(), |k: int| path[path.len() - 1 - k]);
    assert forall|k: int| 0 <= k < back.len() - 1 implies adjacent(
        #[trigger] back[k],
        back[k + 1],
    ) by {
        let j = path.len() - 2 - k;
        assert(adjacent(path[j], path[j + 1]));
    }
    assert(walks(tiles, width, height, back, b, a));
}

/// Two walks that meet make one.
pub proof fn lemma_connected_transitive(
    tiles: Seq<TileType>,
    width: int,
    height: int,
    a: (int, int),
    b: (int, int),
    c: (int, int),
)
    requires
        connected(tiles, width, height, a, b),
        connected(tiles, width, height, b, c),
    ensures
        connected(tiles, width, height, a, c),
{
    let first = choose|path: Seq<(int, int)>| walks(tiles, width, height, path, a, b);
    let second = choose|path: Seq<(int, int)>| walks(tiles, width, height, path, b, c);
    let n = first.len() as int;
    let whole = Seq::new(
        (n + second.len() - 1) as nat,
        |k: int|
            if k < n {
                first[k]
            } else {
                second[k - n + 1]
            },
    );
    assert forall|k: int| 0 <= k < whole.len() implies floor_at(
        tiles,
        width,
        height,
        (#[trigger] whole[k]).0,
        whole[k].1,
    ) by {
        if k < n {
            assert(floor_at(tiles, width, height, first[k].0, first[k].1));
        } else {
            assert(floor_at(tiles, width, height, second[k - n + 1].0, second[k - n + 1].1));
        }
    }
    assert forall|k: int| 0 <= k < whole.len() - 1 implies adjacent(
        #[trigger] whole[k],
        whole[k + 1],
    ) by {
        if k < n - 1 {
            assert(adjacent(first[k], first[k + 1]));
        } else {
            assert(adjacent(second[k - n + 1], second[k - n + 2]));
        }
    }
    assert(walks(tiles, width, height, whole, a, c));
}

/// Carving more floor breaks no walk.
pub proof fn lemma_connected_kept(
    before: Seq<TileType>,
    after: Seq<TileType>,
    width: int,
    height: int,
    a: (int, int),
    b: (int, int),
)
    requires
        before.len() == width * height,
        keeps_floor(before, after),
        connected(before, width, height, a, b),
    ensures
        connected(after, width, height, a, b),
{
    let path = choose|path: Seq<(int, int)>| walks(before, width, height, path, a, b);
    assert forall|k: int| 0 <= k < path.len() implies floor_at(
        after,
        width,
        height,
        (#[trigger] path[k]).0,
        path[k].1,
    ) by {
        assert(floor_at(before, width, height, path[k].0, path[k].1));
        crate::map::lemma_index_of_cell(width, height, path[k].0, path[k].1);
    }
    assert(walks(after, width, height, path, a, b));
}

/// The ends of a run of floor along a row are joined.
pub proof fn lemma_row_connected(
    tiles: Seq<TileType>,
    width: int,
    height: int,
    xa: int,
    xb: int,
    y: int,
)
    requires
        forall|x: int|
            lower(xa, xb) <= x <= upper(xa, xb) ==> #[trigger] floor_at(tiles, width, height, x, y),
    ensures
        connected(tiles, width, height, (xa, y), (xb, y)),
{
    let lo = lower(xa, xb);
    let hi = upper(xa, xb);
    let path = Seq::new((hi - lo + 1) as nat, |k: int| (lo + k, y));
    assert forall|k: int| 0 <= k < path.len() implies floor_at(
        tiles,
        width,
        height,
        (#[trigger] path[k]).0,
        path[k].1,
    ) by {
        assert(floor_at(tiles, width, height, lo + k, y));
    }
    assert(walks(tiles, width, height, path, (lo, y), (hi, y)));
    if xa > xb {
        lemma_connected_symmetric(tiles, width, height, (lo, y), (hi, y));
    }
}

/// The ends of a run of floor along a column are joined.
pub proof fn lemma_column_connected(
    tiles: Seq<TileType>,
    width: int,
    height: int,
    ya: int,
    yb: int,
    x: int,
)
    requires
        forall|y: int|
            lower(ya, yb) <= y <= upper(ya, yb) ==> #[trigger] floor_at(tiles, width, height, x, y),
    ensures
        connected(tiles, width, height, (x, ya), (x, yb)),
{
    let lo = lower(ya, yb);
    let hi = upper(ya, yb);
    let path = Seq::new((hi - lo + 1) as nat, |k: int| (x, lo + k));
    assert forall|k: int| 0 <= k < path.len() implies floor_at(
        tiles,
        width,
        height,
        (#[trigger] path[k]).0,
        path[k].1,
    ) by {
        assert(floor_at(tiles, width, height, x, lo + k));
    }
    assert(walks(tiles, width, height, path, (x, lo), (x, hi)));
    if ya > yb {
        lemma_connected_symmetric(tiles, width, height, (x, lo), (x, hi));
    }
}

/// Any two cells of a box that is all floor are joined.
pub proof fn lemma_box_connected(
    tiles: Seq<TileType>,
    width: int,
    height: int,
    xlo: int,
    xhi: int,
    ylo: int,
    yhi: int,
    a: (int, int),
    b: (int, int),
)
    requires
        forall|x: int, y: int|
            in_box(xlo, xhi, ylo, yhi, x, y) ==> #[trigger] floor_at(tiles, width, height, x, y),
        in_box(xlo, xhi, ylo, yhi, a.0, a.1),
        in_box(xlo, xhi, ylo, yhi, b.0, b.1),
    ensures
        connected(tiles, width, height, a, b),
{
    assert forall|x: int| lower(a.0, b.0) <= x <= upper(a.0, b.0) implies #[trigger] floor_at(
        tiles,
        width,
        height,
        x,
        a.1,
    ) by {
        assert(in_box(xlo, xhi, ylo, yhi, x, a.1));
    }
    lemma_row_connected(tiles, width, height, a.0, b.0, a.1);
    assert forall|y: int| lower(a.1, b.1) <= y <= upper(a.1, b.1) implies #[trigger] floor_at(
        tiles,
        width,
        height,
        b.0,
        y,
    ) by {
        assert(in_box(xlo, xhi, ylo, yhi, b.0, y));
    }
    lemma_column_connected(tiles, width, height, a.1, b.1, b.0);
    lemma_connected_transitive(tiles, width, height, a, (b.0, a.1), b);
}

} // verus!
