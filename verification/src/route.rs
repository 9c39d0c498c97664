//! One pathfinding step of the shared entity: the request's target is
//! recorded, the pathfinding collaborator is asked for a navigable path,
//! and the entity advances one grid cell along it. The search itself is
//! consumed as a black box; everything stated of its result is checked
//! against the collaborator's source, and the path it picks is given a
//! name rather than spelt out.

use vstd::prelude::*;

use crate::codec::Car;
use crate::grid::Grid;
use crate::grid::rows_view;

verus! {

/// Two cells share an edge of the four-neighbour grid.
pub open spec fn cardinal_adjacent(a: (int, int), b: (int, int)) -> bool {
    ||| (a.0 == b.0 && (a.1 == b.1 + 1 || a.1 == b.1 - 1))
    ||| (a.1 == b.1 && (a.0 == b.0 + 1 || a.0 == b.0 - 1))
}

/// The cell lies inside the matrix and carries the walkable tile value.
pub open spec fn cell_open(tiles: Seq<Seq<i32>>, walkable: i32, c: (int, int)) -> bool {
    &&& 0 <= c.1 < tiles.len()
    &&& 0 <= c.0 < tiles[c.1].len()
    &&& tiles[c.1][c.0] == walkable
}

/// A chain of at most `n` open cells, each a cardinal neighbour of the one
/// before, joins `from` (itself not required open) to `to`.
pub open spec fn reaches_in(
    tiles: Seq<Seq<i32>>,
    walkable: i32,
    from: (int, int),
    to: (int, int),
    n: nat,
) -> bool
    decreases n,
{
    if from == to {
        true
    } else if n == 0 {
        false
    } else {
        exists|mid: (int, int)|
            cardinal_adjacent(from, mid) && cell_open(tiles, walkable, mid) && #[trigger] reaches_in(
                tiles,
                walkable,
                mid,
                to,
                (n - 1) as nat,
            )
    }
}

/// `to` can be reached from `from` through open cells under cardinal
/// adjacency.
pub open spec fn reachable(tiles: Seq<Seq<i32>>, walkable: i32, from: (int, int), to: (
    int,
    int,
)) -> bool {
    exists|n: nat| #[trigger] reaches_in(tiles, walkable, from, to, n)
}

/// The path that the pathfinding collaborator picks for these arguments:
/// its result depends on them alone, so the sequence has a name instead of
/// a page of search rules.
pub uninterp spec fn path_of(
    tiles: Seq<Seq<i32>>,
    walkable: i32,
    start: (int, int),
    goal: (int, int),
) -> Seq<(int, int)>;

/// The coordinates of an executable path, as mathematical pairs.
pub open spec fn coords_view(v: Seq<(i32, i32)>) -> Seq<(int, int)> {
    Seq::new(v.len(), |i: int| (v[i].0 as int, v[i].1 as int))
}

/// The entity sits on a walkable cell, or still on the never-moved origin.
pub open spec fn entity_inv(c: Car, g: Grid) -> bool {
    (c.pos.0 == 0 && c.pos.1 == 0) || g.walkable_spec(c.pos.0 as int, c.pos.1 as int)
}

/// How one request may move the entity: either it stays, or it takes a
/// single step to an adjacent walkable cell; it always stays when the
/// target is the current position, out of bounds, or a blocked cell.
pub open spec fn step_rel(g: Grid, from: (i32, i32), target: (i32, i32), to: (i32, i32)) -> bool {
    &&& to == from || (g.walkable_spec(to.0 as int, to.1 as int) && cardinal_adjacent(
        (from.0 as int, from.1 as int),
        (to.0 as int, to.1 as int),
    ))
    &&& from == target ==> to == from
    &&& !g.in_bounds_spec(target.0 as int, target.1 as int) ==> to == from
    &&& (g.in_bounds_spec(target.0 as int, target.1 as int) && !g.walkable_spec(
        target.0 as int,
        target.1 as int,
    ) && from != target) ==> to == from
}

/// Exactly where one request puts the entity: it stays for an equal,
/// out-of-bounds, blocked or unreachable target, and otherwise moves off
/// its cell onto the first coordinate of the collaborator's path.
pub open spec fn step_exact(g: Grid, from: (i32, i32), target: (i32, i32), to: (i32, i32)) -> bool {
    let tiles = rows_view(g.tiles@);
    let f = (from.0 as int, from.1 as int);
    let t = (target.0 as int, target.1 as int);
    if !g.in_bounds_spec(t.0, t.1) {
        to == from
    } else if from == target {
        to == from
    } else if !g.walkable_spec(t.0, t.1) {
        to == from
    } else if !reachable(tiles, 1, f, t) {
        to == from
    } else {
        let p = path_of(tiles, 1, f, t);
        &&& p.len() > 0
        &&& (to.0 as int, to.1 as int) == p[0]
        &&& to != from
    }
}

/// Relies on `basic_pathfinding::pathfinding::find_path` over a cardinal
/// grid whose walkable tile value is `walkable` and with default search
/// options. The source gives: the call succeeds exactly when the goal is
/// the start or an open cell reachable from it (the search exhausts the
/// walkable component before giving up); a start equal to the goal yields
/// the empty path; any returned path excludes the start, consists of open
/// in-grid cells each a cardinal neighbour of the one before, starts next
/// to `start` and ends at `goal`. The search keys its hash maps by cell
/// and never walks their order, so the result depends on the arguments
/// alone and is named `path_of`. The call reads the goal's tile unchecked,
/// so both endpoints must lie inside the grid.
#[verifier::external_body]
fn find_path_raw(g: &Grid, walkable: i32, start: (i32, i32), goal: (i32, i32)) -> (r: Option<Vec<(i32, i32)>>)
    requires
        g.wf(),
        g.in_bounds_spec(start.0 as int, start.1 as int),
        g.in_bounds_spec(goal.0 as int, goal.1 as int),
    ensures
        r is Some <==> start == goal || (cell_open(
            rows_view(g.tiles@),
            walkable,
            (goal.0 as int, goal.1 as int),
        ) && reachable(
            rows_view(g.tiles@),
            walkable,
            (start.0 as int, start.1 as int),
            (goal.0 as int, goal.1 as int),
        )),
        r matches Some(v) ==> coords_view(v@) == path_of(
            rows_view(g.tiles@),
            walkable,
            (start.0 as int, start.1 as int),
            (goal.0 as int, goal.1 as int),
        ),
        r matches Some(v) ==> (v@.len() == 0 <==> start == goal),
        r matches Some(v) ==> (forall|k: int|
            0 <= k < v@.len() ==> cell_open(
                rows_view(g.tiles@),
                walkable,
                ((#[trigger] v@[k]).0 as int, v@[k].1 as int),
            )),
        r matches Some(v) ==> (v@.len() > 0 ==> v@[v@.len() - 1] == goal && cardinal_adjacent(
            (start.0 as int, start.1 as int),
            (v@[0].0 as int, v@[0].1 as int),
        ) && (forall|k: int|
            0 <= k < v@.len() - 1 ==> cardinal_adjacent(
                ((#[trigger] v@[k]).0 as int, v@[k].1 as int),
                (v@[k + 1].0 as int, v@[k + 1].1 as int),
            ))),
{
    let grid = basic_pathfinding::grid::Grid {
        tiles: g.tiles.clone(),
        walkable_tiles: vec![walkable],
        grid_type: basic_pathfinding::grid::GridType::Cardinal,
        ..Default::default()
    };
    let path = basic_pathfinding::pathfinding::find_path(
        &grid,
        basic_pathfinding::coord::Coord::new(start.0, start.1),
        basic_pathfinding::coord::Coord::new(goal.0, goal.1),
        Default::default(),
    );
    path.map(|p| p.into_iter().map(|c| (c.x, c.y)).collect())
}

/// Records the request's target on the entity and advances its position
/// one grid cell along the collaborator's path toward it, if one exists;
/// the position is unchanged for an unreachable, blocked, out-of-bounds,
/// or already reached target.
pub fn advance(entity: &mut Car, g: &Grid, target: (i32, i32))
    requires
        g.wf(),
        entity_inv(*old(entity), *g),
    ensures
        final(entity).target == target,
        step_rel(*g, old(entity).pos, target, final(entity).pos),
        step_exact(*g, old(entity).pos, target, final(entity).pos),
        entity_inv(*final(entity), *g),
{
    entity.target = target;
    if !g.in_bounds(target.0, target.1) {
        return;
    }
    assert(g.in_bounds_spec(entity.pos.0 as int, entity.pos.1 as int));
    match find_path_raw(g, 1, entity.pos, target) {
        None => {},
        Some(path) => {
            if path.len() > 0 {
                let p0 = path[0];
                proof {
                    let tiles = rows_view(g.tiles@);
                    let f = (old(entity).pos.0 as int, old(entity).pos.1 as int);
                    let t = (target.0 as int, target.1 as int);
                    assert(coords_view(path@)[0] == path_of(tiles, 1, f, t)[0]);
                    assert(cell_open(tiles, 1, (p0.0 as int, p0.1 as int)));
                }
                entity.pos = p0;
            }
        },
    }
}

/// Zero-length step: a request whose target is the entity's current
/// position leaves the position unchanged.
pub proof fn lemma_zero_length_step(g: Grid, from: (i32, i32), target: (i32, i32), to: (i32, i32))
    requires
        step_rel(g, from, target, to),
        from == target,
    ensures
        to == from,
{
}

/// A walled-off target: a request whose target sits on a blocked cell
/// leaves the position unchanged, and raises no error.
pub proof fn lemma_blocked_target_stays(
    g: Grid,
    from: (i32, i32),
    target: (i32, i32),
    to: (i32, i32),
)
    requires
        step_rel(g, from, target, to),
        !g.walkable_spec(target.0 as int, target.1 as int),
        from != target,
    ensures
        to == from,
{
}

/// An unreachable target: a request whose target no chain of open cells
/// joins to the position leaves the position unchanged, walkable or not.
pub proof fn lemma_unreachable_target_stays(
    g: Grid,
    from: (i32, i32),
    target: (i32, i32),
    to: (i32, i32),
)
    requires
        step_exact(g, from, target, to),
        !reachable(
            rows_view(g.tiles@),
            1,
            (from.0 as int, from.1 as int),
            (target.0 as int, target.1 as int),
        ),
        from != target,
    ensures
        to == from,
{
}

/// A reachable target: every request whose walkable target is joined to
/// the position by open cells moves the entity off its cell, one cardinal
/// step onto a walkable cell — so repeated requests make strict progress
/// and the position never leaves the walkable cells.
pub proof fn lemma_reachable_target_progresses(
    g: Grid,
    from: (i32, i32),
    target: (i32, i32),
    to: (i32, i32),
)
    requires
        step_rel(g, from, target, to),
        step_exact(g, from, target, to),
        g.walkable_spec(target.0 as int, target.1 as int),
        reachable(
            rows_view(g.tiles@),
            1,
            (from.0 as int, from.1 as int),
            (target.0 as int, target.1 as int),
        ),
        from != target,
    ensures
        to != from,
        g.walkable_spec(to.0 as int, to.1 as int),
        cardinal_adjacent((from.0 as int, from.1 as int), (to.0 as int, to.1 as int)),
        (to.0 as int, to.1 as int) == path_of(
            rows_view(g.tiles@),
            1,
            (from.0 as int, from.1 as int),
            (target.0 as int, target.1 as int),
        )[0],
{
}

} // verus!
