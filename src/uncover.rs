use vstd::prelude::*;

use crate::board::{take_post, Board};
use crate::coordinates::{step, Coordinates};
use crate::tile::Tile;
use crate::tile_map::lemma_bombs_among;

verus! {

/// A request to reveal one cell.
#[derive(Clone, Copy, Debug, PartialEq, Eq, Structural)]
pub struct TIleTriggerEvent(pub Coordinates);

/// A cell that a cascade revealed, with the handle of the cover taken off it.
#[derive(Clone, Copy, Debug, PartialEq, Eq, Structural)]
pub struct RevealedTile {
    pub coordinates: Coordinates,
    pub entity: u64,
}

/// What one reveal did: the cells revealed, in order, and whether one was a bomb.
#[derive(Debug)]
pub struct Cascade {
    pub revealed: Vec<RevealedTile>,
    pub detonated: bool,
}

/// `p` is one of the cells in `s`.
pub open spec fn listed(s: Seq<Coordinates>, p: (int, int)) -> bool {
    exists|i: int| 0 <= i < s.len() && (#[trigger] s[i]).pos() == p
}

/// `p` is one of the eight neighbours of `c`.
pub open spec fn around(p: (int, int), c: Coordinates) -> bool {
    exists|k: int| 0 <= k < 8 && p == #[trigger] step(c.x as int, c.y as int, k)
}

/// `p` is one of the cells revealed in `s`.
pub open spec fn revealed_in(s: Seq<RevealedTile>, p: (int, int)) -> bool {
    exists|i: int| 0 <= i < s.len() && (#[trigger] s[i]).coordinates.pos() == p
}

/// Cell `i` of `s` was reached from an earlier revealed `Empty` cell it neighbours.
pub open spec fn reached(pre: Board, s: Seq<RevealedTile>, i: int) -> bool {
    exists|j: int, k: int|
        0 <= j < i && 0 <= k < 8 && pre.grid().tile(s[j].coordinates.x as int, s[j].coordinates.y as int)
            is Empty && #[trigger] s[i].coordinates.pos() == #[trigger] step(
            s[j].coordinates.x as int,
            s[j].coordinates.y as int,
            k,
        )
}

/// What revealing `c` does to a board: the cells of `out` are revealed in that
/// order, starting at `c`, each later one a neighbour of an earlier `Empty`
/// one; every `Empty` cell revealed has no covered neighbour left; a bomb goes
/// off exactly when `c` itself was a covered bomb.
pub open spec fn cascade_post(pre: Board, post: Board, c: Coordinates, out: Seq<RevealedTile>, det: bool) -> bool {
    &&& post.same_frame(pre)
    &&& (out.len() > 0 <==> pre.covered(c.x as int, c.y as int))
    &&& out.len() > 0 ==> out[0].coordinates == c
    &&& forall|i: int|
        0 <= i < out.len() ==> pre.covered((#[trigger] out[i]).coordinates.x as int, out[i].coordinates.y as int)
            && pre.cover(out[i].coordinates.x as int, out[i].coordinates.y as int) == Some(out[i].entity)
            && post.cover(out[i].coordinates.x as int, out[i].coordinates.y as int) is None
    &&& forall|i: int, j: int|
        0 <= i < j < out.len() ==> (#[trigger] out[i]).coordinates != (#[trigger] out[j]).coordinates
    &&& forall|a: int, b: int|
        post.grid().in_bounds(a, b) && #[trigger] post.cover(a, b) != pre.cover(a, b) ==> revealed_in(out, (a, b))
    &&& forall|i: int| 0 < i < out.len() ==> reached(pre, out, i)
    &&& forall|i: int, k: int|
        0 <= i < out.len() && 0 <= k < 8 && pre.grid().tile(
            (#[trigger] out[i]).coordinates.x as int,
            out[i].coordinates.y as int,
        ) is Empty ==> !post.covered(
            #[trigger] step(out[i].coordinates.x as int, out[i].coordinates.y as int, k).0,
            step(out[i].coordinates.x as int, out[i].coordinates.y as int, k).1,
        )
    &&& det == (out.len() > 0 && pre.grid().tile(c.x as int, c.y as int) is Bomb)
    &&& post.detonated == (pre.detonated || det)
}

/// The handles of the covers still over the cells that `events` name, in
/// order, cells already revealed or off the grid left out.
pub open spec fn covers_named(b: Board, events: Seq<TIleTriggerEvent>) -> Seq<u64>
    decreases events.len(),
{
    if events.len() == 0 {
        Seq::empty()
    } else {
        let c = events.last().0;
        covers_named(b, events.drop_last()) + if b.covered(c.x as int, c.y as int) {
            seq![b.cover(c.x as int, c.y as int)->Some_0]
        } else {
            Seq::empty()
        }
    }
}

/// The handles of the covers that the trigger `events` ask to take off.
pub fn trigger_event_handler(board: &Board, events: &Vec<TIleTriggerEvent>) -> (r: Vec<u64>)
    requires
        board.wf(),
    ensures
        r@ == covers_named(*board, events@),
{
    let mut r: Vec<u64> = Vec::new();
    let mut i: usize = 0;
    while i < events.len()
        invariant
            board.wf(),
            i <= events@.len(),
            r@ == covers_named(*board, events@.take(i as int)),
        decreases events@.len() - i,
    {
        let TIleTriggerEvent(c) = events[i];
        match board.tile_to_uncover(&c) {
            Some(e) => {
                r.push(e);
            },
            None => {},
        }
        proof {
            assert(events@.take(i + 1).drop_last() =~= events@.take(i as int));
        }
        i = i + 1;
    }
    proof {
        assert(events@.take(events@.len() as int) =~= events@);
    }
    r
}

/// Reveals `trigger` and, through every `Empty` cell it reaches, the region
/// around it, up to and including the numbered cells at its edge. A trigger on
/// a cell already revealed does nothing; one on a bomb sets it off.
pub fn uncover_tiles(board: &mut Board, trigger: Coordinates) -> (r: Cascade)
    requires
        old(board).wf(),
    ensures
        final(board).wf(),
        cascade_post(*old(board), *final(board), trigger, r.revealed@, r.detonated),
{
    let ghost pre = *board;
    let mut revealed: Vec<RevealedTile> = Vec::new();
    let mut worklist: Vec<Coordinates> = Vec::new();
    let first = board.try_uncover_tile(&trigger);
    let e = match first {
        None => {
            assert forall|a: int, b: int|
                board.grid().in_bounds(a, b) && #[trigger] board.cover(a, b) != pre.cover(a, b)
                implies revealed_in(revealed@, (a, b)) by {}
            return Cascade { revealed, detonated: false };
        },
        Some(e) => e,
    };
    revealed.push(RevealedTile { coordinates: trigger, entity: e });
    let tile = board.tile_map.tile_at(trigger);
    if !tile.is_empty() {
        let det = tile.is_bomb();
        let ghost b1 = *board;
        if det {
            board.detonated = true;
        }
        assert(board.covered_tiles == b1.covered_tiles);
        assert(board.covered_set() =~= b1.covered_set());
        assert forall|a: int, b: int|
            board.grid().in_bounds(a, b) && #[trigger] board.cover(a, b) != pre.cover(a, b)
            implies revealed_in(revealed@, (a, b)) by {
            assert(b1.cover(a, b) == board.cover(a, b));
            assert(revealed@[0].coordinates.pos() == (a, b));
        }
        assert(b1.cover(trigger.x as int, trigger.y as int) is None);
        return Cascade { revealed, detonated: det };
    }
    push_neighbors(board, &mut worklist, trigger);
    assert forall|i: int|
        0 <= i < worklist@.len() implies exists|j: int, k: int|
            0 <= j < revealed@.len() && 0 <= k < 8 && pre.grid().tile(
                revealed@[j].coordinates.x as int,
                revealed@[j].coordinates.y as int,
            ) is Empty && #[trigger] worklist@[i].pos() == #[trigger] step(
                revealed@[j].coordinates.x as int,
                revealed@[j].coordinates.y as int,
                k,
            ) by {
        assert(around(worklist@[i].pos(), trigger));
        let k = choose|k: int| 0 <= k < 8 && worklist@[i].pos() == #[trigger] step(trigger.x as int, trigger.y as int, k);
        assert(revealed@[0].coordinates == trigger);
        assert(pre.grid().tile(revealed@[0].coordinates.x as int, revealed@[0].coordinates.y as int) is Empty);
        assert(worklist@[i].pos() == step(revealed@[0].coordinates.x as int, revealed@[0].coordinates.y as int, k));
    }
    assert forall|a: int, b: int|
        board.grid().in_bounds(a, b) && #[trigger] board.cover(a, b) != pre.cover(a, b)
        implies revealed_in(revealed@, (a, b)) by {
        assert(revealed@[0].coordinates.pos() == (a, b));
    }
    while worklist.len() > 0
        invariant
            board.wf(),
            board.same_frame(pre),
            board.detonated == pre.detonated,
            pre.wf(),
            revealed@.len() >= 1,
            revealed@[0].coordinates == trigger,
            pre.covered(trigger.x as int, trigger.y as int),
            pre.grid().tile(trigger.x as int, trigger.y as int) is Empty,
            forall|i: int|
                0 <= i < revealed@.len() ==> pre.covered(
                    (#[trigger] revealed@[i]).coordinates.x as int,
                    revealed@[i].coordinates.y as int,
                ) && pre.cover(revealed@[i].coordinates.x as int, revealed@[i].coordinates.y as int) == Some(
                    revealed@[i].entity,
                ) && board.cover(revealed@[i].coordinates.x as int, revealed@[i].coordinates.y as int) is None,
            forall|i: int, j: int|
                0 <= i < j < revealed@.len() ==> (#[trigger] revealed@[i]).coordinates
                    != (#[trigger] revealed@[j]).coordinates,
            forall|a: int, b: int|
                board.grid().in_bounds(a, b) && #[trigger] board.cover(a, b) != pre.cover(a, b) ==> revealed_in(
                    revealed@,
                    (a, b),
                ),
            forall|i: int| 0 < i < revealed@.len() ==> reached(pre, revealed@, i),
            forall|i: int|
                0 <= i < worklist@.len() ==> exists|j: int, k: int|
                    0 <= j < revealed@.len() && 0 <= k < 8 && pre.grid().tile(
                        revealed@[j].coordinates.x as int,
                        revealed@[j].coordinates.y as int,
                    ) is Empty && #[trigger] worklist@[i].pos() == #[trigger] step(
                        revealed@[j].coordinates.x as int,
                        revealed@[j].coordinates.y as int,
                        k,
                    ),
            forall|i: int, k: int|
                0 <= i < revealed@.len() && 0 <= k < 8 && pre.grid().tile(
                    (#[trigger] revealed@[i]).coordinates.x as int,
                    revealed@[i].coordinates.y as int,
                ) is Empty ==> !board.covered(
                    #[trigger] step(revealed@[i].coordinates.x as int, revealed@[i].coordinates.y as int, k).0,
                    step(revealed@[i].coordinates.x as int, revealed@[i].coordinates.y as int, k).1,
                ) || listed(
                    worklist@,
                    step(revealed@[i].coordinates.x as int, revealed@[i].coordinates.y as int, k),
                ),
        decreases board.covered_set().len(), worklist@.len(),
    {
        let ghost b0 = *board;
        let ghost w0 = worklist@;
        let ghost r0 = revealed@;
        let c = worklist.pop().unwrap();
        assert(c == w0.last());
        match board.try_uncover_tile(&c) {
            None => {
                proof {
                    assert(board.covered_set() =~= b0.covered_set());
                    assert forall|i: int, k: int|
                        0 <= i < revealed@.len() && 0 <= k < 8 && pre.grid().tile(
                            (#[trigger] revealed@[i]).coordinates.x as int,
                            revealed@[i].coordinates.y as int,
                        ) is Empty implies !board.covered(
                            #[trigger] step(revealed@[i].coordinates.x as int, revealed@[i].coordinates.y as int, k).0,
                            step(revealed@[i].coordinates.x as int, revealed@[i].coordinates.y as int, k).1,
                        ) || listed(
                            worklist@,
                            step(revealed@[i].coordinates.x as int, revealed@[i].coordinates.y as int, k),
                        ) by {
                        let p = step(revealed@[i].coordinates.x as int, revealed@[i].coordinates.y as int, k);
                        if board.covered(p.0, p.1) {
                            let m = choose|m: int| 0 <= m < w0.len() && (#[trigger] w0[m]).pos() == p;
                            assert(m != w0.len() - 1);
                            assert(worklist@[m] == w0[m]);
                        }
                    }
                }
            },
            Some(e) => {
                proof {
                    assert(w0[w0.len() - 1] == c);
                    assert(b0.covered_set().contains(c.pos()));
                }
                let ghost wit = choose|j: int, k: int|
                    0 <= j < r0.len() && 0 <= k < 8 && pre.grid().tile(
                        r0[j].coordinates.x as int,
                        r0[j].coordinates.y as int,
                    ) is Empty && #[trigger] w0[w0.len() - 1].pos() == #[trigger] step(
                        r0[j].coordinates.x as int,
                        r0[j].coordinates.y as int,
                        k,
                    );
                revealed.push(RevealedTile { coordinates: c, entity: e });
                let t = board.tile_map.tile_at(c);
                proof {
                    let (j, k) = wit;
                    let q = r0[j].coordinates;
                    lemma_empty_has_no_bomb_around(pre, q, k);
                    assert(!(t is Bomb));
                    assert(revealed@[j] == r0[j]);
                    assert(revealed@[revealed@.len() - 1].coordinates.pos() == step(q.x as int, q.y as int, k));
                    assert(reached(pre, revealed@, revealed@.len() - 1));
                    assert forall|i: int| 0 < i < revealed@.len() implies reached(pre, revealed@, i) by {
                        if i < r0.len() {
                            assert(reached(pre, r0, i));
                            let (jj, kk) = choose|jj: int, kk: int|
                                0 <= jj < i && 0 <= kk < 8 && pre.grid().tile(
                                    r0[jj].coordinates.x as int,
                                    r0[jj].coordinates.y as int,
                                ) is Empty && #[trigger] r0[i].coordinates.pos() == #[trigger] step(
                                    r0[jj].coordinates.x as int,
                                    r0[jj].coordinates.y as int,
                                    kk,
                                );
                            assert(revealed@[jj] == r0[jj]);
                            assert(revealed@[i] == r0[i]);
                        }
                    }
                    assert forall|a: int, b: int|
                        board.grid().in_bounds(a, b) && #[trigger] board.cover(a, b) != pre.cover(a, b)
                        implies revealed_in(revealed@, (a, b)) by {
                        if a == c.x && b == c.y {
                            assert(revealed@[revealed@.len() - 1].coordinates.pos() == (a, b));
                        } else {
                            assert(b0.cover(a, b) == board.cover(a, b));
                            let m = choose|m: int| 0 <= m < r0.len() && (#[trigger] r0[m]).coordinates.pos() == (a, b);
                            assert(revealed@[m] == r0[m]);
                        }
                    }
                    assert forall|i: int, k: int|
                        0 <= i < revealed@.len() && 0 <= k < 8 && pre.grid().tile(
                            (#[trigger] revealed@[i]).coordinates.x as int,
                            revealed@[i].coordinates.y as int,
                        ) is Empty && !(i == revealed@.len() - 1) implies !board.covered(
                            #[trigger] step(revealed@[i].coordinates.x as int, revealed@[i].coordinates.y as int, k).0,
                            step(revealed@[i].coordinates.x as int, revealed@[i].coordinates.y as int, k).1,
                        ) || listed(
                            worklist@,
                            step(revealed@[i].coordinates.x as int, revealed@[i].coordinates.y as int, k),
                        ) by {
                        assert(revealed@[i] == r0[i]);
                        let p = step(revealed@[i].coordinates.x as int, revealed@[i].coordinates.y as int, k);
                        if board.covered(p.0, p.1) {
                            let m = choose|m: int| 0 <= m < w0.len() && (#[trigger] w0[m]).pos() == p;
                            assert(m != w0.len() - 1);
                            assert(worklist@[m] == w0[m]);
                        }
                    }
                    assert forall|i: int|
                        0 <= i < worklist@.len() implies exists|j: int, k: int|
                            0 <= j < revealed@.len() && 0 <= k < 8 && pre.grid().tile(
                                revealed@[j].coordinates.x as int,
                                revealed@[j].coordinates.y as int,
                            ) is Empty && #[trigger] worklist@[i].pos() == #[trigger] step(
                                revealed@[j].coordinates.x as int,
                                revealed@[j].coordinates.y as int,
                                k,
                            ) by {
                        assert(worklist@[i] == w0[i]);
                        let (jj, kk) = choose|jj: int, kk: int|
                            0 <= jj < r0.len() && 0 <= kk < 8 && pre.grid().tile(
                                r0[jj].coordinates.x as int,
                                r0[jj].coordinates.y as int,
                            ) is Empty && #[trigger] w0[i].pos() == #[trigger] step(
                                r0[jj].coordinates.x as int,
                                r0[jj].coordinates.y as int,
                                kk,
                            );
                        assert(revealed@[jj] == r0[jj]);
                    }
                }
                if t.is_empty() {
                    let ghost w1 = worklist@;
                    push_neighbors(board, &mut worklist, c);
                    proof {
                        let last = revealed@.len() - 1;
                        assert(revealed@[last].coordinates == c);
                        assert forall|i: int|
                            0 <= i < worklist@.len() implies exists|j: int, k: int|
                                0 <= j < revealed@.len() && 0 <= k < 8 && pre.grid().tile(
                                    revealed@[j].coordinates.x as int,
                                    revealed@[j].coordinates.y as int,
                                ) is Empty && #[trigger] worklist@[i].pos() == #[trigger] step(
                                    revealed@[j].coordinates.x as int,
                                    revealed@[j].coordinates.y as int,
                                    k,
                                ) by {
                            if i < w1.len() {
                                assert(worklist@[i] == w1[i]);
                            } else {
                                assert(around(worklist@[i].pos(), c));
                                let k = choose|k: int| 0 <= k < 8 && worklist@[i].pos() == #[trigger] step(c.x as int, c.y as int, k);
                                assert(worklist@[i].pos() == step(revealed@[last].coordinates.x as int, revealed@[last].coordinates.y as int, k));
                            }
                        }
                        assert forall|i: int, k: int|
                            0 <= i < revealed@.len() && 0 <= k < 8 && pre.grid().tile(
                                (#[trigger] revealed@[i]).coordinates.x as int,
                                revealed@[i].coordinates.y as int,
                            ) is Empty implies !board.covered(
                                #[trigger] step(revealed@[i].coordinates.x as int, revealed@[i].coordinates.y as int, k).0,
                                step(revealed@[i].coordinates.x as int, revealed@[i].coordinates.y as int, k).1,
                            ) || listed(
                                worklist@,
                                step(revealed@[i].coordinates.x as int, revealed@[i].coordinates.y as int, k),
                            ) by {
                            let p = step(revealed@[i].coordinates.x as int, revealed@[i].coordinates.y as int, k);
                            if i < last && board.covered(p.0, p.1) {
                                let m = choose|m: int| 0 <= m < w1.len() && (#[trigger] w1[m]).pos() == p;
                                assert(worklist@[m] == w1[m]);
                            }
                        }
                    }
                }
            },
        }
    }
    Cascade { revealed, detonated: false }
}

/// Taking the cover off a cell twice: the first take returns the handle
/// exactly when the cell was covered, the second always finds it revealed and
/// changes nothing.
pub proof fn lemma_take_twice(b0: Board, b1: Board, b2: Board, c: Coordinates, r1: Option<u64>, r2: Option<u64>)
    requires
        take_post(b0, b1, c, r1),
        take_post(b1, b2, c, r2),
    ensures
        r1 is Some <==> b0.covered(c.x as int, c.y as int),
        r2 is None,
        b2.covered_set() == b1.covered_set(),
{
    if b1.grid().in_bounds(c.x as int, c.y as int) {
        assert(b1.cover(c.x as int, c.y as int) is None);
    }
    assert(b2.covered_set() =~= b1.covered_set());
}

/// Revealing a cell twice: the second reveal reveals nothing, sets nothing off,
/// and leaves every cover where it was.
pub proof fn lemma_uncover_twice(
    b0: Board,
    b1: Board,
    b2: Board,
    c: Coordinates,
    out1: Seq<RevealedTile>,
    det1: bool,
    out2: Seq<RevealedTile>,
    det2: bool,
)
    requires
        b0.wf(),
        cascade_post(b0, b1, c, out1, det1),
        cascade_post(b1, b2, c, out2, det2),
    ensures
        out1.len() > 0 <==> b0.covered(c.x as int, c.y as int),
        out2.len() == 0,
        !det2,
        forall|a: int, b: int| b2.grid().in_bounds(a, b) ==> #[trigger] b2.cover(a, b) == b1.cover(a, b),
{
    if out1.len() > 0 {
        assert(b1.cover(out1[0].coordinates.x as int, out1[0].coordinates.y as int) is None);
    }
    assert forall|a: int, b: int| b2.grid().in_bounds(a, b) implies #[trigger] b2.cover(a, b) == b1.cover(a, b) by {
        if b2.cover(a, b) != b1.cover(a, b) {
            assert(revealed_in(out2, (a, b)));
        }
    }
}

/// Revealing a covered `Empty` cell sets nothing off and reveals no bomb; every
/// other cell it reveals was reached through a revealed `Empty` neighbour, so
/// the cascade never leaves the region connected through `Empty` cells; and
/// no `Empty` cell it revealed keeps a covered neighbour, so the region and
/// the numbered cells at its edge are all revealed.
pub proof fn lemma_cascade_closure(pre: Board, post: Board, c: Coordinates, out: Seq<RevealedTile>, det: bool)
    requires
        pre.wf(),
        cascade_post(pre, post, c, out, det),
        pre.covered(c.x as int, c.y as int),
        pre.grid().tile(c.x as int, c.y as int) is Empty,
    ensures
        !det,
        out.len() > 0 && out[0].coordinates == c,
        forall|i: int|
            0 <= i < out.len() ==> !pre.grid().bomb_at(
                (#[trigger] out[i]).coordinates.x as int,
                out[i].coordinates.y as int,
            ),
        forall|i: int| 0 < i < out.len() ==> reached(pre, out, i),
        forall|i: int, k: int|
            0 <= i < out.len() && 0 <= k < 8 && pre.grid().tile(
                (#[trigger] out[i]).coordinates.x as int,
                out[i].coordinates.y as int,
            ) is Empty ==> !post.covered(
                #[trigger] step(out[i].coordinates.x as int, out[i].coordinates.y as int, k).0,
                step(out[i].coordinates.x as int, out[i].coordinates.y as int, k).1,
            ),
{
    assert forall|i: int| 0 <= i < out.len() implies !pre.grid().bomb_at(
        (#[trigger] out[i]).coordinates.x as int,
        out[i].coordinates.y as int,
    ) by {
        if i > 0 {
            assert(reached(pre, out, i));
            let (j, k) = choose|j: int, k: int|
                0 <= j < i && 0 <= k < 8 && pre.grid().tile(out[j].coordinates.x as int, out[j].coordinates.y as int)
                    is Empty && #[trigger] out[i].coordinates.pos() == #[trigger] step(
                    out[j].coordinates.x as int,
                    out[j].coordinates.y as int,
                    k,
                );
            assert(pre.covered(out[j].coordinates.x as int, out[j].coordinates.y as int));
            lemma_empty_has_no_bomb_around(pre, out[j].coordinates, k);
        }
    }
}

/// Pushes the neighbours of `c` that lie on the grid onto `worklist`.
fn push_neighbors(board: &Board, worklist: &mut Vec<Coordinates>, c: Coordinates)
    requires
        board.wf(),
    ensures
        final(worklist)@.len() >= old(worklist)@.len(),
        forall|i: int| 0 <= i < old(worklist)@.len() ==> #[trigger] final(worklist)@[i] == old(worklist)@[i],
        forall|i: int|
            old(worklist)@.len() <= i < final(worklist)@.len() ==> around(#[trigger] final(worklist)@[i].pos(), c),
        forall|k: int|
            0 <= k < 8 && board.grid().in_bounds(
                #[trigger] step(c.x as int, c.y as int, k).0,
                step(c.x as int, c.y as int, k).1,
            ) ==> listed(final(worklist)@, step(c.x as int, c.y as int, k)),
{
    let ghost w0 = worklist@;
    let mut k: usize = 0;
    while k < 8
        invariant
            board.wf(),
            k <= 8,
            worklist@.len() >= w0.len(),
            forall|i: int| 0 <= i < w0.len() ==> #[trigger] worklist@[i] == w0[i],
            forall|i: int| w0.len() <= i < worklist@.len() ==> around(#[trigger] worklist@[i].pos(), c),
            forall|kk: int|
                0 <= kk < k && board.grid().in_bounds(
                    #[trigger] step(c.x as int, c.y as int, kk).0,
                    step(c.x as int, c.y as int, kk).1,
                ) ==> listed(worklist@, step(c.x as int, c.y as int, kk)),
        decreases 8 - k,
    {
        let ghost w1 = worklist@;
        match board.tile_map.neighbor(c, k) {
            Some(n) => {
                worklist.push(n);
                proof {
                    assert(worklist@[worklist@.len() - 1].pos() == step(c.x as int, c.y as int, k as int));
                    assert forall|kk: int|
                        0 <= kk <= k && board.grid().in_bounds(
                            #[trigger] step(c.x as int, c.y as int, kk).0,
                            step(c.x as int, c.y as int, kk).1,
                        ) implies listed(worklist@, step(c.x as int, c.y as int, kk)) by {
                        if kk < k {
                            let m = choose|m: int| 0 <= m < w1.len() && (#[trigger] w1[m]).pos() == step(c.x as int, c.y as int, kk);
                            assert(worklist@[m] == w1[m]);
                        }
                    }
                    assert forall|i: int| w0.len() <= i < worklist@.len() implies around(
                        #[trigger] worklist@[i].pos(),
                        c,
                    ) by {
                        if i < w1.len() {
                            assert(worklist@[i] == w1[i]);
                        } else {
                            assert(worklist@[i].pos() == step(c.x as int, c.y as int, k as int));
                        }
                    }
                }
            },
            None => {},
        }
        k = k + 1;
    }
}

/// An `Empty` cell has no bomb among its neighbours.
proof fn lemma_empty_has_no_bomb_around(b: Board, q: Coordinates, k: int)
    requires
        b.wf(),
        b.grid().in_bounds(q.x as int, q.y as int),
        b.grid().tile(q.x as int, q.y as int) is Empty,
        0 <= k < 8,
    ensures
        !b.grid().bomb_at(step(q.x as int, q.y as int, k).0, step(q.x as int, q.y as int, k).1),
{
    lemma_bombs_among(b.grid(), q.x as int, q.y as int, 8);
}

} // verus!
