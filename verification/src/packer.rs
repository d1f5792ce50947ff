//! Bin packing of derived regions into a growing atlas rectangle.
//!
//! Every region is placed, together with its configured padding border, as a
//! box inside one rectangular bin. A packing attempt walks the boxes by
//! decreasing area and puts each at the anchor position - the origin, or a
//! corner of an already placed box - that keeps the bounding box of all
//! placements smallest. When an attempt fails, the bin is doubled per axis,
//! clamped to the configured maximum, and packing restarts from scratch;
//! when even the maximum bin fails, packing is exhausted.
//!
//! The heuristic is deterministic, so the whole attempt is also stated as a
//! spec-level function, [`try_pack_spec`]: the executable packer returns
//! exactly what it says, an attempt fails only when the stated attempt
//! fails, and packing is exhausted only when the stated attempt at the
//! maximum size fails.

use vstd::prelude::*;

use crate::error::SpriteSheetLoaderError;
use crate::math::UVec2;

verus! {

/// Area of a box, in square pixels.
pub open spec fn spec_area(b: UVec2) -> int {
    b.x * b.y
}

/// Two boxes, each given by its top-left corner and size, do not share any
/// pixel: one ends at or before the other begins on some axis.
pub open spec fn rects_disjoint(p1: UVec2, s1: UVec2, p2: UVec2, s2: UVec2) -> bool {
    ||| p1.x + s1.x <= p2.x
    ||| p2.x + s2.x <= p1.x
    ||| p1.y + s1.y <= p2.y
    ||| p2.y + s2.y <= p1.y
}

/// Every box, placed at its position, lies within the `bin` rectangle.
pub open spec fn boxes_fit(pos: Seq<UVec2>, boxes: Seq<UVec2>, bin: UVec2) -> bool {
    &&& pos.len() == boxes.len()
    &&& forall|i: int|
        0 <= i < pos.len() ==> (#[trigger] pos[i]).x + boxes[i].x <= bin.x && pos[i].y
            + boxes[i].y <= bin.y
}

/// No two placed boxes overlap.
pub open spec fn placements_disjoint(pos: Seq<UVec2>, boxes: Seq<UVec2>) -> bool {
    forall|i: int, j: int|
        0 <= i < j < pos.len() && pos.len() == boxes.len() ==> rects_disjoint(
            #[trigger] pos[i],
            boxes[i],
            #[trigger] pos[j],
            boxes[j],
        )
}

/// Partial placement state while packing: every placed box fits the bin and
/// no two placed boxes overlap.
pub open spec fn partial_ok(pos: Seq<Option<UVec2>>, boxes: Seq<UVec2>, bin: UVec2) -> bool {
    &&& pos.len() == boxes.len()
    &&& forall|i: int|
        0 <= i < pos.len() ==> match #[trigger] pos[i] {
            Some(p) => p.x + boxes[i].x <= bin.x && p.y + boxes[i].y <= bin.y,
            None => true,
        }
    &&& forall|i: int, j: int|
        0 <= i < pos.len() && 0 <= j < pos.len() && i != j ==> match (
            #[trigger] pos[i],
            #[trigger] pos[j],
        ) {
            (Some(p), Some(q)) => rects_disjoint(p, boxes[i], q, boxes[j]),
            _ => true,
        }
}

/// The candidate position keeps the box inside the bin.
pub open spec fn cand_fits(cand: UVec2, b: UVec2, bin: UVec2) -> bool {
    cand.x + b.x <= bin.x && cand.y + b.y <= bin.y
}

/// The candidate position overlaps no placed box.
pub open spec fn cand_clear(
    pos: Seq<Option<UVec2>>,
    boxes: Seq<UVec2>,
    cand: UVec2,
    b: UVec2,
) -> bool {
    forall|i: int|
        0 <= i < pos.len() ==> match #[trigger] pos[i] {
            Some(p) => rects_disjoint(cand, b, p, boxes[i]),
            None => true,
        }
}

/// The box indices before any sorting: `0, 1, ..., n-1`.
pub open spec fn identity_order(n: nat) -> Seq<usize> {
    Seq::new(n, |i: int| i as usize)
}

/// No box placed yet.
pub open spec fn empty_placements(n: nat) -> Seq<Option<UVec2>> {
    Seq::new(n, |i: int| Option::<UVec2>::None)
}

/// Index of the largest-area box among the order slots `[q, n)`, measured
/// against the current pick `m`; on ties the earliest maximum wins.
pub open spec fn scan_max_from(
    boxes: Seq<UVec2>,
    order: Seq<usize>,
    m: int,
    q: int,
    n: int,
) -> int
    decreases n - q,
{
    if q >= n {
        m
    } else {
        let m2 = if spec_area(boxes[order[q] as int]) > spec_area(boxes[order[m] as int]) {
            q
        } else {
            m
        };
        scan_max_from(boxes, order, m2, q + 1, n)
    }
}

/// Selection sort of the index list by decreasing box area, from slot `s`.
pub open spec fn sort_from(boxes: Seq<UVec2>, order: Seq<usize>, s: int, n: int) -> Seq<usize>
    decreases n - s,
{
    if s >= n {
        order
    } else {
        let m = scan_max_from(boxes, order, s, s + 1, n);
        let swapped = order.update(m, order[s]).update(s, order[m]);
        sort_from(boxes, swapped, s + 1, n)
    }
}

/// The box indices in the order the packer walks them: by decreasing area,
/// earliest maximum first.
pub open spec fn sorted_order(boxes: Seq<UVec2>) -> Seq<usize> {
    sort_from(boxes, identity_order(boxes.len()), 0, boxes.len() as int)
}

/// Candidate anchors drawn from the first `i` placement slots: the origin
/// and, for every placed box, the corner right of it and the corner below
/// it, each kept only when it lies in the bin.
pub open spec fn anchors_upto(
    pos: Seq<Option<UVec2>>,
    boxes: Seq<UVec2>,
    bin: UVec2,
    i: int,
) -> Seq<UVec2>
    decreases i,
{
    if i <= 0 {
        seq![UVec2 { x: 0u32, y: 0u32 }]
    } else {
        let prev = anchors_upto(pos, boxes, bin, i - 1);
        match pos[i - 1] {
            Some(p) => {
                let withr = if p.x + boxes[i - 1].x <= bin.x {
                    prev.push(UVec2 { x: (p.x + boxes[i - 1].x) as u32, y: p.y })
                } else {
                    prev
                };
                if p.y + boxes[i - 1].y <= bin.y {
                    withr.push(UVec2 { x: p.x, y: (p.y + boxes[i - 1].y) as u32 })
                } else {
                    withr
                }
            },
            None => prev,
        }
    }
}

/// All candidate anchors for the current placements.
pub open spec fn anchors(pos: Seq<Option<UVec2>>, boxes: Seq<UVec2>, bin: UVec2) -> Seq<UVec2> {
    anchors_upto(pos, boxes, bin, pos.len() as int)
}

/// Area of the bounding box of all placements after putting box `b` at
/// `cand`, given the current bounding corner `(maxx, maxy)`.
pub open spec fn bb_metric(cand: UVec2, b: UVec2, maxx: int, maxy: int) -> int {
    (if cand.x + b.x > maxx {
        cand.x + b.x
    } else {
        maxx
    }) * (if cand.y + b.y > maxy {
        cand.y + b.y
    } else {
        maxy
    })
}

/// The best valid candidate among the first `ci` scanned: smallest
/// bounding-box metric, earliest found on a tie, with its metric.
pub open spec fn best_upto(
    cands: Seq<UVec2>,
    pos: Seq<Option<UVec2>>,
    boxes: Seq<UVec2>,
    bin: UVec2,
    b: UVec2,
    maxx: int,
    maxy: int,
    ci: int,
) -> Option<(UVec2, int)>
    decreases ci,
{
    if ci <= 0 {
        Option::<(UVec2, int)>::None
    } else {
        let prev = best_upto(cands, pos, boxes, bin, b, maxx, maxy, ci - 1);
        let cand = cands[ci - 1];
        if cand_fits(cand, b, bin) && cand_clear(pos, boxes, cand, b) {
            let metric = bb_metric(cand, b, maxx, maxy);
            match prev {
                Some(pm) => if metric < pm.1 {
                    Some((cand, metric))
                } else {
                    Some(pm)
                },
                None => Some((cand, metric)),
            }
        } else {
            prev
        }
    }
}

/// One placement step: box `idx` goes to the best valid anchor; the
/// placements and the bounding corner advance, or the step fails.
pub open spec fn place_box(
    boxes: Seq<UVec2>,
    bin: UVec2,
    pos: Seq<Option<UVec2>>,
    maxx: int,
    maxy: int,
    idx: int,
) -> Option<(Seq<Option<UVec2>>, int, int)> {
    let b = boxes[idx];
    let cands = anchors(pos, boxes, bin);
    match best_upto(cands, pos, boxes, bin, b, maxx, maxy, cands.len() as int) {
        Some(pm) => Some(
            (
                pos.update(idx, Some(pm.0)),
                if pm.0.x + b.x > maxx {
                    pm.0.x + b.x
                } else {
                    maxx
                },
                if pm.0.y + b.y > maxy {
                    pm.0.y + b.y
                } else {
                    maxy
                },
            ),
        ),
        None => Option::<(Seq<Option<UVec2>>, int, int)>::None,
    }
}

/// Places the boxes named by `order[s..]` in turn.
pub open spec fn pack_from(
    boxes: Seq<UVec2>,
    bin: UVec2,
    order: Seq<usize>,
    pos: Seq<Option<UVec2>>,
    maxx: int,
    maxy: int,
    s: int,
) -> Option<Seq<Option<UVec2>>>
    decreases order.len() - s,
{
    if s < 0 || s >= order.len() {
        Some(pos)
    } else {
        match place_box(boxes, bin, pos, maxx, maxy, order[s] as int) {
            Some(st) => pack_from(boxes, bin, order, st.0, st.1, st.2, s + 1),
            None => Option::<Seq<Option<UVec2>>>::None,
        }
    }
}

/// The placement state one whole packing attempt ends in.
pub open spec fn pack_result(boxes: Seq<UVec2>, bin: UVec2) -> Option<Seq<Option<UVec2>>> {
    pack_from(boxes, bin, sorted_order(boxes), empty_placements(boxes.len()), 0, 0, 0)
}

/// Every box has a position.
pub open spec fn all_placed(pos: Seq<Option<UVec2>>) -> bool {
    forall|i: int| 0 <= i < pos.len() ==> (#[trigger] pos[i]) is Some
}

/// The positions read off a complete placement state.
pub open spec fn positions_of(pos: Seq<Option<UVec2>>) -> Seq<UVec2> {
    Seq::new(pos.len(), |i: int| pos[i]->0)
}

/// What one packing attempt returns: the boxes walked by decreasing area,
/// each placed at the valid anchor that keeps the bounding box smallest,
/// ties to the first anchor found - or nothing, when some box has no valid
/// anchor.
pub open spec fn try_pack_spec(boxes: Seq<UVec2>, bin: UVec2) -> Option<Seq<UVec2>> {
    match pack_result(boxes, bin) {
        Some(pos) => if all_placed(pos) {
            Some(positions_of(pos))
        } else {
            Option::<Seq<UVec2>>::None
        },
        None => Option::<Seq<UVec2>>::None,
    }
}

/// An attempt with no boxes succeeds: there is nothing to place.
pub proof fn lemma_try_pack_spec_empty(boxes: Seq<UVec2>, bin: UVec2)
    requires
        boxes.len() == 0,
    ensures
        try_pack_spec(boxes, bin) is Some,
{
    assert(identity_order(boxes.len()).len() == 0);
    assert(sorted_order(boxes) == identity_order(boxes.len()));
    assert(pack_result(boxes, bin) == Some(empty_placements(boxes.len())));
    assert(all_placed(empty_placements(boxes.len())));
}

/// A bin that holds the single box suffices: it goes to the origin.
pub proof fn lemma_try_pack_spec_single(boxes: Seq<UVec2>, bin: UVec2)
    requires
        boxes.len() == 1,
        boxes[0].x <= bin.x,
        boxes[0].y <= bin.y,
    ensures
        try_pack_spec(boxes, bin) is Some,
{
    let id = identity_order(boxes.len());
    assert(id.len() == 1 && id[0] == 0usize);
    assert(scan_max_from(boxes, id, 0, 1, 1) == 0);
    let swapped = id.update(0, id[0]).update(0, id[0]);
    assert(sort_from(boxes, swapped, 1, 1) == swapped);
    assert(sorted_order(boxes) == swapped);
    assert(swapped.len() == 1 && swapped[0] == 0usize);
    let ep = empty_placements(boxes.len());
    assert(ep.len() == 1 && ep[0] is None);
    let origin = UVec2 { x: 0u32, y: 0u32 };
    let cands = anchors(ep, boxes, bin);
    assert(anchors_upto(ep, boxes, bin, 0).len() == 1 && anchors_upto(ep, boxes, bin, 0)[0]
        == origin);
    assert(cands == anchors_upto(ep, boxes, bin, 1));
    assert(cands.len() == 1 && cands[0] == origin);
    assert(cand_fits(origin, boxes[0], bin));
    assert forall|i: int|
        0 <= i < ep.len() implies match #[trigger] ep[i] {
        Some(p) => rects_disjoint(origin, boxes[0], p, boxes[i]),
        None => true,
    } by {
        assert(ep[i] is None);
    }
    assert(cand_clear(ep, boxes, origin, boxes[0]));
    assert(best_upto(cands, ep, boxes, bin, boxes[0], 0, 0, 0) is None);
    assert(best_upto(cands, ep, boxes, bin, boxes[0], 0, 0, 1) == Some(
        (origin, bb_metric(origin, boxes[0], 0, 0)),
    ));
    assert(place_box(boxes, bin, ep, 0, 0, 0) is Some);
    let st = place_box(boxes, bin, ep, 0, 0, 0)->0;
    assert(st.0 == ep.update(0, Some(origin)));
    assert(st.0.len() == 1 && st.0[0] is Some);
    assert(pack_from(boxes, bin, swapped, st.0, st.1, st.2, 1) == Some(st.0));
    assert(pack_from(boxes, bin, swapped, ep, 0, 0, 0) == Some(st.0));
    assert(pack_result(boxes, bin) == Some(st.0));
    assert(all_placed(st.0));
}

/// Area of the box at `idx`, as a machine value.
fn area_key(boxes: &Vec<UVec2>, idx: usize) -> (r: u64)
    requires
        idx < boxes@.len(),
    ensures
        r == spec_area(boxes@[idx as int]),
{
    let bx = boxes[idx].x;
    let by = boxes[idx].y;
    proof {
        vstd::arithmetic::mul::lemma_mul_upper_bound(
            bx as int,
            u32::MAX as int,
            by as int,
            u32::MAX as int,
        );
    }
    (bx as u64) * (by as u64)
}

/// Indices of all boxes, ordered by decreasing box area.
#[verifier::loop_isolation(false)]
fn sort_indices_by_area_desc(boxes: &Vec<UVec2>) -> (order: Vec<usize>)
    ensures
        order@ == sorted_order(boxes@),
        order@.len() == boxes@.len(),
        forall|t: int| 0 <= t < order@.len() ==> (#[trigger] order@[t]) < boxes@.len(),
        forall|a: int, b: int|
            0 <= a < b < order@.len() ==> spec_area(boxes@[order@[a] as int]) >= spec_area(
                boxes@[order@[b] as int],
            ),
{
    let n = boxes.len();
    let mut order: Vec<usize> = Vec::new();
    let mut t: usize = 0;
    while t < n
        invariant
            t <= n,
            order@.len() == t,
            order@ == identity_order(t as nat),
            forall|q: int| 0 <= q < t ==> (#[trigger] order@[q]) < n,
        decreases n - t,
    {
        order.push(t);
        t = t + 1;
        proof {
            assert(order@ =~= identity_order(t as nat));
        }
    }
    proof {
        assert(sort_from(boxes@, order@, 0, n as int) == sorted_order(boxes@));
    }
    let mut s: usize = 0;
    while s < n
        invariant
            s <= n,
            n == boxes@.len(),
            order@.len() == n,
            sort_from(boxes@, order@, s as int, n as int) == sorted_order(boxes@),
            forall|q: int| 0 <= q < n ==> (#[trigger] order@[q]) < n,
            forall|a: int, b: int|
                0 <= a < b < s ==> spec_area(boxes@[order@[a] as int]) >= spec_area(
                    boxes@[order@[b] as int],
                ),
            forall|a: int, b: int|
                0 <= a < s && s <= b < n ==> spec_area(boxes@[order@[a] as int]) >= spec_area(
                    boxes@[order@[b] as int],
                ),
        decreases n - s,
    {
        let ghost order0 = order@;
        let mut m: usize = s;
        let mut q: usize = s + 1;
        while q < n
            invariant
                s <= m < q <= n,
                order@ == order0,
                scan_max_from(boxes@, order@, m as int, q as int, n as int) == scan_max_from(
                    boxes@,
                    order@,
                    s as int,
                    s as int + 1,
                    n as int,
                ),
                forall|b: int|
                    s <= b < q ==> spec_area(boxes@[order@[m as int] as int]) >= spec_area(
                        boxes@[#[trigger] order@[b] as int],
                    ),
            decreases n - q,
        {
            let ghost m0 = m as int;
            let ghost q0 = q as int;
            if area_key(boxes, order[q]) > area_key(boxes, order[m]) {
                m = q;
            }
            q = q + 1;
            proof {
                assert(scan_max_from(boxes@, order@, m0, q0, n as int) == scan_max_from(
                    boxes@,
                    order@,
                    m as int,
                    q as int,
                    n as int,
                ));
            }
        }
        proof {
            assert(scan_max_from(boxes@, order@, m as int, n as int, n as int) == m as int);
            assert(m as int == scan_max_from(boxes@, order@, s as int, s as int + 1, n as int));
        }
        let om = order[m];
        let os = order[s];
        order.set(m, os);
        order.set(s, om);
        proof {
            assert(order@ == order0.update(m as int, order0[s as int]).update(
                s as int,
                order0[m as int],
            ));
            assert(sort_from(boxes@, order0, s as int, n as int) == sort_from(
                boxes@,
                order@,
                s as int + 1,
                n as int,
            ));
        }
        s = s + 1;
    }
    order
}

/// The candidate position can hold box `b` inside the bin without
/// overlapping any placed box.
fn candidate_valid(
    pos: &Vec<Option<UVec2>>,
    boxes: &Vec<UVec2>,
    bin: UVec2,
    cand: UVec2,
    b: UVec2,
) -> (ok: bool)
    requires
        pos@.len() == boxes@.len(),
    ensures
        ok == (cand_fits(cand, b, bin) && cand_clear(pos@, boxes@, cand, b)),
{
    if !((cand.x as u64 + b.x as u64 <= bin.x as u64) && (cand.y as u64 + b.y as u64
        <= bin.y as u64)) {
        return false;
    }
    let n = pos.len();
    let mut i: usize = 0;
    while i < n
        invariant
            i <= n,
            n == pos@.len(),
            pos@.len() == boxes@.len(),
            forall|t: int|
                0 <= t < i ==> match #[trigger] pos@[t] {
                    Some(p) => rects_disjoint(cand, b, p, boxes@[t]),
                    None => true,
                },
        decreases n - i,
    {
        match pos[i] {
            Some(p) => {
                let q = boxes[i];
                let disjoint = (cand.x as u64 + b.x as u64 <= p.x as u64) || (p.x as u64
                    + q.x as u64 <= cand.x as u64) || (cand.y as u64 + b.y as u64 <= p.y as u64)
                    || (p.y as u64 + q.y as u64 <= cand.y as u64);
                if !disjoint {
                    return false;
                }
            },
            _ => {},
        }
        i = i + 1;
    }
    true
}

/// One packing attempt into a fixed bin: exactly the walk that
/// [`try_pack_spec`] states, boxes by decreasing area, each at the valid
/// anchor that keeps the bounding box smallest. On success every box has a
/// position, all boxes lie within the bin and no two overlap. A bin that
/// holds a single box always suffices for a single region, and an attempt
/// without boxes always succeeds.
#[verifier::loop_isolation(false)]
#[verifier::rlimit(100)]
pub fn try_pack(boxes: &Vec<UVec2>, bin: UVec2) -> (r: Option<Vec<UVec2>>)
    ensures
        (match r {
            Some(pos) => try_pack_spec(boxes@, bin) == Some(pos@) && boxes_fit(pos@, boxes@, bin)
                && placements_disjoint(pos@, boxes@),
            None => try_pack_spec(boxes@, bin) is None,
        }),
        boxes@.len() == 1 && boxes@[0].x <= bin.x && boxes@[0].y <= bin.y ==> r is Some,
        boxes@.len() == 0 ==> r is Some,
{
    proof {
        if boxes@.len() == 1 && boxes@[0].x <= bin.x && boxes@[0].y <= bin.y {
            lemma_try_pack_spec_single(boxes@, bin);
        }
        if boxes@.len() == 0 {
            lemma_try_pack_spec_empty(boxes@, bin);
        }
    }
    let n = boxes.len();
    let order = sort_indices_by_area_desc(boxes);
    let mut pos: Vec<Option<UVec2>> = Vec::new();
    let mut t: usize = 0;
    while t < n
        invariant
            t <= n,
            pos@.len() == t,
            forall|q: int| 0 <= q < t ==> (#[trigger] pos@[q]) is None,
        decreases n - t,
    {
        pos.push(None);
        t = t + 1;
    }
    proof {
        assert(pos@ =~= empty_placements(boxes@.len()));
        assert(pack_from(boxes@, bin, order@, pos@, 0, 0, 0) == pack_result(boxes@, bin));
    }
    // Bounding box of the placements so far.
    let mut max_x: u32 = 0;
    let mut max_y: u32 = 0;
    let mut s: usize = 0;
    while s < n
        invariant
            s <= n,
            pos@.len() == n,
            partial_ok(pos@, boxes@, bin),
            pack_from(boxes@, bin, order@, pos@, max_x as int, max_y as int, s as int)
                == pack_result(boxes@, bin),
        decreases n - s,
    {
        let ghost prev_pos = pos@;
        let ghost prev_mx = max_x as int;
        let ghost prev_my = max_y as int;
        let idx = order[s];
        let b = boxes[idx];
        // Gather candidate anchors: the origin and, for every placed box,
        // the corner right of it and the corner below it.
        let mut candidates: Vec<UVec2> = Vec::new();
        candidates.push(UVec2 { x: 0, y: 0 });
        proof {
            assert(candidates@ =~= anchors_upto(pos@, boxes@, bin, 0));
        }
        let mut i: usize = 0;
        while i < n
            invariant
                i <= n,
                pos@ == prev_pos,
                candidates@ == anchors_upto(pos@, boxes@, bin, i as int),
            decreases n - i,
        {
            match pos[i] {
                Some(p) => {
                    let q = boxes[i];
                    let right = p.x as u64 + q.x as u64;
                    let below = p.y as u64 + q.y as u64;
                    if right <= bin.x as u64 {
                        candidates.push(UVec2 { x: right as u32, y: p.y });
                    }
                    if below <= bin.y as u64 {
                        candidates.push(UVec2 { x: p.x, y: below as u32 });
                    }
                },
                _ => {},
            }
            i = i + 1;
            proof {
                assert(candidates@ == anchors_upto(pos@, boxes@, bin, i as int));
            }
        }
        proof {
            assert(candidates@ == anchors(pos@, boxes@, bin));
        }
        // Pick the valid candidate that keeps the bounding box smallest;
        // ties fall to the first one found.
        let mut best: Option<UVec2> = None;
        let mut best_metric: u64 = 0;
        let mut ci: usize = 0;
        let ncand = candidates.len();
        while ci < ncand
            invariant
                ci <= ncand,
                pos@ == prev_pos,
                max_x as int == prev_mx,
                max_y as int == prev_my,
                (match best {
                    Some(bc) => best_upto(
                        candidates@,
                        pos@,
                        boxes@,
                        bin,
                        b,
                        prev_mx,
                        prev_my,
                        ci as int,
                    ) == Some((bc, best_metric as int)) && cand_fits(bc, b, bin) && cand_clear(
                        pos@,
                        boxes@,
                        bc,
                        b,
                    ),
                    None => best_upto(
                        candidates@,
                        pos@,
                        boxes@,
                        bin,
                        b,
                        prev_mx,
                        prev_my,
                        ci as int,
                    ) is None,
                }),
            decreases ncand - ci,
        {
            let ghost ci0 = ci as int;
            let cand = candidates[ci];
            if candidate_valid(&pos, boxes, bin, cand, b) {
                let nbx = if cand.x as u64 + b.x as u64 > max_x as u64 {
                    cand.x as u64 + b.x as u64
                } else {
                    max_x as u64
                };
                let nby = if cand.y as u64 + b.y as u64 > max_y as u64 {
                    cand.y as u64 + b.y as u64
                } else {
                    max_y as u64
                };
                proof {
                    vstd::arithmetic::mul::lemma_mul_upper_bound(
                        nbx as int,
                        u32::MAX as int,
                        nby as int,
                        u32::MAX as int,
                    );
                }
                let metric = nbx * nby;
                proof {
                    assert(metric as int == bb_metric(cand, b, prev_mx, prev_my));
                }
                let take = match best {
                    Some(_) => metric < best_metric,
                    _ => true,
                };
                if take {
                    best = Some(cand);
                    best_metric = metric;
                }
            }
            ci = ci + 1;
            proof {
                assert(best_upto(candidates@, pos@, boxes@, bin, b, prev_mx, prev_my, ci as int)
                    == (match best {
                    Some(bc) => Some((bc, best_metric as int)),
                    None => Option::<(UVec2, int)>::None,
                }));
            }
        }
        match best {
            Some(p) => {
                proof {
                    assert(best_upto(
                        candidates@,
                        pos@,
                        boxes@,
                        bin,
                        b,
                        prev_mx,
                        prev_my,
                        candidates@.len() as int,
                    ) == Some((p, best_metric as int)));
                }
                pos.set(idx, Some(p));
                let px = p.x as u64 + b.x as u64;
                let py = p.y as u64 + b.y as u64;
                if px > max_x as u64 {
                    max_x = px as u32;
                }
                if py > max_y as u64 {
                    max_y = py as u32;
                }
                proof {
                    assert(pos@ == prev_pos.update(idx as int, Some(p)));
                    assert(max_x as int == (if p.x + b.x > prev_mx {
                        p.x as int + b.x as int
                    } else {
                        prev_mx
                    }));
                    assert(max_y as int == (if p.y + b.y > prev_my {
                        p.y as int + b.y as int
                    } else {
                        prev_my
                    }));
                    assert(place_box(boxes@, bin, prev_pos, prev_mx, prev_my, idx as int)
                        == Some((pos@, max_x as int, max_y as int)));
                    assert(pack_from(
                        boxes@,
                        bin,
                        order@,
                        pos@,
                        max_x as int,
                        max_y as int,
                        s as int + 1,
                    ) == pack_result(boxes@, bin));
                }
            },
            _ => {
                proof {
                    assert(best_upto(
                        candidates@,
                        pos@,
                        boxes@,
                        bin,
                        b,
                        prev_mx,
                        prev_my,
                        candidates@.len() as int,
                    ) is None);
                    assert(place_box(boxes@, bin, pos@, prev_mx, prev_my, idx as int) is None);
                    assert(pack_result(boxes@, bin) is None);
                    assert(try_pack_spec(boxes@, bin) is None);
                }
                return None;
            },
        }
        s = s + 1;
    }
    proof {
        assert(pack_from(boxes@, bin, order@, pos@, max_x as int, max_y as int, n as int)
            == Some(pos@));
        assert(pack_result(boxes@, bin) == Some(pos@));
    }
    // Every index must have been placed; collect the positions.
    let mut out: Vec<UVec2> = Vec::new();
    let mut i: usize = 0;
    while i < n
        invariant
            i <= n,
            pos@.len() == n,
            out@.len() == i,
            partial_ok(pos@, boxes@, bin),
            pack_result(boxes@, bin) == Some(pos@),
            forall|t: int| 0 <= t < i ==> pos@[t] == Some(#[trigger] out@[t]),
        decreases n - i,
    {
        match pos[i] {
            Some(p) => {
                out.push(p);
            },
            _ => {
                proof {
                    assert(!all_placed(pos@));
                    assert(try_pack_spec(boxes@, bin) is None);
                }
                return None;
            },
        }
        i = i + 1;
    }
    proof {
        assert forall|q: int| 0 <= q < pos@.len() implies (#[trigger] pos@[q]) is Some by {
            assert(pos@[q] == Some(out@[q]));
        }
        assert(all_placed(pos@));
        assert(out@ =~= positions_of(pos@));
        assert(try_pack_spec(boxes@, bin) == Some(out@));
    }
    Some(out)
}

/// The next bin size after `cur`: each axis doubles, clamped to `max`; an
/// axis of zero grows to one so that growth always makes progress.
pub open spec fn grown_axis(cur: int, max: int) -> int {
    if cur == 0 {
        if max < 1 {
            max
        } else {
            1
        }
    } else if 2 * cur <= max {
        2 * cur
    } else {
        max
    }
}

/// Doubles a bin size per axis, clamped to `max`.
pub fn grow_size(cur: UVec2, max: UVec2) -> (r: UVec2)
    requires
        cur.x <= max.x,
        cur.y <= max.y,
    ensures
        r.x == grown_axis(cur.x as int, max.x as int),
        r.y == grown_axis(cur.y as int, max.y as int),
        cur.x <= r.x <= max.x,
        cur.y <= r.y <= max.y,
        cur.x < max.x ==> r.x > cur.x,
        cur.y < max.y ==> r.y > cur.y,
{
    let x = if cur.x == 0 {
        if max.x < 1 {
            max.x
        } else {
            1
        }
    } else if cur.x as u64 * 2 <= max.x as u64 {
        cur.x * 2
    } else {
        max.x
    };
    let y = if cur.y == 0 {
        if max.y < 1 {
            max.y
        } else {
            1
        }
    } else if cur.y as u64 * 2 <= max.y as u64 {
        cur.y * 2
    } else {
        max.y
    };
    UVec2 { x, y }
}

/// Bin size of the `k`-th packing attempt: the initial size, grown `k`
/// times toward the maximum.
pub open spec fn attempt_size(initial: UVec2, max: UVec2, k: int) -> (int, int)
    decreases k,
{
    if k <= 0 {
        (initial.x as int, initial.y as int)
    } else {
        let prev = attempt_size(initial, max, k - 1);
        (grown_axis(prev.0, max.x as int), grown_axis(prev.1, max.y as int))
    }
}

/// Bin growth is monotonic and bounded: every attempt size lies between the
/// initial and the maximum size, each attempt dominates the one before it,
/// and each attempt is exactly the previous attempt doubled per axis and
/// clamped to the maximum.
pub proof fn lemma_attempt_size_monotonic_bounded(initial: UVec2, max: UVec2, k: int)
    requires
        initial.x <= max.x,
        initial.y <= max.y,
        k >= 0,
    ensures
        initial.x <= attempt_size(initial, max, k).0 <= max.x,
        initial.y <= attempt_size(initial, max, k).1 <= max.y,
        attempt_size(initial, max, k).0 <= attempt_size(initial, max, k + 1).0,
        attempt_size(initial, max, k).1 <= attempt_size(initial, max, k + 1).1,
        attempt_size(initial, max, k + 1).0 == grown_axis(
            attempt_size(initial, max, k).0,
            max.x as int,
        ),
        attempt_size(initial, max, k + 1).1 == grown_axis(
            attempt_size(initial, max, k).1,
            max.y as int,
        ),
    decreases k,
{
    if k > 0 {
        lemma_attempt_size_monotonic_bounded(initial, max, k - 1);
    }
}

/// Bin of the `k`-th packing attempt, as a size vector.
pub open spec fn attempt_bin(initial: UVec2, max: UVec2, k: int) -> UVec2 {
    UVec2 {
        x: attempt_size(initial, max, k).0 as u32,
        y: attempt_size(initial, max, k).1 as u32,
    }
}

/// Packs every box into one bin, growing it from `initial` toward `max`
/// until an attempt succeeds. On success the chosen bin is the first
/// attempt size at which the attempt of [`try_pack_spec`] goes through,
/// the positions are exactly that attempt's, and they place all boxes
/// inside the bin without overlap. Packing is exhausted only when even the
/// attempt at the maximum size fails. A single box that fits the maximum
/// size is always packed.
#[verifier::loop_isolation(false)]
pub fn pack_all(boxes: &Vec<UVec2>, initial: UVec2, max: UVec2) -> (r: Result<
    (Vec<UVec2>, UVec2),
    SpriteSheetLoaderError,
>)
    requires
        initial.x <= max.x,
        initial.y <= max.y,
    ensures
        (match r {
            Ok((pos, size)) => {
                &&& try_pack_spec(boxes@, size) == Some(pos@)
                &&& exists|k: int|
                    #![trigger attempt_bin(initial, max, k)]
                    0 <= k && size == attempt_bin(initial, max, k) && (forall|j: int|
                        0 <= j < k ==> try_pack_spec(
                            boxes@,
                            #[trigger] attempt_bin(initial, max, j),
                        ) is None)
                &&& exists|k: int|
                    0 <= k && (#[trigger] attempt_size(initial, max, k)).0 == size.x
                        && attempt_size(initial, max, k).1 == size.y
                &&& initial.x <= size.x <= max.x
                &&& initial.y <= size.y <= max.y
                &&& boxes_fit(pos@, boxes@, size)
                &&& placements_disjoint(pos@, boxes@)
            },
            Err(e) => e is PackingExhaustedError && try_pack_spec(boxes@, max) is None,
        }),
        boxes@.len() == 1 && boxes@[0].x <= max.x && boxes@[0].y <= max.y ==> r is Ok,
        boxes@.len() == 0 ==> r is Ok,
{
    let mut cur = initial;
    let ghost mut attempts: int = 0;
    loop
        invariant
            initial.x <= cur.x <= max.x,
            initial.y <= cur.y <= max.y,
            attempts >= 0,
            attempt_size(initial, max, attempts).0 == cur.x,
            attempt_size(initial, max, attempts).1 == cur.y,
            cur == attempt_bin(initial, max, attempts),
            forall|j: int|
                0 <= j < attempts ==> try_pack_spec(
                    boxes@,
                    #[trigger] attempt_bin(initial, max, j),
                ) is None,
        decreases (max.x - cur.x) + (max.y - cur.y),
    {
        match try_pack(boxes, cur) {
            Some(pos) => {
                proof {
                    assert(try_pack_spec(boxes@, cur) == Some(pos@));
                    assert(cur == attempt_bin(initial, max, attempts));
                }
                return Ok((pos, cur));
            },
            _ => {
                proof {
                    assert(try_pack_spec(boxes@, attempt_bin(initial, max, attempts)) is None);
                }
                if cur.x == max.x && cur.y == max.y {
                    proof {
                        assert(cur == max);
                    }
                    return Err(SpriteSheetLoaderError::PackingExhaustedError);
                }
                let next = grow_size(cur, max);
                proof {
                    attempts = attempts + 1;
                    lemma_attempt_size_monotonic_bounded(initial, max, attempts);
                }
                cur = next;
            },
        }
    }
}

} // verus!
