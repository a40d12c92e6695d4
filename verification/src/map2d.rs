//! Two dimensional maps of values, stored row by row.

use vstd::prelude::*;

verus! {

/// a map of `h` rows of `w` values, row by row in `arr`
#[derive(Debug, Clone)]
pub struct Map2d<T> {
    pub arr: Vec<T>,
    /// width
    pub w: i32,
    /// height
    pub h: i32,
}

/// the position lies on the map
pub open spec fn in_bounds<T>(m: &Map2d<T>, y: int, x: int) -> bool {
    0 <= y < m.h && 0 <= x < m.w
}

/// index of a position in the row by row storage
pub open spec fn idx_of<T>(m: &Map2d<T>, y: int, x: int) -> int {
    y * m.w + x
}

/// a position on the map has a stored value, and its index is an `i32`
pub open spec fn cell_ok<T>(m: &Map2d<T>, y: int, x: int) -> bool {
    in_bounds(m, y, x) ==> (idx_of(m, y, x) < m.arr.len() && idx_of(m, y, x) <= i32::MAX)
}

/// the index of a position in a row by row storage of rows of `w` values
pub open spec fn row_index(w: int, y: int, x: int) -> int {
    y * w + x
}

/// positions in `h` rows of `w` values have distinct indices below `w * h`
proof fn lemma_row_index(w: int, h: int, y1: int, x1: int, y2: int, x2: int)
    requires
        0 <= y1 < h,
        0 <= x1 < w,
        0 <= y2 < h,
        0 <= x2 < w,
    ensures
        0 <= row_index(w, y1, x1) < w * h,
        (y1 != y2 || x1 != x2) ==> row_index(w, y1, x1) != row_index(w, y2, x2),
{
    assert(0 <= y1 * w + x1 < w * h) by (nonlinear_arith)
        requires
            0 <= y1 < h,
            0 <= x1 < w;
    if y1 < y2 {
        assert(y1 * w + x1 < y2 * w + x2) by (nonlinear_arith)
            requires
                y1 < y2,
                0 <= x1 < w,
                0 <= x2;
    } else if y2 < y1 {
        assert(y2 * w + x2 < y1 * w + x1) by (nonlinear_arith)
            requires
                y2 < y1,
                0 <= x2 < w,
                0 <= x1;
    }
}

/// the cell of the crop at (iy, ix) holds the value of the map at (y + iy, x + ix)
pub open spec fn crop_cell<T: Default>(m: &Map2d<T>, x: int, y: int, iy: int, ix: int, v: T) -> bool {
    if in_bounds(m, y + iy, x + ix) {
        v == m.arr@[idx_of(m, y + iy, x + ix)]
    } else {
        call_ensures(T::default, (), v)
    }
}

/// the values of the map after writing `v` at a position: that position
/// has `v` where it lies on the map; nothing else changes
pub open spec fn written<T>(m: &Map2d<T>, y: int, x: int, v: T) -> Seq<T> {
    if in_bounds(m, y, x) {
        m.arr@.update(idx_of(m, y, x), v)
    } else {
        m.arr@
    }
}

/// the map stores its `h` rows of `w` values, no more and no fewer
pub open spec fn valid<T>(m: &Map2d<T>) -> bool {
    m.w >= 0 && m.h >= 0 && m.arr@.len() == m.w * m.h
}

/// A read gives back what a write wrote at the same position, and what was
/// there before at any other position on the map.
pub proof fn law_read_after_write<T>(m: &Map2d<T>, y: int, x: int, v: T, y2: int, x2: int)
    requires
        valid(m),
        in_bounds(m, y2, x2),
    ensures
        0 <= idx_of(m, y2, x2) < written(m, y, x, v).len(),
        written(m, y, x, v)[idx_of(m, y2, x2)] == if y2 == y && x2 == x { v } else { m.arr@[idx_of(m, y2, x2)] },
{
    lemma_row_index(m.w as int, m.h as int, y2, x2, y2, x2);
    if in_bounds(m, y, x) {
        lemma_row_index(m.w as int, m.h as int, y, x, y2, x2);
    }
}

/// index of a position on the map
fn index_at<T>(m: &Map2d<T>, y: i32, x: i32) -> (i: usize)
    requires
        in_bounds(m, y as int, x as int),
        cell_ok(m, y as int, x as int),
    ensures
        i == idx_of(m, y as int, x as int),
        i < m.arr.len(),
{
    proof {
        assert(0 <= y * m.w <= y * m.w + x) by (nonlinear_arith)
            requires
                0 <= y,
                0 <= x,
                0 <= m.w;
    }
    (y * m.w + x) as usize
}

/// the value at a position; the default value off the map
pub fn readAt<T: Copy + Default>(m: &Map2d<T>, y: i32, x: i32) -> (res: T)
    requires
        cell_ok(m, y as int, x as int),
    ensures
        in_bounds(m, y as int, x as int) ==> res == m.arr@[idx_of(m, y as int, x as int)],
        !in_bounds(m, y as int, x as int) ==> call_ensures(T::default, (), res),
{
    if y < 0 || x < 0 || x >= m.w || y >= m.h {
        return T::default();
    }
    m.arr[index_at(m, y, x)]
}

/// writes a value at a position; nothing happens off the map
pub fn writeAt<T>(m: &mut Map2d<T>, y: i32, x: i32, v: T)
    requires
        cell_ok(old(m), y as int, x as int),
    ensures
        final(m).w == old(m).w,
        final(m).h == old(m).h,
        final(m).arr@ == written(old(m), y as int, x as int, v),
{
    if y < 0 || x < 0 || x >= m.w || y >= m.h {
        return;
    }
    let i = index_at(m, y, x);
    m.arr.set(i, v);
}

/// helper to extract a rect: the `sy` rows of `sx` values from (x, y) on
pub fn crop<T: Copy + Default>(m: &Map2d<T>, x: i32, y: i32, sx: i32, sy: i32) -> (res: Map2d<T>)
    requires
        0 <= sx * sy <= i32::MAX,
        sx > 0 ==> x + sx - 1 <= i32::MAX,
        sy > 0 ==> y + sy - 1 <= i32::MAX,
        forall|iy: int, ix: int| 0 <= iy < sy && 0 <= ix < sx ==> #[trigger] cell_ok(m, y + iy, x + ix),
    ensures
        res.w == sx,
        res.h == sy,
        res.arr@.len() == sx * sy,
        forall|iy: int, ix: int| 0 <= iy < sy && 0 <= ix < sx ==> #[trigger] crop_cell(m, x as int, y as int, iy, ix, res.arr@[row_index(sx as int, iy, ix)]),
{
    let n = (sx * sy) as usize;
    let mut res = Map2d::<T> { arr: vec![T::default(); n], w: sx, h: sy };
    let mut iy: i32 = 0;
    while iy < sy
        invariant
            0 <= sx * sy <= i32::MAX,
            sx > 0 ==> x + sx - 1 <= i32::MAX,
            sy > 0 ==> y + sy - 1 <= i32::MAX,
            forall|iy: int, ix: int| 0 <= iy < sy && 0 <= ix < sx ==> #[trigger] cell_ok(m, y + iy, x + ix),
            0 <= iy,
            iy <= sy || iy == 0,
            res.w == sx,
            res.h == sy,
            res.arr@.len() == sx * sy,
            forall|iy2: int, ix2: int| 0 <= iy2 < iy && 0 <= ix2 < sx ==> #[trigger] crop_cell(m, x as int, y as int, iy2, ix2, res.arr@[row_index(sx as int, iy2, ix2)]),
        decreases sy - iy,
    {
        let mut ix: i32 = 0;
        while ix < sx
            invariant
                0 <= sx * sy <= i32::MAX,
                sx > 0 ==> x + sx - 1 <= i32::MAX,
                sy > 0 ==> y + sy - 1 <= i32::MAX,
                forall|iy: int, ix: int| 0 <= iy < sy && 0 <= ix < sx ==> #[trigger] cell_ok(m, y + iy, x + ix),
                0 <= iy < sy,
                0 <= ix,
                ix <= sx || ix == 0,
                res.w == sx,
                res.h == sy,
                res.arr@.len() == sx * sy,
                forall|iy2: int, ix2: int| 0 <= iy2 < iy && 0 <= ix2 < sx ==> #[trigger] crop_cell(m, x as int, y as int, iy2, ix2, res.arr@[row_index(sx as int, iy2, ix2)]),
                forall|ix2: int| 0 <= ix2 < ix ==> #[trigger] crop_cell(m, x as int, y as int, iy as int, ix2, res.arr@[row_index(sx as int, iy as int, ix2)]),
            decreases sx - ix,
        {
            assert(cell_ok(m, y + iy, x + ix));
            let v = readAt(m, y + iy, x + ix);
            proof {
                lemma_row_index(sx as int, sy as int, iy as int, ix as int, 0, 0);
            }
            let ghost prev = res.arr@;
            writeAt(&mut res, iy, ix, v);
            assert(res.arr@ == prev.update(row_index(sx as int, iy as int, ix as int), v));
            proof {
                assert forall|iy2: int, ix2: int| 0 <= iy2 < iy && 0 <= ix2 < sx implies #[trigger] crop_cell(m, x as int, y as int, iy2, ix2, res.arr@[row_index(sx as int, iy2, ix2)]) by {
                    lemma_row_index(sx as int, sy as int, iy2, ix2, iy as int, ix as int);
                    assert(iy2 != iy);
                    assert(row_index(sx as int, iy2, ix2) != row_index(sx as int, iy as int, ix as int));
                    assert(0 <= row_index(sx as int, iy2, ix2) < prev.len());
                    assert(res.arr@[row_index(sx as int, iy2, ix2)] == prev[row_index(sx as int, iy2, ix2)]);
                }
                assert forall|ix2: int| 0 <= ix2 < ix + 1 implies #[trigger] crop_cell(m, x as int, y as int, iy as int, ix2, res.arr@[row_index(sx as int, iy as int, ix2)]) by {
                    lemma_row_index(sx as int, sy as int, iy as int, ix as int, iy as int, ix2);
                    if ix2 < ix {
                        assert(res.arr@[row_index(sx as int, iy as int, ix2)] == prev[row_index(sx as int, iy as int, ix2)]);
                    }
                }
            }
            ix += 1;
        }
        iy += 1;
    }
    res
}

/// index of the position (cy + iy, cx + ix)
pub open spec fn cell_at<T>(m: &Map2d<T>, cx: int, cy: int, iy: int, ix: int) -> int {
    idx_of(m, cy + iy, cx + ix)
}

/// the box of `h` rows of `w` values from (cx, cy) on covers a position on
/// the map stored at index `k`
pub open spec fn box_hits<T>(m: &Map2d<T>, cx: int, cy: int, w: int, h: int, k: int) -> bool {
    exists|iy: int, ix: int| 0 <= iy < h && 0 <= ix < w && in_bounds(m, cy + iy, cx + ix) && #[trigger] cell_at(m, cx, cy, iy, ix) == k
}

/// the part of the box drawn before row `ry` and column `rx`
pub open spec fn box_hits_upto<T>(m: &Map2d<T>, cx: int, cy: int, w: int, ry: int, rx: int, k: int) -> bool {
    exists|iy: int, ix: int| 0 <= iy && 0 <= ix < w && (iy < ry || (iy == ry && ix < rx)) && in_bounds(m, cy + iy, cx + ix) && #[trigger] cell_at(m, cx, cy, iy, ix) == k
}

/// helper to draw a box: every position on the map in the `h` rows of `w`
/// values from (cx, cy) on gets the value `v`; nothing else changes
pub fn map2dDrawBox<T: Copy>(m: &mut Map2d<T>, cx: i32, cy: i32, w: i32, h: i32, v: T)
    requires
        w > 0 ==> cx + w - 1 <= i32::MAX,
        h > 0 ==> cy + h - 1 <= i32::MAX,
        forall|iy: int, ix: int| 0 <= iy < h && 0 <= ix < w ==> #[trigger] cell_ok(old(m), cy + iy, cx + ix),
    ensures
        final(m).w == old(m).w,
        final(m).h == old(m).h,
        final(m).arr@.len() == old(m).arr@.len(),
        forall|k: int| 0 <= k < old(m).arr@.len() ==> #[trigger] final(m).arr@[k] == if box_hits(old(m), cx as int, cy as int, w as int, h as int, k) { v } else { old(m).arr@[k] },
{
    let ghost m0 = *m;
    let mut iy: i32 = 0;
    while iy < h
        invariant
            w > 0 ==> cx + w - 1 <= i32::MAX,
            h > 0 ==> cy + h - 1 <= i32::MAX,
            forall|iy: int, ix: int| 0 <= iy < h && 0 <= ix < w ==> #[trigger] cell_ok(&m0, cy + iy, cx + ix),
            0 <= iy,
            iy <= h || iy == 0,
            m.w == m0.w,
            m.h == m0.h,
            m.arr@.len() == m0.arr@.len(),
            forall|k: int| 0 <= k < m0.arr@.len() ==> #[trigger] m.arr@[k] == if box_hits_upto(&m0, cx as int, cy as int, w as int, iy as int, 0, k) { v } else { m0.arr@[k] },
        decreases h - iy,
    {
        let mut ix: i32 = 0;
        while ix < w
            invariant
                w > 0 ==> cx + w - 1 <= i32::MAX,
                h > 0 ==> cy + h - 1 <= i32::MAX,
                forall|iy: int, ix: int| 0 <= iy < h && 0 <= ix < w ==> #[trigger] cell_ok(&m0, cy + iy, cx + ix),
                0 <= iy < h,
                0 <= ix,
                ix <= w || ix == 0,
                m.w == m0.w,
                m.h == m0.h,
                m.arr@.len() == m0.arr@.len(),
                forall|k: int| 0 <= k < m0.arr@.len() ==> #[trigger] m.arr@[k] == if box_hits_upto(&m0, cx as int, cy as int, w as int, iy as int, ix as int, k) { v } else { m0.arr@[k] },
            decreases w - ix,
        {
            assert(cell_ok(&m0, cy + iy, cx + ix));
            let ghost prev = m.arr@;
            writeAt(m, cy + iy, cx + ix, v);
            proof {
                assert forall|k: int| 0 <= k < m0.arr@.len() implies #[trigger] m.arr@[k] == if box_hits_upto(&m0, cx as int, cy as int, w as int, iy as int, ix + 1, k) { v } else { m0.arr@[k] } by {
                    let inb = in_bounds(&m0, cy + iy, cx + ix);
                    let k0 = cell_at(&m0, cx as int, cy as int, iy as int, ix as int);
                    if inb && k == k0 {
                        assert(box_hits_upto(&m0, cx as int, cy as int, w as int, iy as int, ix + 1, k));
                    } else {
                        assert(m.arr@[k] == prev[k]);
                        if box_hits_upto(&m0, cx as int, cy as int, w as int, iy as int, ix + 1, k) {
                            let (iy2, ix2) = choose|iy2: int, ix2: int| 0 <= iy2 && 0 <= ix2 < w && (iy2 < iy || (iy2 == iy && ix2 < ix + 1)) && in_bounds(&m0, cy + iy2, cx + ix2) && #[trigger] cell_at(&m0, cx as int, cy as int, iy2, ix2) == k;
                            assert(box_hits_upto(&m0, cx as int, cy as int, w as int, iy as int, ix as int, k));
                        }
                    }
                }
            }
            ix += 1;
        }
        proof {
            assert forall|k: int| 0 <= k < m0.arr@.len() implies #[trigger] m.arr@[k] == if box_hits_upto(&m0, cx as int, cy as int, w as int, iy + 1, 0, k) { v } else { m0.arr@[k] } by {
                if box_hits_upto(&m0, cx as int, cy as int, w as int, iy + 1, 0, k) {
                    let (iy2, ix2) = choose|iy2: int, ix2: int| 0 <= iy2 && 0 <= ix2 < w && (iy2 < iy + 1 || (iy2 == iy + 1 && ix2 < 0)) && in_bounds(&m0, cy + iy2, cx + ix2) && #[trigger] cell_at(&m0, cx as int, cy as int, iy2, ix2) == k;
                    assert(box_hits_upto(&m0, cx as int, cy as int, w as int, iy as int, ix as int, k));
                }
                if box_hits_upto(&m0, cx as int, cy as int, w as int, iy as int, ix as int, k) {
                    let (iy2, ix2) = choose|iy2: int, ix2: int| 0 <= iy2 && 0 <= ix2 < w && (iy2 < iy || (iy2 == iy && ix2 < ix)) && in_bounds(&m0, cy + iy2, cx + ix2) && #[trigger] cell_at(&m0, cx as int, cy as int, iy2, ix2) == k;
                    assert(box_hits_upto(&m0, cx as int, cy as int, w as int, iy + 1, 0, k));
                }
            }
        }
        iy += 1;
    }
    proof {
        assert forall|k: int| 0 <= k < m0.arr@.len() implies #[trigger] m.arr@[k] == if box_hits(&m0, cx as int, cy as int, w as int, h as int, k) { v } else { m0.arr@[k] } by {
            if box_hits(&m0, cx as int, cy as int, w as int, h as int, k) {
                let (iy2, ix2) = choose|iy2: int, ix2: int| 0 <= iy2 < h && 0 <= ix2 < w && in_bounds(&m0, cy + iy2, cx + ix2) && #[trigger] cell_at(&m0, cx as int, cy as int, iy2, ix2) == k;
                assert(box_hits_upto(&m0, cx as int, cy as int, w as int, iy as int, 0, k));
            }
            if box_hits_upto(&m0, cx as int, cy as int, w as int, iy as int, 0, k) {
                let (iy2, ix2) = choose|iy2: int, ix2: int| 0 <= iy2 && 0 <= ix2 < w && (iy2 < iy || (iy2 == iy && ix2 < 0)) && in_bounds(&m0, cy + iy2, cx + ix2) && #[trigger] cell_at(&m0, cx as int, cy as int, iy2, ix2) == k;
                assert(box_hits(&m0, cx as int, cy as int, w as int, h as int, k));
            }
        }
    }
}

/// the offset (iy, ix) from the centre lies in the disc that a circle of
/// radius `r` draws: inside the square scanned around the centre, with
/// `ix * ix + iy * iy <= r`
pub open spec fn circle_hit(r: int, iy: int, ix: int) -> bool {
    &&& -(r + 1) <= iy < r + 1
    &&& -(r + 1) <= ix < r + 1
    &&& ix * ix + iy * iy <= r
}

/// the circle of radius `r` around (cx, cy) covers a position on the map
/// stored at index `k`
pub open spec fn circle_hits<T>(m: &Map2d<T>, cx: int, cy: int, r: int, k: int) -> bool {
    exists|iy: int, ix: int| circle_hit(r, iy, ix) && in_bounds(m, cy + iy, cx + ix) && #[trigger] cell_at(m, cx, cy, iy, ix) == k
}

/// the part of the circle drawn before row `ry` and column `rx`
pub open spec fn circle_hits_upto<T>(m: &Map2d<T>, cx: int, cy: int, r: int, ry: int, rx: int, k: int) -> bool {
    exists|iy: int, ix: int| circle_hit(r, iy, ix) && (iy < ry || (iy == ry && ix < rx)) && in_bounds(m, cy + iy, cx + ix) && #[trigger] cell_at(m, cx, cy, iy, ix) == k
}

/// the circle's positions can be computed and written
pub open spec fn circle_ok<T>(m: &Map2d<T>, cx: int, cy: int, r: int) -> bool {
    forall|iy: int, ix: int| #[trigger] circle_hit(r, iy, ix) ==> {
        &&& i32::MIN <= cy + iy <= i32::MAX
        &&& i32::MIN <= cx + ix <= i32::MAX
        &&& cell_ok(m, cy + iy, cx + ix)
    }
}

/// helper to draw a circle: every position on the map whose offset (iy, ix)
/// from (cx, cy), both in `-(r + 1)..r + 1`, has `ix * ix + iy * iy <= r`
/// gets the value `v`; nothing else changes
pub fn map2dDrawCircle<T: Copy>(m: &mut Map2d<T>, cx: i32, cy: i32, r: i32, v: T)
    requires
        r < i32::MAX,
        r < 0 || 2 * (r + 1) * (r + 1) <= i32::MAX,
        circle_ok(old(m), cx as int, cy as int, r as int),
    ensures
        final(m).w == old(m).w,
        final(m).h == old(m).h,
        final(m).arr@.len() == old(m).arr@.len(),
        forall|k: int| 0 <= k < old(m).arr@.len() ==> #[trigger] final(m).arr@[k] == if circle_hits(old(m), cx as int, cy as int, r as int, k) { v } else { old(m).arr@[k] },
{
    let ghost m0 = *m;
    let lo: i32 = -(r + 1);
    let hi: i32 = r + 1;
    let mut iy: i32 = lo;
    while iy < hi
        invariant
            r < i32::MAX,
            r < 0 || 2 * (r + 1) * (r + 1) <= i32::MAX,
            circle_ok(&m0, cx as int, cy as int, r as int),
            lo == -(r + 1),
            hi == r + 1,
            lo <= iy,
            iy <= hi || iy == lo,
            m.w == m0.w,
            m.h == m0.h,
            m.arr@.len() == m0.arr@.len(),
            forall|k: int| 0 <= k < m0.arr@.len() ==> #[trigger] m.arr@[k] == if circle_hits_upto(&m0, cx as int, cy as int, r as int, iy as int, lo as int, k) { v } else { m0.arr@[k] },
        decreases hi - iy,
    {
        let mut ix: i32 = lo;
        while ix < hi
            invariant
                r < i32::MAX,
                r < 0 || 2 * (r + 1) * (r + 1) <= i32::MAX,
                circle_ok(&m0, cx as int, cy as int, r as int),
                lo == -(r + 1),
                hi == r + 1,
                lo <= iy < hi,
                lo <= ix,
                ix <= hi || ix == lo,
                m.w == m0.w,
                m.h == m0.h,
                m.arr@.len() == m0.arr@.len(),
                forall|k: int| 0 <= k < m0.arr@.len() ==> #[trigger] m.arr@[k] == if circle_hits_upto(&m0, cx as int, cy as int, r as int, iy as int, ix as int, k) { v } else { m0.arr@[k] },
            decreases hi - ix,
        {
            proof {
                assert(0 <= ix * ix <= (r + 1) * (r + 1)) by (nonlinear_arith)
                    requires
                        -(r + 1) <= ix < r + 1;
                assert(0 <= iy * iy <= (r + 1) * (r + 1)) by (nonlinear_arith)
                    requires
                        -(r + 1) <= iy < r + 1;
                assert(2 * (r + 1) * (r + 1) == 2 * ((r + 1) * (r + 1))) by (nonlinear_arith);
            }
            let d: i32 = ix * ix + iy * iy;
            if d <= r {
                assert(circle_hit(r as int, iy as int, ix as int));
                let ghost prev = m.arr@;
                writeAt(m, cy + iy, cx + ix, v);
                proof {
                    assert forall|k: int| 0 <= k < m0.arr@.len() implies #[trigger] m.arr@[k] == if circle_hits_upto(&m0, cx as int, cy as int, r as int, iy as int, ix + 1, k) { v } else { m0.arr@[k] } by {
                        let inb = in_bounds(&m0, cy + iy, cx + ix);
                        let k0 = cell_at(&m0, cx as int, cy as int, iy as int, ix as int);
                        if inb && k == k0 {
                            assert(circle_hits_upto(&m0, cx as int, cy as int, r as int, iy as int, ix + 1, k));
                        } else {
                            assert(m.arr@[k] == prev[k]);
                            if circle_hits_upto(&m0, cx as int, cy as int, r as int, iy as int, ix + 1, k) {
                                let (iy2, ix2) = choose|iy2: int, ix2: int| circle_hit(r as int, iy2, ix2) && (iy2 < iy || (iy2 == iy && ix2 < ix + 1)) && in_bounds(&m0, cy + iy2, cx + ix2) && #[trigger] cell_at(&m0, cx as int, cy as int, iy2, ix2) == k;
                                assert(circle_hits_upto(&m0, cx as int, cy as int, r as int, iy as int, ix as int, k));
                            }
                        }
                    }
                }
            } else {
                proof {
                    assert forall|k: int| 0 <= k < m0.arr@.len() implies #[trigger] m.arr@[k] == if circle_hits_upto(&m0, cx as int, cy as int, r as int, iy as int, ix + 1, k) { v } else { m0.arr@[k] } by {
                        if circle_hits_upto(&m0, cx as int, cy as int, r as int, iy as int, ix + 1, k) {
                            let (iy2, ix2) = choose|iy2: int, ix2: int| circle_hit(r as int, iy2, ix2) && (iy2 < iy || (iy2 == iy && ix2 < ix + 1)) && in_bounds(&m0, cy + iy2, cx + ix2) && #[trigger] cell_at(&m0, cx as int, cy as int, iy2, ix2) == k;
                            assert(circle_hits_upto(&m0, cx as int, cy as int, r as int, iy as int, ix as int, k));
                        }
                        if circle_hits_upto(&m0, cx as int, cy as int, r as int, iy as int, ix as int, k) {
                            let (iy2, ix2) = choose|iy2: int, ix2: int| circle_hit(r as int, iy2, ix2) && (iy2 < iy || (iy2 == iy && ix2 < ix)) && in_bounds(&m0, cy + iy2, cx + ix2) && #[trigger] cell_at(&m0, cx as int, cy as int, iy2, ix2) == k;
                            assert(circle_hits_upto(&m0, cx as int, cy as int, r as int, iy as int, ix + 1, k));
                        }
                    }
                }
            }
            ix += 1;
        }
        proof {
            assert forall|k: int| 0 <= k < m0.arr@.len() implies #[trigger] m.arr@[k] == if circle_hits_upto(&m0, cx as int, cy as int, r as int, iy + 1, lo as int, k) { v } else { m0.arr@[k] } by {
                if circle_hits_upto(&m0, cx as int, cy as int, r as int, iy + 1, lo as int, k) {
                    let (iy2, ix2) = choose|iy2: int, ix2: int| circle_hit(r as int, iy2, ix2) && (iy2 < iy + 1 || (iy2 == iy + 1 && ix2 < lo)) && in_bounds(&m0, cy + iy2, cx + ix2) && #[trigger] cell_at(&m0, cx as int, cy as int, iy2, ix2) == k;
                    assert(circle_hits_upto(&m0, cx as int, cy as int, r as int, iy as int, ix as int, k));
                }
                if circle_hits_upto(&m0, cx as int, cy as int, r as int, iy as int, ix as int, k) {
                    let (iy2, ix2) = choose|iy2: int, ix2: int| circle_hit(r as int, iy2, ix2) && (iy2 < iy || (iy2 == iy && ix2 < ix)) && in_bounds(&m0, cy + iy2, cx + ix2) && #[trigger] cell_at(&m0, cx as int, cy as int, iy2, ix2) == k;
                    assert(circle_hits_upto(&m0, cx as int, cy as int, r as int, iy + 1, lo as int, k));
                }
            }
        }
        iy += 1;
    }
    proof {
        assert forall|k: int| 0 <= k < m0.arr@.len() implies #[trigger] m.arr@[k] == if circle_hits(&m0, cx as int, cy as int, r as int, k) { v } else { m0.arr@[k] } by {
            if circle_hits(&m0, cx as int, cy as int, r as int, k) {
                let (iy2, ix2) = choose|iy2: int, ix2: int| circle_hit(r as int, iy2, ix2) && in_bounds(&m0, cy + iy2, cx + ix2) && #[trigger] cell_at(&m0, cx as int, cy as int, iy2, ix2) == k;
                assert(circle_hits_upto(&m0, cx as int, cy as int, r as int, iy as int, lo as int, k));
            }
            if circle_hits_upto(&m0, cx as int, cy as int, r as int, iy as int, lo as int, k) {
                let (iy2, ix2) = choose|iy2: int, ix2: int| circle_hit(r as int, iy2, ix2) && (iy2 < iy || (iy2 == iy && ix2 < lo)) && in_bounds(&m0, cy + iy2, cx + ix2) && #[trigger] cell_at(&m0, cx as int, cy as int, iy2, ix2) == k;
                assert(circle_hits(&m0, cx as int, cy as int, r as int, k));
            }
        }
    }
}

} // verus!
