//! Layout-canvas geometry: selection cycling, edge snapping, nudging and
//! automatic arrangement.
use vstd::prelude::*;

use crate::monitor::{
    bottom_edge_of, edges_fit, is_rotated, right_edge_of, world_height_of, world_width_of, Monitor,
};

verus! {

/// Layout-tab state. `zoom` is in tenths (10 is 1.0x).
#[derive(Debug, Clone, Copy, PartialEq, Eq, Structural)]
pub struct LayoutState {
    pub selected: usize,
    pub snap_threshold: i32,
    pub zoom: u32,
}

impl Default for LayoutState {
    fn default() -> (s: Self)
        ensures
            s == (LayoutState { selected: 0, snap_threshold: 10, zoom: 10 }),
    {
        LayoutState { selected: 0, snap_threshold: 10, zoom: 10 }
    }
}

impl LayoutState {
    /// Keeps the selection inside a list of `count` monitors.
    pub fn clamp_selected(&mut self, count: usize)
        ensures
            final(self).selected == (if count == 0 {
                0
            } else if old(self).selected >= count {
                (count - 1) as usize
            } else {
                old(self).selected
            }),
            final(self).snap_threshold == old(self).snap_threshold,
            final(self).zoom == old(self).zoom,
    {
        if count == 0 {
            self.selected = 0;
        } else if self.selected >= count {
            self.selected = count - 1;
        }
    }

    /// Selects the next monitor, wrapping around.
    pub fn next(&mut self, count: usize)
        requires
            count > 0 ==> old(self).selected < usize::MAX,
        ensures
            final(self).selected == (if count > 0 {
                ((old(self).selected + 1) % (count as int)) as usize
            } else {
                old(self).selected
            }),
            final(self).snap_threshold == old(self).snap_threshold,
            final(self).zoom == old(self).zoom,
    {
        if count > 0 {
            self.selected = (self.selected + 1) % count;
        }
    }

    /// Selects the previous monitor, wrapping around.
    pub fn prev(&mut self, count: usize)
        ensures
            final(self).selected == (if count == 0 {
                old(self).selected
            } else if old(self).selected == 0 {
                (count - 1) as usize
            } else {
                (old(self).selected - 1) as usize
            }),
            final(self).snap_threshold == old(self).snap_threshold,
            final(self).zoom == old(self).zoom,
    {
        if count > 0 {
            self.selected = if self.selected == 0 {
                count - 1
            } else {
                self.selected - 1
            };
        }
    }

    /// Zooms the canvas in by 0.1, up to 5.0.
    pub fn zoom_in(&mut self)
        ensures
            final(self).zoom == (if old(self).zoom + 1 > 50 {
                50
            } else {
                old(self).zoom + 1
            }),
            final(self).selected == old(self).selected,
            final(self).snap_threshold == old(self).snap_threshold,
    {
        if self.zoom >= 50 {
            self.zoom = 50;
        } else {
            self.zoom = self.zoom + 1;
        }
    }

    /// Zooms the canvas out by 0.1, down to 0.1.
    pub fn zoom_out(&mut self)
        ensures
            final(self).zoom == (if old(self).zoom < 2 {
                1
            } else {
                (old(self).zoom - 1) as u32
            }),
            final(self).selected == old(self).selected,
            final(self).snap_threshold == old(self).snap_threshold,
    {
        if self.zoom < 2 {
            self.zoom = 1;
        } else {
            self.zoom = self.zoom - 1;
        }
    }
}

pub open spec fn abs_int(v: int) -> int {
    if v < 0 {
        -v
    } else {
        v
    }
}

/// One candidate edge pair: the moving edge at `ma`, the other at `oa`.
/// `best` is (distance, snapped position) of the closest pair so far.
pub open spec fn snap_pair(best: (int, int), new: int, ma: int, oa: int) -> (int, int) {
    if abs_int(ma - oa) < best.0 {
        (abs_int(ma - oa), new + (oa - ma))
    } else {
        best
    }
}

/// The four edge pairs between the moving span `[new, new + len)` and the
/// span `[o, o + olen)`: left/left, left/right, right/left, right/right.
pub open spec fn snap_span(best: (int, int), new: int, len: int, o: int, olen: int) -> (int, int) {
    snap_pair(
        snap_pair(snap_pair(snap_pair(best, new, new, o), new, new, o + olen), new, new + len, o),
        new,
        new + len,
        o + olen,
    )
}

/// Snapping along one axis against the first `n` spans (skipping `idx`):
/// span `j` starts at `origins[j]` and is `lens[j]` long.
pub open spec fn snap_axis(
    origins: Seq<int>,
    lens: Seq<int>,
    n: int,
    idx: int,
    new: int,
    threshold: int,
) -> (int, int)
    decreases n,
{
    if n <= 0 {
        (threshold + 1, new)
    } else {
        let b = snap_axis(origins, lens, n - 1, idx, new, threshold);
        if n - 1 == idx {
            b
        } else {
            snap_span(b, new, lens[idx], origins[n - 1], lens[n - 1])
        }
    }
}

pub open spec fn x_origins(ms: Seq<Monitor>) -> Seq<int> {
    ms.map_values(|m: Monitor| m.x as int)
}

pub open spec fn x_lens(ms: Seq<Monitor>) -> Seq<int> {
    ms.map_values(|m: Monitor| (world_width_of(m) as i32) as int)
}

pub open spec fn y_origins(ms: Seq<Monitor>) -> Seq<int> {
    ms.map_values(|m: Monitor| m.y as int)
}

pub open spec fn y_lens(ms: Seq<Monitor>) -> Seq<int> {
    ms.map_values(|m: Monitor| (world_height_of(m) as i32) as int)
}

/// Where `snap_position` puts the monitor `idx` proposed at `(new_x, new_y)`.
pub open spec fn snapped(ms: Seq<Monitor>, idx: int, new_x: int, new_y: int, threshold: int) -> (
    int,
    int,
) {
    (
        snap_axis(x_origins(ms), x_lens(ms), ms.len() as int, idx, new_x, threshold).1,
        snap_axis(y_origins(ms), y_lens(ms), ms.len() as int, idx, new_y, threshold).1,
    )
}

pub open spec fn fits_i32(v: int) -> bool {
    i32::MIN <= v <= i32::MAX
}

fn snap_pair_exec(best: (i64, i64), new: i64, ma: i64, oa: i64) -> (r: (i64, i64))
    requires
        -0x1_0000_0000_0 <= new <= 0x1_0000_0000_0,
        -0x1_0000_0000_0 <= ma <= 0x1_0000_0000_0,
        -0x1_0000_0000_0 <= oa <= 0x1_0000_0000_0,
    ensures
        r.0 == snap_pair((best.0 as int, best.1 as int), new as int, ma as int, oa as int).0,
        r.1 == snap_pair((best.0 as int, best.1 as int), new as int, ma as int, oa as int).1,
{
    let diff = ma - oa;
    let dist = if diff < 0 {
        -diff
    } else {
        diff
    };
    if dist < best.0 {
        (dist, new + (oa - ma))
    } else {
        best
    }
}

/// The snapped position computed without bounds on the result.
pub fn snap_position_wide(
    moving_idx: usize,
    new_x: i32,
    new_y: i32,
    monitors: &Vec<Monitor>,
    threshold: i32,
) -> (r: (i64, i64))
    requires
        moving_idx < monitors.len(),
    ensures
        r.0 == snapped(monitors@, moving_idx as int, new_x as int, new_y as int, threshold as int).0,
        r.1 == snapped(monitors@, moving_idx as int, new_x as int, new_y as int, threshold as int).1,
{
    let mw = monitors[moving_idx].world_width() as i32 as i64;
    let mh = monitors[moving_idx].world_height() as i32 as i64;
    let nx = new_x as i64;
    let ny = new_y as i64;
    let mut bx: (i64, i64) = (threshold as i64 + 1, nx);
    let mut by: (i64, i64) = (threshold as i64 + 1, ny);
    let mut i: usize = 0;
    while i < monitors.len()
        invariant
            i <= monitors.len(),
            moving_idx < monitors.len(),
            mw == (world_width_of(monitors@[moving_idx as int]) as i32) as int,
            mh == (world_height_of(monitors@[moving_idx as int]) as i32) as int,
            nx == new_x,
            ny == new_y,
            (bx.0 as int, bx.1 as int) == snap_axis(
                x_origins(monitors@),
                x_lens(monitors@),
                i as int,
                moving_idx as int,
                new_x as int,
                threshold as int,
            ),
            (by.0 as int, by.1 as int) == snap_axis(
                y_origins(monitors@),
                y_lens(monitors@),
                i as int,
                moving_idx as int,
                new_y as int,
                threshold as int,
            ),
        decreases monitors.len() - i,
    {
        if i != moving_idx {
            let other = &monitors[i];
            let ox = other.x as i64;
            let oy = other.y as i64;
            let ow = other.world_width() as i32 as i64;
            let oh = other.world_height() as i32 as i64;
            assert(x_origins(monitors@)[i as int] == ox);
            assert(x_lens(monitors@)[i as int] == ow);
            assert(x_lens(monitors@)[moving_idx as int] == mw);
            assert(y_origins(monitors@)[i as int] == oy);
            assert(y_lens(monitors@)[i as int] == oh);
            assert(y_lens(monitors@)[moving_idx as int] == mh);
            bx = snap_pair_exec(bx, nx, nx, ox);
            bx = snap_pair_exec(bx, nx, nx, ox + ow);
            bx = snap_pair_exec(bx, nx, nx + mw, ox);
            bx = snap_pair_exec(bx, nx, nx + mw, ox + ow);
            by = snap_pair_exec(by, ny, ny, oy);
            by = snap_pair_exec(by, ny, ny, oy + oh);
            by = snap_pair_exec(by, ny, ny + mh, oy);
            by = snap_pair_exec(by, ny, ny + mh, oy + oh);
        }
        i = i + 1;
    }
    (bx.1, by.1)
}


/// Snaps a monitor being moved to the edges of its neighbours: along each
/// axis independently, the closest edge pair within `threshold` (the first
/// such on ties) decides the offset. Returns the adjusted (x, y).
pub fn snap_position(
    moving_idx: usize,
    new_x: i32,
    new_y: i32,
    monitors: &Vec<Monitor>,
    threshold: i32,
) -> (r: (i32, i32))
    requires
        moving_idx < monitors.len(),
        fits_i32(snapped(monitors@, moving_idx as int, new_x as int, new_y as int, threshold as int).0),
        fits_i32(snapped(monitors@, moving_idx as int, new_x as int, new_y as int, threshold as int).1),
    ensures
        r.0 == snapped(monitors@, moving_idx as int, new_x as int, new_y as int, threshold as int).0,
        r.1 == snapped(monitors@, moving_idx as int, new_x as int, new_y as int, threshold as int).1,
{
    let (sx, sy) = snap_position_wide(moving_idx, new_x, new_y, monitors, threshold);
    (sx as i32, sy as i32)
}

/// The monitor list with monitor `idx` moved to `(x, y)`.
pub open spec fn moved_to(ms: Seq<Monitor>, idx: int, x: int, y: int) -> Seq<Monitor> {
    ms.update(idx, Monitor { x: x as i32, y: y as i32, ..ms[idx] })
}

/// Whether nudging the selected monitor by `(dx, dy)` stays within 32-bit
/// coordinates.
pub open spec fn nudge_fits(state: LayoutState, ms: Seq<Monitor>, dx: int, dy: int) -> bool {
    state.selected < ms.len() ==> {
        let m = ms[state.selected as int];
        &&& fits_i32(m.x + dx)
        &&& fits_i32(m.y + dy)
        &&& fits_i32(snapped(ms, state.selected as int, m.x + dx, m.y + dy, state.snap_threshold as int).0)
        &&& fits_i32(snapped(ms, state.selected as int, m.x + dx, m.y + dy, state.snap_threshold as int).1)
    }
}

/// Move the selected monitor by (dx, dy) pixels, then snap.
pub fn move_selected(state: &LayoutState, monitors: &mut Vec<Monitor>, dx: i32, dy: i32)
    requires
        nudge_fits(*state, old(monitors)@, dx as int, dy as int),
    ensures
        state.selected >= old(monitors)@.len() ==> final(monitors)@ == old(monitors)@,
        state.selected < old(monitors)@.len() ==> final(monitors)@ == moved_to(
            old(monitors)@,
            state.selected as int,
            snapped(
                old(monitors)@,
                state.selected as int,
                old(monitors)@[state.selected as int].x + dx,
                old(monitors)@[state.selected as int].y + dy,
                state.snap_threshold as int,
            ).0,
            snapped(
                old(monitors)@,
                state.selected as int,
                old(monitors)@[state.selected as int].x + dx,
                old(monitors)@[state.selected as int].y + dy,
                state.snap_threshold as int,
            ).1,
        ),
{
    let idx = state.selected;
    if idx >= monitors.len() {
        return;
    }
    let new_x = monitors[idx].x + dx;
    let new_y = monitors[idx].y + dy;
    let (sx, sy) = snap_position(idx, new_x, new_y, monitors, state.snap_threshold);
    monitors[idx].x = sx;
    monitors[idx].y = sy;
    assert(monitors@ =~= moved_to(old(monitors)@, idx as int, sx as int, sy as int));
}

/// Sum of the world widths (as `i32`) of the first `k` monitors.
pub open spec fn width_prefix(ms: Seq<Monitor>, k: int) -> int
    decreases k,
{
    if k <= 0 {
        0
    } else {
        width_prefix(ms, k - 1) + (world_width_of(ms[k - 1]) as i32) as int
    }
}

/// The left-to-right arrangement fits in 32-bit coordinates.
pub open spec fn row_fits(ms: Seq<Monitor>) -> bool {
    forall|k: int| 0 <= k <= ms.len() ==> #[trigger] fits_i32(width_prefix(ms, k))
}

pub fn check_i32(v: i64) -> (r: bool)
    ensures
        r == fits_i32(v as int),
{
    -0x8000_0000 <= v && v <= 0x7FFF_FFFF
}

/// Whether a nudge of the selection by `(dx, dy)` stays within 32-bit
/// coordinates.
pub fn check_nudge(state: &LayoutState, monitors: &Vec<Monitor>, dx: i32, dy: i32) -> (r: bool)
    ensures
        r == nudge_fits(*state, monitors@, dx as int, dy as int),
{
    let idx = state.selected;
    if idx >= monitors.len() {
        return true;
    }
    let nx = monitors[idx].x as i64 + dx as i64;
    let ny = monitors[idx].y as i64 + dy as i64;
    if !check_i32(nx) || !check_i32(ny) {
        return false;
    }
    let (sx, sy) = snap_position_wide(idx, nx as i32, ny as i32, monitors, state.snap_threshold);
    check_i32(sx) && check_i32(sy)
}

/// Whether the left-to-right arrangement fits in 32-bit coordinates.
pub fn check_row(monitors: &Vec<Monitor>) -> (r: bool)
    ensures
        r == row_fits(monitors@),
{
    let mut acc: i64 = 0;
    let mut i: usize = 0;
    while i < monitors.len()
        invariant
            i <= monitors.len(),
            acc == width_prefix(monitors@, i as int),
            forall|k: int| 0 <= k <= i ==> #[trigger] fits_i32(width_prefix(monitors@, k)),
        decreases monitors.len() - i,
    {
        assert(fits_i32(width_prefix(monitors@, i as int)));
        acc = acc + monitors[i].world_width() as i32 as i64;
        i = i + 1;
        assert(acc == width_prefix(monitors@, i as int));
        if !check_i32(acc) {
            assert(!fits_i32(width_prefix(monitors@, i as int)));
            return false;
        }
    }
    true
}

/// Place monitors in a left-to-right row with no gaps.
pub fn auto_arrange(monitors: &mut Vec<Monitor>)
    requires
        row_fits(old(monitors)@),
    ensures
        final(monitors)@.len() == old(monitors)@.len(),
        forall|i: int|
            0 <= i < old(monitors)@.len() ==> #[trigger] final(monitors)@[i] == (Monitor {
                x: width_prefix(old(monitors)@, i) as i32,
                y: 0,
                ..old(monitors)@[i]
            }),
{
    let ghost orig = monitors@;
    let mut cursor: i32 = 0;
    let mut i: usize = 0;
    while i < monitors.len()
        invariant
            i <= monitors.len(),
            monitors@.len() == orig.len(),
            row_fits(orig),
            cursor == width_prefix(orig, i as int),
            forall|k: int|
                0 <= k < i ==> #[trigger] monitors@[k] == (Monitor {
                    x: width_prefix(orig, k) as i32,
                    y: 0,
                    ..orig[k]
                }),
            forall|k: int| i <= k < monitors@.len() ==> #[trigger] monitors@[k] == orig[k],
        decreases monitors.len() - i,
    {
        assert(fits_i32(width_prefix(orig, i + 1)));
        let w = monitors[i].world_width() as i32;
        monitors[i].x = cursor;
        monitors[i].y = 0;
        cursor = cursor + w;
        i = i + 1;
    }
}

/// Every monitor's edges fit in 32-bit coordinates.
pub open spec fn all_edges_fit(ms: Seq<Monitor>) -> bool {
    forall|i: int| 0 <= i < ms.len() ==> #[trigger] edges_fit(ms[i])
}

/// (min_x, min_y, max_x, max_y) in world coordinates: the least left and top
/// edges and the greatest right and bottom edges, or (0, 0, 1, 1) when
/// there are no monitors.
pub open spec fn is_bounding_box(ms: Seq<Monitor>, b: (i32, i32, i32, i32)) -> bool {
    if ms.len() == 0 {
        b == (0i32, 0i32, 1i32, 1i32)
    } else {
        &&& exists|i: int| 0 <= i < ms.len() && b.0 == ms[i].x
        &&& exists|i: int| 0 <= i < ms.len() && b.1 == ms[i].y
        &&& exists|i: int| 0 <= i < ms.len() && b.2 == right_edge_of(ms[i])
        &&& exists|i: int| 0 <= i < ms.len() && b.3 == bottom_edge_of(ms[i])
        &&& forall|i: int|
            0 <= i < ms.len() ==> b.0 <= (#[trigger] ms[i]).x && b.1 <= ms[i].y && b.2
                >= right_edge_of(ms[i]) && b.3 >= bottom_edge_of(ms[i])
    }
}

pub fn bounding_box(monitors: &Vec<Monitor>) -> (b: (i32, i32, i32, i32))
    requires
        all_edges_fit(monitors@),
    ensures
        is_bounding_box(monitors@, b),
{
    if monitors.len() == 0 {
        return (0, 0, 1, 1);
    }
    assert(edges_fit(monitors@[0]));
    let mut min_x = monitors[0].x;
    let mut min_y = monitors[0].y;
    let mut max_x = monitors[0].right_edge();
    let mut max_y = monitors[0].bottom_edge();
    let ghost mut ix: int = 0;
    let ghost mut iy: int = 0;
    let ghost mut jx: int = 0;
    let ghost mut jy: int = 0;
    let mut i: usize = 1;
    while i < monitors.len()
        invariant
            1 <= i <= monitors.len(),
            all_edges_fit(monitors@),
            0 <= ix < i && min_x == monitors@[ix].x,
            0 <= iy < i && min_y == monitors@[iy].y,
            0 <= jx < i && max_x == right_edge_of(monitors@[jx]),
            0 <= jy < i && max_y == bottom_edge_of(monitors@[jy]),
            forall|k: int|
                0 <= k < i ==> min_x <= (#[trigger] monitors@[k]).x && min_y <= monitors@[k].y
                    && max_x >= right_edge_of(monitors@[k]) && max_y >= bottom_edge_of(
                    monitors@[k],
                ),
        decreases monitors.len() - i,
    {
        assert(edges_fit(monitors@[i as int]));
        let m = &monitors[i];
        if m.x < min_x {
            min_x = m.x;
            proof { ix = i as int; }
        }
        if m.y < min_y {
            min_y = m.y;
            proof { iy = i as int; }
        }
        let r = m.right_edge();
        if r > max_x {
            max_x = r;
            proof { jx = i as int; }
        }
        let b = m.bottom_edge();
        if b > max_y {
            max_y = b;
            proof { jy = i as int; }
        }
        i = i + 1;
    }
    (min_x, min_y, max_x, max_y)
}


/// Distance of edge pair `k` (left/left, left/right, right/left,
/// right/right) between the moving span `[new, new + len)` and `[o, o + olen)`.
pub open spec fn edge_gap(new: int, len: int, o: int, olen: int, k: int) -> int {
    if k == 0 {
        abs_int(new - o)
    } else if k == 1 {
        abs_int(new - (o + olen))
    } else if k == 2 {
        abs_int(new + len - o)
    } else {
        abs_int(new + len - (o + olen))
    }
}

/// A span starting at `pos` has one of its edges on an edge of `[o, o + olen)`.
pub open spec fn edges_touch(pos: int, len: int, o: int, olen: int) -> bool {
    pos == o || pos == o + olen || pos + len == o || pos + len == o + olen
}

pub open spec fn snap_state_ok(b: (int, int), new: int, t: int) -> bool {
    &&& b.0 <= t + 1
    &&& b.0 > t ==> b.0 == t + 1 && b.1 == new
    &&& b.0 <= t ==> abs_int(b.1 - new) == b.0
}

proof fn lemma_snap_pair(b: (int, int), new: int, ma: int, oa: int, t: int, len: int, o: int, olen: int)
    requires
        snap_state_ok(b, new, t),
        ma == new || ma == new + len,
        oa == o || oa == o + olen,
    ensures
        snap_state_ok(snap_pair(b, new, ma, oa), new, t),
        snap_pair(b, new, ma, oa).0 <= b.0,
        snap_pair(b, new, ma, oa).0 <= abs_int(ma - oa),
        snap_pair(b, new, ma, oa) == b || (snap_pair(b, new, ma, oa).0 < b.0 && edges_touch(
            snap_pair(b, new, ma, oa).1,
            len,
            o,
            olen,
        )),
{
}

proof fn lemma_snap_span(b: (int, int), new: int, len: int, o: int, olen: int, t: int)
    requires
        snap_state_ok(b, new, t),
    ensures
        snap_state_ok(snap_span(b, new, len, o, olen), new, t),
        snap_span(b, new, len, o, olen).0 <= b.0,
        forall|k: int| 0 <= k < 4 ==> snap_span(b, new, len, o, olen).0 <= #[trigger] edge_gap(new, len, o, olen, k),
        snap_span(b, new, len, o, olen) == b || (snap_span(b, new, len, o, olen).0 < b.0 && edges_touch(
            snap_span(b, new, len, o, olen).1,
            len,
            o,
            olen,
        )),
{
    let b1 = snap_pair(b, new, new, o);
    lemma_snap_pair(b, new, new, o, t, len, o, olen);
    let b2 = snap_pair(b1, new, new, o + olen);
    lemma_snap_pair(b1, new, new, o + olen, t, len, o, olen);
    let b3 = snap_pair(b2, new, new + len, o);
    lemma_snap_pair(b2, new, new + len, o, t, len, o, olen);
    lemma_snap_pair(b3, new, new + len, o + olen, t, len, o, olen);
}

proof fn lemma_snap_axis(origins: Seq<int>, lens: Seq<int>, n: int, idx: int, new: int, t: int)
    requires
        0 <= n <= origins.len(),
        origins.len() == lens.len(),
        0 <= idx < origins.len(),
    ensures
        snap_state_ok(snap_axis(origins, lens, n, idx, new, t), new, t),
        forall|j: int, k: int|
            0 <= j < n && j != idx && 0 <= k < 4 ==> snap_axis(origins, lens, n, idx, new, t).0
                <= #[trigger] edge_gap(new, lens[idx], origins[j], lens[j], k),
        snap_axis(origins, lens, n, idx, new, t).0 <= t ==> exists|j: int|
            0 <= j < n && j != idx && #[trigger] edges_touch(
                snap_axis(origins, lens, n, idx, new, t).1,
                lens[idx],
                origins[j],
                lens[j],
            ),
    decreases n,
{
    if n > 0 {
        lemma_snap_axis(origins, lens, n - 1, idx, new, t);
        let b = snap_axis(origins, lens, n - 1, idx, new, t);
        if n - 1 != idx {
            lemma_snap_span(b, new, lens[idx], origins[n - 1], lens[n - 1], t);
            let r = snap_axis(origins, lens, n, idx, new, t);
            if r.0 <= t && r != b {
                assert(edges_touch(r.1, lens[idx], origins[n - 1], lens[n - 1]));
            }
        }
    }
}

/// Snapping along one axis: the span moves by at most the threshold; it
/// stays put when no edge pair is within the threshold; otherwise one of its
/// edges lands on an edge of another span, at the smallest gap found.
pub proof fn law_snap_axis(origins: Seq<int>, lens: Seq<int>, idx: int, new: int, t: int)
    requires
        origins.len() == lens.len(),
        0 <= idx < origins.len(),
    ensures
        ({
            let pos = snap_axis(origins, lens, origins.len() as int, idx, new, t).1;
            &&& pos == new || abs_int(pos - new) <= t
            &&& (forall|j: int, k: int|
                0 <= j < origins.len() && j != idx && 0 <= k < 4 ==> #[trigger] edge_gap(
                    new,
                    lens[idx],
                    origins[j],
                    lens[j],
                    k,
                ) > t) ==> pos == new
            &&& pos == new || exists|j: int|
                0 <= j < origins.len() && j != idx && #[trigger] edges_touch(
                    pos,
                    lens[idx],
                    origins[j],
                    lens[j],
                )
            &&& forall|j: int, k: int|
                0 <= j < origins.len() && j != idx && 0 <= k < 4 && #[trigger] edge_gap(
                    new,
                    lens[idx],
                    origins[j],
                    lens[j],
                    k,
                ) <= t ==> abs_int(pos - new) <= edge_gap(new, lens[idx], origins[j], lens[j], k)
        }),
{
    lemma_snap_axis(origins, lens, origins.len() as int, idx, new, t);
    let r = snap_axis(origins, lens, origins.len() as int, idx, new, t);
    if r.0 <= t {
        let j = choose|j: int|
            0 <= j < origins.len() && j != idx && #[trigger] edges_touch(
                r.1,
                lens[idx],
                origins[j],
                lens[j],
            );
        if r.1 == origins[j] {
            assert(edge_gap(new, lens[idx], origins[j], lens[j], 0) <= t);
        } else if r.1 == origins[j] + lens[j] {
            assert(edge_gap(new, lens[idx], origins[j], lens[j], 1) <= t);
        } else if r.1 + lens[idx] == origins[j] {
            assert(edge_gap(new, lens[idx], origins[j], lens[j], 2) <= t);
        } else {
            assert(edge_gap(new, lens[idx], origins[j], lens[j], 3) <= t);
        }
    } else {
        assert forall|j: int, k: int|
            0 <= j < origins.len() && j != idx && 0 <= k < 4 && #[trigger] edge_gap(
                new,
                lens[idx],
                origins[j],
                lens[j],
                k,
            ) <= t implies abs_int(r.1 - new) <= edge_gap(new, lens[idx], origins[j], lens[j], k) by {
            assert(r.0 <= edge_gap(new, lens[idx], origins[j], lens[j], k));
        }
    }
}

/// `snap_position` obeys the snapping law on both axes independently.
pub proof fn law_snap_position(ms: Seq<Monitor>, idx: int, new_x: int, new_y: int, t: int)
    requires
        0 <= idx < ms.len(),
    ensures
        snapped(ms, idx, new_x, new_y, t).0 == snap_axis(x_origins(ms), x_lens(ms), ms.len() as int, idx, new_x, t).1,
        snapped(ms, idx, new_x, new_y, t).1 == snap_axis(y_origins(ms), y_lens(ms), ms.len() as int, idx, new_y, t).1,
        snapped(ms, idx, new_x, new_y, t).0 == new_x || abs_int(snapped(ms, idx, new_x, new_y, t).0 - new_x) <= t,
        snapped(ms, idx, new_x, new_y, t).1 == new_y || abs_int(snapped(ms, idx, new_x, new_y, t).1 - new_y) <= t,
{
    law_snap_axis(x_origins(ms), x_lens(ms), idx, new_x, t);
    law_snap_axis(y_origins(ms), y_lens(ms), idx, new_y, t);
}

/// Arranging leaves no gaps: each monitor starts where the one before it
/// ends, the first at 0, all on the top row.
pub proof fn law_arrange_no_gaps(ms: Seq<Monitor>, r: Seq<Monitor>, i: int)
    requires
        r.len() == ms.len(),
        forall|k: int| 0 <= k < ms.len() ==> #[trigger] r[k] == (Monitor {
            x: width_prefix(ms, k) as i32,
            y: 0,
            ..ms[k]
        }),
        row_fits(ms),
        0 <= i < ms.len(),
    ensures
        r[0].x == 0,
        r[i].y == 0,
        i + 1 < ms.len() ==> r[i + 1].x == r[i].x + (world_width_of(r[i]) as i32),
{
    assert(fits_i32(width_prefix(ms, i)));
    assert(fits_i32(width_prefix(ms, i + 1)) || i + 1 > ms.len());
    assert(world_width_of(r[i]) == world_width_of(ms[i]));
}

/// Two monitors cover a common area.
pub open spec fn overlap(a: Monitor, b: Monitor) -> bool {
    &&& a.x < right_edge_of(b)
    &&& right_edge_of(a) > b.x
    &&& a.y < bottom_edge_of(b)
    &&& bottom_edge_of(a) > b.y
}

/// Monitor `i` overlaps some other monitor.
pub open spec fn overlaps_other(ms: Seq<Monitor>, i: int) -> bool {
    exists|j: int| 0 <= j < ms.len() && j != i && #[trigger] overlap(ms[i], ms[j])
}

/// For each monitor, whether it overlaps any other one.
pub fn overlapping_monitors(monitors: &Vec<Monitor>) -> (flags: Vec<bool>)
    requires
        all_edges_fit(monitors@),
    ensures
        flags@.len() == monitors@.len(),
        forall|i: int| 0 <= i < monitors@.len() ==> #[trigger] flags@[i] == overlaps_other(monitors@, i),
{
    let mut flags: Vec<bool> = Vec::new();
    let mut i: usize = 0;
    while i < monitors.len()
        invariant
            i <= monitors.len(),
            all_edges_fit(monitors@),
            flags@.len() == i,
            forall|k: int| 0 <= k < i ==> #[trigger] flags@[k] == overlaps_other(monitors@, k),
        decreases monitors.len() - i,
    {
        let a = &monitors[i];
        assert(edges_fit(monitors@[i as int]));
        let ar = a.right_edge();
        let ab = a.bottom_edge();
        let mut hit = false;
        let mut j: usize = 0;
        while j < monitors.len()
            invariant
                i < monitors.len(),
                j <= monitors.len(),
                all_edges_fit(monitors@),
                *a == monitors@[i as int],
                ar == right_edge_of(*a),
                ab == bottom_edge_of(*a),
                hit == exists|k: int| 0 <= k < j && k != i && #[trigger] overlap(monitors@[i as int], monitors@[k]),
            decreases monitors.len() - j,
        {
            if j != i {
                let b = &monitors[j];
                assert(edges_fit(monitors@[j as int]));
                let o = a.x < b.right_edge() && ar > b.x && a.y < b.bottom_edge() && ab > b.y;
                assert(o == overlap(monitors@[i as int], monitors@[j as int]));
                if o {
                    hit = true;
                }
            }
            j = j + 1;
        }
        flags.push(hit);
        i = i + 1;
    }
    flags
}

/// Whether every monitor's edges fit in 32-bit coordinates.
pub fn check_edges(monitors: &Vec<Monitor>) -> (r: bool)
    ensures
        r == all_edges_fit(monitors@),
{
    let mut i: usize = 0;
    while i < monitors.len()
        invariant
            i <= monitors.len(),
            forall|k: int| 0 <= k < i ==> #[trigger] edges_fit(monitors@[k]),
        decreases monitors.len() - i,
    {
        let m = &monitors[i];
        let r = m.x as i64 + m.world_width() as i32 as i64;
        let b = m.y as i64 + m.world_height() as i32 as i64;
        if !(check_i32(r) && check_i32(b)) {
            assert(!edges_fit(monitors@[i as int]));
            return false;
        }
        i = i + 1;
    }
    true
}


/// Snapping measures each monitor as it lies on the desktop: a
/// quarter-turned monitor spans its mode's height across and its width
/// down. On each axis, whenever an edge of the moved monitor comes within
/// the threshold of an edge of another one, the result moves it by no more
/// than that gap and leaves it on an edge of some other monitor.
pub proof fn law_snap_desktop_edges(ms: Seq<Monitor>, idx: int, new_x: int, new_y: int, t: int)
    requires
        0 <= idx < ms.len(),
    ensures
        forall|j: int|
            0 <= j < ms.len() ==> #[trigger] x_lens(ms)[j] == ((if is_rotated(ms[j].transform) {
                ms[j].active_mode.height
            } else {
                ms[j].active_mode.width
            }) as i32) as int,
        forall|j: int|
            0 <= j < ms.len() ==> #[trigger] y_lens(ms)[j] == ((if is_rotated(ms[j].transform) {
                ms[j].active_mode.width
            } else {
                ms[j].active_mode.height
            }) as i32) as int,
        forall|j: int, k: int|
            0 <= j < ms.len() && j != idx && 0 <= k < 4 && #[trigger] edge_gap(
                new_x,
                x_lens(ms)[idx],
                ms[j].x as int,
                x_lens(ms)[j],
                k,
            ) <= t ==> {
                &&& abs_int(snapped(ms, idx, new_x, new_y, t).0 - new_x) <= edge_gap(
                    new_x,
                    x_lens(ms)[idx],
                    ms[j].x as int,
                    x_lens(ms)[j],
                    k,
                )
                &&& exists|j2: int|
                    0 <= j2 < ms.len() && j2 != idx && #[trigger] edges_touch(
                        snapped(ms, idx, new_x, new_y, t).0,
                        x_lens(ms)[idx],
                        ms[j2].x as int,
                        x_lens(ms)[j2],
                    )
            },
        forall|j: int, k: int|
            0 <= j < ms.len() && j != idx && 0 <= k < 4 && #[trigger] edge_gap(
                new_y,
                y_lens(ms)[idx],
                ms[j].y as int,
                y_lens(ms)[j],
                k,
            ) <= t ==> {
                &&& abs_int(snapped(ms, idx, new_x, new_y, t).1 - new_y) <= edge_gap(
                    new_y,
                    y_lens(ms)[idx],
                    ms[j].y as int,
                    y_lens(ms)[j],
                    k,
                )
                &&& exists|j2: int|
                    0 <= j2 < ms.len() && j2 != idx && #[trigger] edges_touch(
                        snapped(ms, idx, new_x, new_y, t).1,
                        y_lens(ms)[idx],
                        ms[j2].y as int,
                        y_lens(ms)[j2],
                    )
            },
{
    law_snap_axis(x_origins(ms), x_lens(ms), idx, new_x, t);
    lemma_snap_axis(x_origins(ms), x_lens(ms), ms.len() as int, idx, new_x, t);
    assert forall|j: int, k: int|
        0 <= j < ms.len() && j != idx && 0 <= k < 4 && #[trigger] edge_gap(
            new_x,
            x_lens(ms)[idx],
            ms[j].x as int,
            x_lens(ms)[j],
            k,
        ) <= t implies exists|j2: int|
        0 <= j2 < ms.len() && j2 != idx && #[trigger] edges_touch(
            snapped(ms, idx, new_x, new_y, t).0,
            x_lens(ms)[idx],
            ms[j2].x as int,
            x_lens(ms)[j2],
        ) by {
        assert(x_origins(ms)[j] == ms[j].x as int);
        assert(edge_gap(new_x, x_lens(ms)[idx], x_origins(ms)[j], x_lens(ms)[j], k) <= t);
        let j2 = choose|j2: int|
            0 <= j2 < ms.len() && j2 != idx && #[trigger] edges_touch(
                snapped(ms, idx, new_x, new_y, t).0,
                x_lens(ms)[idx],
                x_origins(ms)[j2],
                x_lens(ms)[j2],
            );
        assert(x_origins(ms)[j2] == ms[j2].x as int);
    }
    assert forall|j: int, k: int|
        0 <= j < ms.len() && j != idx && 0 <= k < 4 && #[trigger] edge_gap(
            new_x,
            x_lens(ms)[idx],
            ms[j].x as int,
            x_lens(ms)[j],
            k,
        ) <= t implies abs_int(snapped(ms, idx, new_x, new_y, t).0 - new_x) <= edge_gap(
            new_x,
            x_lens(ms)[idx],
            ms[j].x as int,
            x_lens(ms)[j],
            k,
        ) by {
        assert(x_origins(ms)[j] == ms[j].x as int);
    }
    law_snap_axis(y_origins(ms), y_lens(ms), idx, new_y, t);
    lemma_snap_axis(y_origins(ms), y_lens(ms), ms.len() as int, idx, new_y, t);
    assert forall|j: int, k: int|
        0 <= j < ms.len() && j != idx && 0 <= k < 4 && #[trigger] edge_gap(
            new_y,
            y_lens(ms)[idx],
            ms[j].y as int,
            y_lens(ms)[j],
            k,
        ) <= t implies exists|j2: int|
        0 <= j2 < ms.len() && j2 != idx && #[trigger] edges_touch(
            snapped(ms, idx, new_x, new_y, t).1,
            y_lens(ms)[idx],
            ms[j2].y as int,
            y_lens(ms)[j2],
        ) by {
        assert(y_origins(ms)[j] == ms[j].y as int);
        assert(edge_gap(new_y, y_lens(ms)[idx], y_origins(ms)[j], y_lens(ms)[j], k) <= t);
        let j2 = choose|j2: int|
            0 <= j2 < ms.len() && j2 != idx && #[trigger] edges_touch(
                snapped(ms, idx, new_x, new_y, t).1,
                y_lens(ms)[idx],
                y_origins(ms)[j2],
                y_lens(ms)[j2],
            );
        assert(y_origins(ms)[j2] == ms[j2].y as int);
    }
    assert forall|j: int, k: int|
        0 <= j < ms.len() && j != idx && 0 <= k < 4 && #[trigger] edge_gap(
            new_y,
            y_lens(ms)[idx],
            ms[j].y as int,
            y_lens(ms)[j],
            k,
        ) <= t implies abs_int(snapped(ms, idx, new_x, new_y, t).1 - new_y) <= edge_gap(
            new_y,
            y_lens(ms)[idx],
            ms[j].y as int,
            y_lens(ms)[j],
            k,
        ) by {
        assert(y_origins(ms)[j] == ms[j].y as int);
    }
}

} // verus!
