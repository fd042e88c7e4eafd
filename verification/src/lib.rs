//! A minimal brute-force terminal rasterizer: vector and triangle primitives,
//! a paired intensity/depth framebuffer with a resize/clear lifecycle, and a
//! per-triangle full-buffer scan-conversion pipeline with depth-tested writes.
//!
//! The framebuffer is generic over the depth cell type `D`. The display-side
//! pipeline instantiates `D` with a floating-point scalar whose lowest value
//! (`depth_floor`, standing for negative infinity) marks a never-written cell;
//! the geometry that decides hits and depth order is handed in by the caller,
//! cell by cell, so that everything the buffers do is checked here.
pub mod types;

use vstd::prelude::*;

use crate::types::spec_triangle_of;
use crate::types::Intersection;
use crate::types::Triangle;
use crate::types::Vector2;
use crate::types::Vertex;

verus! {

/// Glyph for an intensity byte: six bands of roughly equal width, from blank
/// (darkest) to `#` (brightest). Total over the whole byte range.
pub open spec fn spec_grey_to_utf8(color: u8) -> char {
    if color <= 41 {
        ' '
    } else if color <= 83 {
        '.'
    } else if color <= 125 {
        ':'
    } else if color <= 167 {
        '*'
    } else if color <= 209 {
        '8'
    } else {
        '#'
    }
}

/// The palette used by the example pipeline: maps a grey intensity byte to a
/// display character, covering every byte value.
pub fn grey_to_utf8(color: u8) -> (r: char)
    ensures
        r == spec_grey_to_utf8(color),
{
    if color <= 41 {
        ' '
    } else if color <= 83 {
        '.'
    } else if color <= 125 {
        ':'
    } else if color <= 167 {
        '*'
    } else if color <= 209 {
        '8'
    } else {
        '#'
    }
}

/// Number of blank lines printed before the grid on flush: a tenth of the
/// height, capped at five.
pub fn blank_lines(height: usize) -> (r: usize)
    ensures
        r == if height / 10 < 5 {
            height / 10
        } else {
            5
        },
{
    let tenth = height / 10;
    if tenth < 5 {
        tenth
    } else {
        5
    }
}

/// A grid of `height` rows of `width` cells each, every cell `fill`.
fn filled_grid<E: Copy>(width: usize, height: usize, fill: E) -> (r: Vec<Vec<E>>)
    ensures
        r@.len() == height,
        forall|i: int| 0 <= i < height ==> (#[trigger] r@[i])@.len() == width,
        forall|i: int, j: int| 0 <= i < height && 0 <= j < width ==> (#[trigger] r@[i]@[j]) == fill,
{
    let mut grid: Vec<Vec<E>> = Vec::new();
    let mut i: usize = 0;
    while i < height
        invariant
            i <= height,
            grid@.len() == i,
            forall|p: int| 0 <= p < i ==> (#[trigger] grid@[p])@.len() == width,
            forall|p: int, q: int| 0 <= p < i && 0 <= q < width ==> (#[trigger] grid@[p]@[q])
                == fill,
        decreases height - i,
    {
        let mut row: Vec<E> = Vec::new();
        let mut j: usize = 0;
        while j < width
            invariant
                j <= width,
                row@.len() == j,
                forall|q: int| 0 <= q < j ==> (#[trigger] row@[q]) == fill,
            decreases width - j,
        {
            row.push(fill);
            j += 1;
        }
        grid.push(row);
        i += 1;
    }
    grid
}

/// A grid reshaped to `height` rows of `width` cells: cells present in the old
/// grid keep their value, cells outside it get `fill`.
fn resized_grid<E: Copy>(old_grid: &Vec<Vec<E>>, width: usize, height: usize, fill: E) -> (r: Vec<
    Vec<E>,
>)
    ensures
        r@.len() == height,
        forall|i: int| 0 <= i < height ==> (#[trigger] r@[i])@.len() == width,
        forall|i: int, j: int|
            0 <= i < height && 0 <= j < width ==> (#[trigger] r@[i]@[j]) == if i
                < old_grid@.len() && j < old_grid@[i]@.len() {
                old_grid@[i]@[j]
            } else {
                fill
            },
{
    let mut grid: Vec<Vec<E>> = Vec::new();
    let mut i: usize = 0;
    while i < height
        invariant
            i <= height,
            grid@.len() == i,
            forall|p: int| 0 <= p < i ==> (#[trigger] grid@[p])@.len() == width,
            forall|p: int, q: int|
                0 <= p < i && 0 <= q < width ==> (#[trigger] grid@[p]@[q]) == if p
                    < old_grid@.len() && q < old_grid@[p]@.len() {
                    old_grid@[p]@[q]
                } else {
                    fill
                },
        decreases height - i,
    {
        let mut row: Vec<E> = Vec::new();
        let mut j: usize = 0;
        while j < width
            invariant
                j <= width,
                i < height,
                row@.len() == j,
                forall|q: int|
                    0 <= q < j ==> (#[trigger] row@[q]) == if i < old_grid@.len() && q
                        < old_grid@[i as int]@.len() {
                        old_grid@[i as int]@[q]
                    } else {
                        fill
                    },
            decreases width - j,
        {
            if i < old_grid.len() && j < old_grid[i].len() {
                row.push(old_grid[i][j]);
            } else {
                row.push(fill);
            }
            j += 1;
        }
        grid.push(row);
        i += 1;
    }
    grid
}

/// Relies on `terminal_size::terminal_size`: queries the attached terminal for
/// its size in character cells as `(columns, rows)`, `None` when none is
/// attached. The answer depends on the environment, so nothing is pinned here;
/// `clear` states what it does with every possible answer.
#[verifier::external_body]
fn terminal_dimensions() -> Option<(u16, u16)> {
    match terminal_size::terminal_size() {
        Some((terminal_size::Width(w), terminal_size::Height(h))) => Some((w, h)),
        None => None,
    }
}

/// Holds of a cell at normalized-space coordinates `(x, y)` when one of the
/// first `ntri` triangles of `indices` hit the cell at exactly these
/// coordinates and the cell now holds that hit's interpolated depth and an
/// intensity the pixel shader returned for that hit.
pub open spec fn cell_drawn<D: Copy, T: Vertex, HT, PS>(
    cur: TerminalGraphics<D>,
    shaded: Seq<T>,
    indices: Seq<(usize, usize, usize)>,
    ntri: int,
    hit_test: HT,
    pixel_shader: PS,
    x: usize,
    y: usize,
    w: usize,
    h: usize,
) -> bool where
    HT: Fn(&Triangle<T>, usize, usize, usize, usize) -> Option<Intersection<D>>,
    PS: Fn(&Triangle<T>, Vector2<D>) -> u8,
 {
    let rr = cur.spec_height() - 1 - y;
    exists|k: int, hit: Intersection<D>|
        #![trigger call_ensures(hit_test, (&spec_triangle_of(shaded, indices[k]), x, y, w, h), Some(hit))]
        {
            &&& 0 <= k < ntri
            &&& call_ensures(
                hit_test,
                (&spec_triangle_of(shaded, indices[k]), x, y, w, h),
                Some(hit),
            )
            &&& cur.depth_cell(rr, x as int) == hit.depth
            &&& call_ensures(
                pixel_shader,
                (&spec_triangle_of(shaded, indices[k]), hit.uv),
                cur.color_cell(rr, x as int),
            )
        }
}

/// Holds of a cell at normalized-space coordinates `(x, y)` after a draw pass
/// over the first `ntri` triangles of `indices`: either both of its grid
/// values are what they were in `pre`, or the cell was drawn.
pub open spec fn cell_kept_or_drawn<D: Copy, T: Vertex, HT, PS>(
    pre: TerminalGraphics<D>,
    cur: TerminalGraphics<D>,
    shaded: Seq<T>,
    indices: Seq<(usize, usize, usize)>,
    ntri: int,
    hit_test: HT,
    pixel_shader: PS,
    x: usize,
    y: usize,
    w: usize,
    h: usize,
) -> bool where
    HT: Fn(&Triangle<T>, usize, usize, usize, usize) -> Option<Intersection<D>>,
    PS: Fn(&Triangle<T>, Vector2<D>) -> u8,
 {
    let rr = cur.spec_height() - 1 - y;
    ||| (cur.color_cell(rr, x as int) == pre.color_cell(rr, x as int) && cur.depth_cell(
        rr,
        x as int,
    ) == pre.depth_cell(rr, x as int))
    ||| cell_drawn(cur, shaded, indices, ntri, hit_test, pixel_shader, x, y, w, h)
}

/// The hit test cannot miss the cell at `(x, y)`: every answer it may give
/// there, for any of the first `ntri` listed triangles, is a hit.
pub open spec fn surely_hits<D: Copy, T: Vertex, HT>(
    hit_test: HT,
    shaded: Seq<T>,
    indices: Seq<(usize, usize, usize)>,
    ntri: int,
    x: usize,
    y: usize,
    w: usize,
    h: usize,
) -> bool where HT: Fn(&Triangle<T>, usize, usize, usize, usize) -> Option<Intersection<D>> {
    forall|k: int, o: Option<Intersection<D>>|
        0 <= k < ntri && #[trigger] call_ensures(
            hit_test,
            (&spec_triangle_of(shaded, indices[k]), x, y, w, h),
            o,
        ) ==> o is Some
}

/// The depth order cannot refuse: every answer it may give is acceptance.
pub open spec fn depth_always_passes<D: Copy, DG>(depth_ge: DG) -> bool where DG: Fn(
    D,
    D,
) -> bool {
    forall|a: D, b: D, r: bool| #[trigger] call_ensures(depth_ge, (a, b), r) ==> r
}

/// One scan step of one triangle at one cell: the cell's `(depth, intensity)`
/// pair turns from `cur` into `next`. It may be overwritten only by a reported
/// hit whose depth the order accepted against the current depth — then the new
/// depth is the hit's and the new intensity is a pixel-shader answer for that
/// hit — and it may stay as it is only when the hit test may miss the cell or
/// the order may refuse a reported hit's depth.
pub open spec fn cell_step<D: Copy, T: Vertex, HT, PS, DG>(
    hit_test: HT,
    pixel_shader: PS,
    depth_ge: DG,
    shaded: Seq<T>,
    idx: (usize, usize, usize),
    x: usize,
    y: usize,
    w: usize,
    h: usize,
    cur: (D, u8),
    next: (D, u8),
) -> bool where
    HT: Fn(&Triangle<T>, usize, usize, usize, usize) -> Option<Intersection<D>>,
    PS: Fn(&Triangle<T>, Vector2<D>) -> u8,
    DG: Fn(D, D) -> bool,
 {
    ||| (exists|hit: Intersection<D>|
        #![trigger call_ensures(hit_test, (&spec_triangle_of(shaded, idx), x, y, w, h), Some(hit))]
        {
            &&& call_ensures(hit_test, (&spec_triangle_of(shaded, idx), x, y, w, h), Some(hit))
            &&& call_ensures(depth_ge, (hit.depth, cur.0), true)
            &&& next.0 == hit.depth
            &&& call_ensures(pixel_shader, (&spec_triangle_of(shaded, idx), hit.uv), next.1)
        })
    ||| (next == cur && call_ensures(
        hit_test,
        (&spec_triangle_of(shaded, idx), x, y, w, h),
        Option::<Intersection<D>>::None,
    ))
    ||| (next == cur && exists|hit: Intersection<D>|
        #![trigger call_ensures(hit_test, (&spec_triangle_of(shaded, idx), x, y, w, h), Some(hit))]
        {
            &&& call_ensures(hit_test, (&spec_triangle_of(shaded, idx), x, y, w, h), Some(hit))
            &&& call_ensures(depth_ge, (hit.depth, cur.0), false)
        })
}

/// The admissible outcome chain of one cell over the first `ntri` triangles of
/// the index list, processed in order: `end` is reachable from `start` by one
/// `cell_step` per triangle. This is the depth-compositing rule of the scan:
/// each triangle in turn may overwrite the cell only through an accepted hit
/// against the depth the cell holds at that point.
pub open spec fn cell_chain<D: Copy, T: Vertex, HT, PS, DG>(
    hit_test: HT,
    pixel_shader: PS,
    depth_ge: DG,
    shaded: Seq<T>,
    indices: Seq<(usize, usize, usize)>,
    ntri: int,
    x: usize,
    y: usize,
    w: usize,
    h: usize,
    start: (D, u8),
    end: (D, u8),
) -> bool where
    HT: Fn(&Triangle<T>, usize, usize, usize, usize) -> Option<Intersection<D>>,
    PS: Fn(&Triangle<T>, Vector2<D>) -> u8,
    DG: Fn(D, D) -> bool,

    decreases ntri,
{
    if ntri <= 0 {
        end == start
    } else {
        exists|mid: (D, u8)|
            #![trigger cell_step(hit_test, pixel_shader, depth_ge, shaded, indices[ntri - 1], x, y, w, h, mid, end)]
            {
                &&& cell_chain(
                    hit_test,
                    pixel_shader,
                    depth_ge,
                    shaded,
                    indices,
                    ntri - 1,
                    x,
                    y,
                    w,
                    h,
                    start,
                    mid,
                )
                &&& cell_step(
                    hit_test,
                    pixel_shader,
                    depth_ge,
                    shaded,
                    indices[ntri - 1],
                    x,
                    y,
                    w,
                    h,
                    mid,
                    end,
                )
            }
    }
}

/// A chain over `n` triangles extends by one more step to a chain over `n + 1`.
proof fn lemma_chain_snoc<D: Copy, T: Vertex, HT, PS, DG>(
    hit_test: HT,
    pixel_shader: PS,
    depth_ge: DG,
    shaded: Seq<T>,
    indices: Seq<(usize, usize, usize)>,
    n: int,
    x: usize,
    y: usize,
    w: usize,
    h: usize,
    start: (D, u8),
    mid: (D, u8),
    end: (D, u8),
) where
    HT: Fn(&Triangle<T>, usize, usize, usize, usize) -> Option<Intersection<D>>,
    PS: Fn(&Triangle<T>, Vector2<D>) -> u8,
    DG: Fn(D, D) -> bool,

    requires
        n >= 0,
        cell_chain(hit_test, pixel_shader, depth_ge, shaded, indices, n, x, y, w, h, start, mid),
        cell_step(hit_test, pixel_shader, depth_ge, shaded, indices[n], x, y, w, h, mid, end),
    ensures
        cell_chain(
            hit_test,
            pixel_shader,
            depth_ge,
            shaded,
            indices,
            n + 1,
            x,
            y,
            w,
            h,
            start,
            end,
        ),
{
    assert(cell_step(
        hit_test,
        pixel_shader,
        depth_ge,
        shaded,
        indices[(n + 1) - 1],
        x,
        y,
        w,
        h,
        mid,
        end,
    ));
}

/// Law of depth compositing: along any admissible outcome chain, under a depth
/// order that accepts only by a transitive relation `leq` (read `leq(a, b)` as
/// "`b` lies at or below `a`"), the stored depth never decreases — the final
/// depth either is the starting one or stands in the relation to it.
pub proof fn lemma_chain_depth_monotone<D: Copy, T: Vertex, HT, PS, DG>(
    hit_test: HT,
    pixel_shader: PS,
    depth_ge: DG,
    shaded: Seq<T>,
    indices: Seq<(usize, usize, usize)>,
    ntri: int,
    x: usize,
    y: usize,
    w: usize,
    h: usize,
    start: (D, u8),
    end: (D, u8),
    leq: spec_fn(D, D) -> bool,
) where
    HT: Fn(&Triangle<T>, usize, usize, usize, usize) -> Option<Intersection<D>>,
    PS: Fn(&Triangle<T>, Vector2<D>) -> u8,
    DG: Fn(D, D) -> bool,

    requires
        cell_chain(hit_test, pixel_shader, depth_ge, shaded, indices, ntri, x, y, w, h, start, end),
        forall|a: D, b: D| #[trigger] call_ensures(depth_ge, (a, b), true) ==> leq(a, b),
        forall|a: D, b: D, c: D| #![trigger leq(a, b), leq(b, c)] leq(a, b) && leq(b, c) ==> leq(a, c),
    ensures
        end == start || leq(end.0, start.0),
    decreases ntri,
{
    if ntri > 0 {
        assert(cell_chain(
            hit_test,
            pixel_shader,
            depth_ge,
            shaded,
            indices,
            ntri,
            x,
            y,
            w,
            h,
            start,
            end,
        ));
        assert(exists|mid: (D, u8)|
            #![trigger cell_step(hit_test, pixel_shader, depth_ge, shaded, indices[ntri - 1], x, y, w, h, mid, end)]
            {
                &&& cell_chain(
                    hit_test,
                    pixel_shader,
                    depth_ge,
                    shaded,
                    indices,
                    ntri - 1,
                    x,
                    y,
                    w,
                    h,
                    start,
                    mid,
                )
                &&& cell_step(
                    hit_test,
                    pixel_shader,
                    depth_ge,
                    shaded,
                    indices[ntri - 1],
                    x,
                    y,
                    w,
                    h,
                    mid,
                    end,
                )
            });
        let mid = choose|mid: (D, u8)|
            #![trigger cell_step(hit_test, pixel_shader, depth_ge, shaded, indices[ntri - 1], x, y, w, h, mid, end)]
            {
                &&& cell_chain(
                    hit_test,
                    pixel_shader,
                    depth_ge,
                    shaded,
                    indices,
                    ntri - 1,
                    x,
                    y,
                    w,
                    h,
                    start,
                    mid,
                )
                &&& cell_step(
                    hit_test,
                    pixel_shader,
                    depth_ge,
                    shaded,
                    indices[ntri - 1],
                    x,
                    y,
                    w,
                    h,
                    mid,
                    end,
                )
            };
        lemma_chain_depth_monotone(
            hit_test,
            pixel_shader,
            depth_ge,
            shaded,
            indices,
            ntri - 1,
            x,
            y,
            w,
            h,
            start,
            mid,
            leq,
        );
        if end != mid {
            let hit = choose|hit: Intersection<D>|
                {
                    &&& call_ensures(
                        hit_test,
                        (&spec_triangle_of(shaded, indices[ntri - 1]), x, y, w, h),
                        Some(hit),
                    )
                    &&& call_ensures(depth_ge, (hit.depth, mid.0), true)
                    &&& end.0 == hit.depth
                    &&& call_ensures(
                        pixel_shader,
                        (&spec_triangle_of(shaded, indices[ntri - 1]), hit.uv),
                        end.1,
                    )
                };
            assert(leq(end.0, mid.0));
        }
    }
}

/// A cell that is kept-or-drawn over the first `n1` triangles is so over any
/// longer prefix of the index list.
proof fn lemma_cell_mono<D: Copy, T: Vertex, HT, PS>(
    pre: TerminalGraphics<D>,
    cur: TerminalGraphics<D>,
    shaded: Seq<T>,
    indices: Seq<(usize, usize, usize)>,
    n1: int,
    n2: int,
    hit_test: HT,
    pixel_shader: PS,
    x: usize,
    y: usize,
    w: usize,
    h: usize,
) where
    HT: Fn(&Triangle<T>, usize, usize, usize, usize) -> Option<Intersection<D>>,
    PS: Fn(&Triangle<T>, Vector2<D>) -> u8,

    requires
        n1 <= n2,
        cell_kept_or_drawn(pre, cur, shaded, indices, n1, hit_test, pixel_shader, x, y, w, h),
    ensures
        cell_kept_or_drawn(pre, cur, shaded, indices, n2, hit_test, pixel_shader, x, y, w, h),
{
    let rr = cur.spec_height() - 1 - y;
    if !(cur.color_cell(rr, x as int) == pre.color_cell(rr, x as int) && cur.depth_cell(
        rr,
        x as int,
    ) == pre.depth_cell(rr, x as int)) {
        let (k, hit) = choose|k: int, hit: Intersection<D>|
            {
                &&& 0 <= k < n1
                &&& call_ensures(
                    hit_test,
                    (&spec_triangle_of(shaded, indices[k]), x, y, w, h),
                    Some(hit),
                )
                &&& cur.depth_cell(rr, x as int) == hit.depth
                &&& call_ensures(
                    pixel_shader,
                    (&spec_triangle_of(shaded, indices[k]), hit.uv),
                    cur.color_cell(rr, x as int),
                )
            };
        assert(call_ensures(
            hit_test,
            (&spec_triangle_of(shaded, indices[k]), x, y, w, h),
            Some(hit),
        ));
    }
}

/// Law of the scan conversion: a cell that no listed triangle can hit keeps
/// both of its grid values across a draw pass. Whenever every answer the hit
/// test can give for this cell and any of the first `n` triangles is a miss,
/// the kept-or-drawn guarantee of `draw` collapses to kept.
pub proof fn lemma_missed_cell_kept<D: Copy, T: Vertex, HT, PS>(
    pre: TerminalGraphics<D>,
    cur: TerminalGraphics<D>,
    shaded: Seq<T>,
    indices: Seq<(usize, usize, usize)>,
    n: int,
    hit_test: HT,
    pixel_shader: PS,
    x: usize,
    y: usize,
    w: usize,
    h: usize,
) where
    HT: Fn(&Triangle<T>, usize, usize, usize, usize) -> Option<Intersection<D>>,
    PS: Fn(&Triangle<T>, Vector2<D>) -> u8,

    requires
        cell_kept_or_drawn(pre, cur, shaded, indices, n, hit_test, pixel_shader, x, y, w, h),
        forall|k: int, o: Option<Intersection<D>>|
            0 <= k < n && #[trigger] call_ensures(
                hit_test,
                (&spec_triangle_of(shaded, indices[k]), x, y, w, h),
                o,
            ) ==> o is None,
    ensures
        cur.color_cell(cur.spec_height() - 1 - y, x as int) == pre.color_cell(
            cur.spec_height() - 1 - y,
            x as int,
        ),
        cur.depth_cell(cur.spec_height() - 1 - y, x as int) == pre.depth_cell(
            cur.spec_height() - 1 - y,
            x as int,
        ),
{
    let rr = cur.spec_height() - 1 - y;
    if !(cur.color_cell(rr, x as int) == pre.color_cell(rr, x as int) && cur.depth_cell(
        rr,
        x as int,
    ) == pre.depth_cell(rr, x as int)) {
        let (k, hit) = choose|k: int, hit: Intersection<D>|
            {
                &&& 0 <= k < n
                &&& call_ensures(
                    hit_test,
                    (&spec_triangle_of(shaded, indices[k]), x, y, w, h),
                    Some(hit),
                )
                &&& cur.depth_cell(rr, x as int) == hit.depth
                &&& call_ensures(
                    pixel_shader,
                    (&spec_triangle_of(shaded, indices[k]), hit.uv),
                    cur.color_cell(rr, x as int),
                )
            };
        assert(call_ensures(
            hit_test,
            (&spec_triangle_of(shaded, indices[k]), x, y, w, h),
            Some(hit),
        ));
        assert(false);
    }
}

/// Kept-or-drawn carries over from one buffer state to another that holds the
/// same two values at the cell in question.
proof fn lemma_cell_frame<D: Copy, T: Vertex, HT, PS>(
    pre: TerminalGraphics<D>,
    a: TerminalGraphics<D>,
    b: TerminalGraphics<D>,
    shaded: Seq<T>,
    indices: Seq<(usize, usize, usize)>,
    n: int,
    hit_test: HT,
    pixel_shader: PS,
    x: usize,
    y: usize,
    w: usize,
    h: usize,
) where
    HT: Fn(&Triangle<T>, usize, usize, usize, usize) -> Option<Intersection<D>>,
    PS: Fn(&Triangle<T>, Vector2<D>) -> u8,

    requires
        cell_kept_or_drawn(pre, a, shaded, indices, n, hit_test, pixel_shader, x, y, w, h),
        b.spec_height() == a.spec_height(),
        b.color_cell(a.spec_height() - 1 - y, x as int) == a.color_cell(
            a.spec_height() - 1 - y,
            x as int,
        ),
        b.depth_cell(a.spec_height() - 1 - y, x as int) == a.depth_cell(
            a.spec_height() - 1 - y,
            x as int,
        ),
    ensures
        cell_kept_or_drawn(pre, b, shaded, indices, n, hit_test, pixel_shader, x, y, w, h),
{
    let rr = a.spec_height() - 1 - y;
    if !(a.color_cell(rr, x as int) == pre.color_cell(rr, x as int) && a.depth_cell(rr, x as int)
        == pre.depth_cell(rr, x as int)) {
        let (k, hit) = choose|k: int, hit: Intersection<D>|
            {
                &&& 0 <= k < n
                &&& call_ensures(
                    hit_test,
                    (&spec_triangle_of(shaded, indices[k]), x, y, w, h),
                    Some(hit),
                )
                &&& a.depth_cell(rr, x as int) == hit.depth
                &&& call_ensures(
                    pixel_shader,
                    (&spec_triangle_of(shaded, indices[k]), hit.uv),
                    a.color_cell(rr, x as int),
                )
            };
        assert(call_ensures(
            hit_test,
            (&spec_triangle_of(shaded, indices[k]), x, y, w, h),
            Some(hit),
        ));
    }
}

/// A cell that is drawn over the first `n1` triangles is drawn over any
/// longer prefix of the index list.
proof fn lemma_drawn_mono<D: Copy, T: Vertex, HT, PS>(
    cur: TerminalGraphics<D>,
    shaded: Seq<T>,
    indices: Seq<(usize, usize, usize)>,
    n1: int,
    n2: int,
    hit_test: HT,
    pixel_shader: PS,
    x: usize,
    y: usize,
    w: usize,
    h: usize,
) where
    HT: Fn(&Triangle<T>, usize, usize, usize, usize) -> Option<Intersection<D>>,
    PS: Fn(&Triangle<T>, Vector2<D>) -> u8,

    requires
        n1 <= n2,
        cell_drawn(cur, shaded, indices, n1, hit_test, pixel_shader, x, y, w, h),
    ensures
        cell_drawn(cur, shaded, indices, n2, hit_test, pixel_shader, x, y, w, h),
{
    let rr = cur.spec_height() - 1 - y;
    let (k, hit) = choose|k: int, hit: Intersection<D>|
        {
            &&& 0 <= k < n1
            &&& call_ensures(
                hit_test,
                (&spec_triangle_of(shaded, indices[k]), x, y, w, h),
                Some(hit),
            )
            &&& cur.depth_cell(rr, x as int) == hit.depth
            &&& call_ensures(
                pixel_shader,
                (&spec_triangle_of(shaded, indices[k]), hit.uv),
                cur.color_cell(rr, x as int),
            )
        };
    assert(call_ensures(hit_test, (&spec_triangle_of(shaded, indices[k]), x, y, w, h), Some(hit)));
}

/// Drawn carries over from one buffer state to another that holds the same
/// two values at the cell in question.
proof fn lemma_drawn_frame<D: Copy, T: Vertex, HT, PS>(
    a: TerminalGraphics<D>,
    b: TerminalGraphics<D>,
    shaded: Seq<T>,
    indices: Seq<(usize, usize, usize)>,
    n: int,
    hit_test: HT,
    pixel_shader: PS,
    x: usize,
    y: usize,
    w: usize,
    h: usize,
) where
    HT: Fn(&Triangle<T>, usize, usize, usize, usize) -> Option<Intersection<D>>,
    PS: Fn(&Triangle<T>, Vector2<D>) -> u8,

    requires
        cell_drawn(a, shaded, indices, n, hit_test, pixel_shader, x, y, w, h),
        b.spec_height() == a.spec_height(),
        b.color_cell(a.spec_height() - 1 - y, x as int) == a.color_cell(
            a.spec_height() - 1 - y,
            x as int,
        ),
        b.depth_cell(a.spec_height() - 1 - y, x as int) == a.depth_cell(
            a.spec_height() - 1 - y,
            x as int,
        ),
    ensures
        cell_drawn(b, shaded, indices, n, hit_test, pixel_shader, x, y, w, h),
{
    let rr = a.spec_height() - 1 - y;
    let (k, hit) = choose|k: int, hit: Intersection<D>|
        {
            &&& 0 <= k < n
            &&& call_ensures(
                hit_test,
                (&spec_triangle_of(shaded, indices[k]), x, y, w, h),
                Some(hit),
            )
            &&& a.depth_cell(rr, x as int) == hit.depth
            &&& call_ensures(
                pixel_shader,
                (&spec_triangle_of(shaded, indices[k]), hit.uv),
                a.color_cell(rr, x as int),
            )
        };
    assert(call_ensures(hit_test, (&spec_triangle_of(shaded, indices[k]), x, y, w, h), Some(hit)));
}

/// The rasterizer state: an intensity grid and a depth grid of identical
/// dimensions (rows outer, columns inner). `depth_floor` is the depth value of
/// a never-written cell; the display pipeline passes its scalar's negative
/// infinity.
pub struct TerminalGraphics<D: Copy> {
    pub draw_buffer: Vec<Vec<u8>>,
    pub depth_buffer: Vec<Vec<D>>,
    pub depth_floor: D,
}

impl<D: Copy> TerminalGraphics<D> {
    /// Number of rows of both grids.
    pub open spec fn spec_height(self) -> int {
        self.draw_buffer@.len() as int
    }

    /// Number of cells per row of both grids.
    pub open spec fn spec_width(self) -> int {
        self.draw_buffer@[0]@.len() as int
    }

    /// Well-formed: at least one row, and the two grids are rectangular with
    /// identical dimensions.
    pub open spec fn wf(self) -> bool {
        &&& self.draw_buffer@.len() >= 1
        &&& self.depth_buffer@.len() == self.draw_buffer@.len()
        &&& forall|r: int|
            0 <= r < self.spec_height() ==> (#[trigger] self.draw_buffer@[r])@.len()
                == self.spec_width()
        &&& forall|r: int|
            0 <= r < self.spec_height() ==> (#[trigger] self.depth_buffer@[r])@.len()
                == self.spec_width()
    }

    /// Intensity of the cell at row `r`, column `c` of the stored grid.
    pub open spec fn color_cell(self, r: int, c: int) -> u8 {
        self.draw_buffer@[r]@[c]
    }

    /// Depth of the cell at row `r`, column `c` of the stored grid.
    pub open spec fn depth_cell(self, r: int, c: int) -> D {
        self.depth_buffer@[r]@[c]
    }

    /// The `(depth, intensity)` pair the cell at normalized-space coordinates
    /// `(x, y)` holds, through the row flip.
    pub open spec fn pair_at(self, x: usize, y: usize) -> (D, u8) {
        (
            self.depth_cell(self.spec_height() - 1 - y, x as int),
            self.color_cell(self.spec_height() - 1 - y, x as int),
        )
    }

    /// Both grids have exactly `width` by `height` cells, every intensity cell
    /// zero and every depth cell at the floor.
    pub open spec fn is_blank(self, width: int, height: int) -> bool {
        &&& self.spec_width() == width
        &&& self.spec_height() == height
        &&& forall|r: int, c: int|
            0 <= r < height && 0 <= c < width ==> (#[trigger] self.color_cell(r, c)) == 0
        &&& forall|r: int, c: int|
            0 <= r < height && 0 <= c < width ==> (#[trigger] self.depth_cell(r, c))
                == self.depth_floor
    }

    /// A framebuffer of the given dimensions, all cells reset.
    pub fn new(width: usize, height: usize, depth_floor: D) -> (r: TerminalGraphics<D>)
        requires
            height >= 1,
        ensures
            r.wf(),
            r.depth_floor == depth_floor,
            r.is_blank(width as int, height as int),
    {
        TerminalGraphics {
            draw_buffer: filled_grid(width, height, 0u8),
            depth_buffer: filled_grid(width, height, depth_floor),
            depth_floor,
        }
    }

    /// Current dimensions as `(width, height)`.
    pub fn get_dimensions(&self) -> (r: (usize, usize))
        requires
            self.wf(),
        ensures
            r.0 == self.spec_width(),
            r.1 == self.spec_height(),
    {
        (self.draw_buffer[0].len(), self.draw_buffer.len())
    }

    /// Reshape both grids to `width` by `height`: overlapping cells keep their
    /// values, rows and columns beyond the old shape are reset.
    pub fn resize(&mut self, width: usize, height: usize)
        requires
            old(self).wf(),
            height >= 1,
        ensures
            final(self).wf(),
            final(self).depth_floor == old(self).depth_floor,
            final(self).spec_width() == width,
            final(self).spec_height() == height,
            forall|r: int, c: int|
                0 <= r < height && 0 <= c < width ==> (#[trigger] final(self).color_cell(r, c))
                    == if r < old(self).spec_height() && c < old(self).spec_width() {
                    old(self).color_cell(r, c)
                } else {
                    0u8
                },
            forall|r: int, c: int|
                0 <= r < height && 0 <= c < width ==> (#[trigger] final(self).depth_cell(r, c))
                    == if r < old(self).spec_height() && c < old(self).spec_width() {
                    old(self).depth_cell(r, c)
                } else {
                    final(self).depth_floor
                },
    {
        let ghost pre = *self;
        self.draw_buffer = resized_grid(&self.draw_buffer, width, height, 0u8);
        self.depth_buffer = resized_grid(&self.depth_buffer, width, height, self.depth_floor);
        proof {
            assert forall|r: int, c: int| 0 <= r < height && 0 <= c < width implies (
            #[trigger] self.color_cell(r, c)) == if r < pre.spec_height() && c
                < pre.spec_width() {
                pre.color_cell(r, c)
            } else {
                0u8
            } by {
                if r < pre.spec_height() {
                    assert(pre.draw_buffer@[r]@.len() == pre.spec_width());
                }
            }
            assert forall|r: int, c: int| 0 <= r < height && 0 <= c < width implies (
            #[trigger] self.depth_cell(r, c)) == if r < pre.spec_height() && c
                < pre.spec_width() {
                pre.depth_cell(r, c)
            } else {
                self.depth_floor
            } by {
                if r < pre.spec_height() {
                    assert(pre.depth_buffer@[r]@.len() == pre.spec_width());
                }
            }
        }
    }

    /// Reset every intensity cell to zero and every depth cell to the floor.
    /// With `auto_resize` set, first ask the terminal for its size and, when it
    /// answers with at least two rows, reshape to one less than the reported
    /// size in each direction (the margin avoids wrap-around on exact-width
    /// terminals); otherwise the dimensions stay as they are.
    pub fn clear(&mut self, auto_resize: bool)
        requires
            old(self).wf(),
        ensures
            final(self).wf(),
            final(self).depth_floor == old(self).depth_floor,
            final(self).is_blank(final(self).spec_width(), final(self).spec_height()),
            !auto_resize ==> final(self).spec_width() == old(self).spec_width()
                && final(self).spec_height() == old(self).spec_height(),
    {
        if auto_resize {
            self.clear_with_size(terminal_dimensions());
        } else {
            self.clear_with_size(None);
        }
    }

    /// Reset as `clear` does, reshaping first to one less than `size` in each
    /// direction when a size with at least two rows is given. This is `clear`
    /// with the terminal's answer handed in, so the whole effect is pinned.
    pub fn clear_with_size(&mut self, size: Option<(u16, u16)>)
        requires
            old(self).wf(),
        ensures
            final(self).wf(),
            final(self).depth_floor == old(self).depth_floor,
            final(self).is_blank(final(self).spec_width(), final(self).spec_height()),
            match size {
                Some((w, h)) => if w >= 1 && h >= 2 {
                    final(self).spec_width() == w - 1 && final(self).spec_height() == h - 1
                } else {
                    final(self).spec_width() == old(self).spec_width() && final(self).spec_height()
                        == old(self).spec_height()
                },
                None => final(self).spec_width() == old(self).spec_width()
                    && final(self).spec_height() == old(self).spec_height(),
            },
    {
        if let Some((w, h)) = size {
            if w >= 1 && h >= 2 {
                self.resize((w - 1) as usize, (h - 1) as usize);
            }
        }
        let dims = self.get_dimensions();
        self.draw_buffer = filled_grid(dims.0, dims.1, 0u8);
        self.depth_buffer = filled_grid(dims.0, dims.1, self.depth_floor);
    }

    /// Write one cell of both grids. `(x, y)` are normalized-space cell
    /// coordinates: `y` counts from the visual bottom, so the write lands in
    /// stored row `height - 1 - y` (the row flip that keeps output upright).
    pub fn write_pixel(&mut self, x: usize, y: usize, color: u8, depth: D)
        requires
            old(self).wf(),
            x < old(self).spec_width(),
            y < old(self).spec_height(),
        ensures
            final(self).wf(),
            final(self).depth_floor == old(self).depth_floor,
            final(self).spec_width() == old(self).spec_width(),
            final(self).spec_height() == old(self).spec_height(),
            final(self).color_cell(final(self).spec_height() - 1 - y, x as int) == color,
            final(self).depth_cell(final(self).spec_height() - 1 - y, x as int) == depth,
            forall|r: int, c: int|
                0 <= r < final(self).spec_height() && 0 <= c < final(self).spec_width() && !(r
                    == final(self).spec_height() - 1 - y && c == x) ==> (#[trigger] final(
                    self).color_cell(r, c)) == old(self).color_cell(r, c)
                    && final(self).depth_cell(r, c) == old(self).depth_cell(r, c),
    {
        let y_index = self.draw_buffer.len() - 1 - y;
        self.draw_buffer[y_index][x] = color;
        self.depth_buffer[y_index][x] = depth;
    }

    /// Intensity of the cell at normalized-space coordinates `(x, y)`, reading
    /// through the same row flip that `write_pixel` uses.
    pub fn pixel_at(&self, x: usize, y: usize) -> (r: u8)
        requires
            self.wf(),
            x < self.spec_width(),
            y < self.spec_height(),
        ensures
            r == self.color_cell(self.spec_height() - 1 - y, x as int),
    {
        let y_index = self.draw_buffer.len() - 1 - y;
        self.draw_buffer[y_index][x]
    }

    /// Depth of the cell at normalized-space coordinates `(x, y)`, reading
    /// through the same row flip that `write_pixel` uses.
    pub fn depth_at(&self, x: usize, y: usize) -> (r: D)
        requires
            self.wf(),
            x < self.spec_width(),
            y < self.spec_height(),
        ensures
            r == self.depth_cell(self.spec_height() - 1 - y, x as int),
    {
        let y_index = self.depth_buffer.len() - 1 - y;
        self.depth_buffer[y_index][x]
    }

    /// Law of the buffer lifecycle: a `resize` to `(w, h)` followed by a
    /// `clear` that keeps the dimensions leaves exactly the blank `(w, h)`
    /// buffer — the dimensions are `(w, h)`, every intensity cell is zero and
    /// every depth cell is at the floor. The two `requires` groups are what
    /// `resize(w, h)` and a dimension-keeping `clear` respectively ensure.
    pub proof fn lemma_resize_then_clear(resized: Self, cleared: Self, w: int, h: int)
        requires
            resized.spec_width() == w,
            resized.spec_height() == h,
            cleared.spec_width() == resized.spec_width(),
            cleared.spec_height() == resized.spec_height(),
            cleared.is_blank(cleared.spec_width(), cleared.spec_height()),
        ensures
            cleared.is_blank(w, h),
    {
    }

    /// The default vertex shader: identity, the shaded vertex is the input,
    /// component for component.
    pub fn vertex_shader<T: Copy>(vertex: &T) -> (r: T)
        ensures
            r == *vertex,
    {
        *vertex
    }

    /// The draw pipeline. First every input vertex is shaded into the scratch
    /// array at the same position. Then, for each index triple in order, a
    /// triangle is built from the shaded vertices and every cell of the buffer
    /// is scanned: where `hit_test` reports an intersection for the cell's
    /// coordinates and `depth_ge` orders its depth at or above the stored one,
    /// both grids are overwritten at the flipped row, the intensity coming
    /// from `pixel_shader`.
    ///
    /// The geometry is the caller's: `hit_test` maps a cell to the normalized
    /// square, solves the barycentric system and applies the inclusion rule,
    /// and `depth_ge` is the non-strict depth order, so later triangles win
    /// exact ties. Whatever they answer, the buffers change only as stated:
    /// dimensions are kept, and every cell either keeps both of its values or
    /// holds the depth and a shader intensity of a reported hit of one of the
    /// listed triangles at that very cell. The scan cannot be skipped: a cell
    /// that the hit test can only hit, under a depth order that can only
    /// accept, is surely drawn. And each cell's final `(depth, intensity)`
    /// pair is the end of an admissible outcome chain (`cell_chain`) over the
    /// triangles in list order: every overwrite along it went through a hit
    /// whose depth the order accepted against the depth the cell held at that
    /// point, and a step may stand still only where a miss or a refusal was
    /// possible — the depth-compositing rule, from which a deterministic
    /// order yields last-wins on accepted ties, skip on refused depths, and,
    /// by `lemma_chain_depth_monotone`, a stored depth that never decreases.
    #[verifier::loop_isolation(false)]
    pub fn draw<T: Vertex, PS, VS, HT, DG>(
        &mut self,
        vertices: &[T],
        vertex_scratch: &mut Vec<T>,
        indices: &[(usize, usize, usize)],
        pixel_shader: PS,
        vertex_shader: VS,
        hit_test: HT,
        depth_ge: DG,
    ) where
        PS: Fn(&Triangle<T>, Vector2<D>) -> u8,
        VS: Fn(&T) -> T,
        HT: Fn(&Triangle<T>, usize, usize, usize, usize) -> Option<Intersection<D>>,
        DG: Fn(D, D) -> bool,

        requires
            old(self).wf(),
            old(vertex_scratch)@.len() >= vertices@.len(),
            forall|v: &T| call_requires(vertex_shader, (v,)),
            forall|t: &Triangle<T>, uv: Vector2<D>| call_requires(pixel_shader, (t, uv)),
            forall|t: &Triangle<T>, x: usize, y: usize, w: usize, h: usize|
                call_requires(hit_test, (t, x, y, w, h)),
            forall|a: D, b: D| call_requires(depth_ge, (a, b)),
            forall|k: int|
                0 <= k < indices@.len() ==> (#[trigger] indices@[k]).0 < vertices@.len()
                    && indices@[k].1 < vertices@.len() && indices@[k].2 < vertices@.len(),
        ensures
            final(self).wf(),
            final(self).depth_floor == old(self).depth_floor,
            final(self).spec_width() == old(self).spec_width(),
            final(self).spec_height() == old(self).spec_height(),
            final(vertex_scratch)@.len() == old(vertex_scratch)@.len(),
            forall|i: int|
                0 <= i < vertices@.len() ==> call_ensures(
                    vertex_shader,
                    (&vertices@[i],),
                    #[trigger] final(vertex_scratch)@[i],
                ),
            forall|i: int|
                vertices@.len() <= i < old(vertex_scratch)@.len() ==> final(vertex_scratch)@[i]
                    == old(vertex_scratch)@[i],
            forall|x: usize, y: usize|
                x < old(self).spec_width() && y < old(self).spec_height()
                    ==> #[trigger] cell_kept_or_drawn(
                    *old(self),
                    *final(self),
                    final(vertex_scratch)@,
                    indices@,
                    indices@.len() as int,
                    hit_test,
                    pixel_shader,
                    x,
                    y,
                    old(self).spec_width() as usize,
                    old(self).spec_height() as usize,
                ),
            forall|x: usize, y: usize|
                x < old(self).spec_width() && y < old(self).spec_height() && indices@.len() >= 1
                    && surely_hits::<D, T, HT>(
                    hit_test,
                    final(vertex_scratch)@,
                    indices@,
                    indices@.len() as int,
                    x,
                    y,
                    old(self).spec_width() as usize,
                    old(self).spec_height() as usize,
                ) && depth_always_passes::<D, DG>(depth_ge) ==> #[trigger] cell_drawn(
                    *final(self),
                    final(vertex_scratch)@,
                    indices@,
                    indices@.len() as int,
                    hit_test,
                    pixel_shader,
                    x,
                    y,
                    old(self).spec_width() as usize,
                    old(self).spec_height() as usize,
                ),
            forall|x: usize, y: usize|
                x < old(self).spec_width() && y < old(self).spec_height() ==> #[trigger] cell_chain(
                    hit_test,
                    pixel_shader,
                    depth_ge,
                    final(vertex_scratch)@,
                    indices@,
                    indices@.len() as int,
                    x,
                    y,
                    old(self).spec_width() as usize,
                    old(self).spec_height() as usize,
                    old(self).pair_at(x, y),
                    final(self).pair_at(x, y),
                ),
    {
        let (wdim, hdim) = self.get_dimensions();
        let mut i: usize = 0;
        while i < vertices.len()
            invariant
                vertex_scratch@.len() == old(vertex_scratch)@.len(),
                i <= vertices@.len(),
                *self == *old(self),
                forall|p: int|
                    0 <= p < i ==> call_ensures(
                        vertex_shader,
                        (&vertices@[p],),
                        #[trigger] vertex_scratch@[p],
                    ),
                forall|p: int|
                    i <= p < old(vertex_scratch)@.len() ==> vertex_scratch@[p] == old(
                        vertex_scratch,
                    )@[p],
            decreases vertices@.len() - i,
        {
            let shaded = vertex_shader(&vertices[i]);
            vertex_scratch[i] = shaded;
            i += 1;
        }
        let ghost shaded_seq = vertex_scratch@;
        let mut k: usize = 0;
        while k < indices.len()
            invariant
                self.wf(),
                self.depth_floor == old(self).depth_floor,
                self.spec_width() == old(self).spec_width(),
                self.spec_height() == old(self).spec_height(),
                vertex_scratch@ == shaded_seq,
                k <= indices@.len(),
                forall|x: usize, y: usize|
                    x < old(self).spec_width() && y < old(self).spec_height()
                        ==> #[trigger] cell_kept_or_drawn(
                        *old(self),
                        *self,
                        shaded_seq,
                        indices@,
                        k as int,
                        hit_test,
                        pixel_shader,
                        x,
                        y,
                        wdim,
                        hdim,
                    ),
                forall|x: usize, y: usize|
                    x < old(self).spec_width() && y < old(self).spec_height() && k >= 1
                        && surely_hits::<D, T, HT>(
                        hit_test,
                        shaded_seq,
                        indices@,
                        indices@.len() as int,
                        x,
                        y,
                        wdim,
                        hdim,
                    ) && depth_always_passes::<D, DG>(depth_ge) ==> #[trigger] cell_drawn(
                        *self,
                        shaded_seq,
                        indices@,
                        k as int,
                        hit_test,
                        pixel_shader,
                        x,
                        y,
                        wdim,
                        hdim,
                    ),
                forall|x: usize, y: usize|
                    x < old(self).spec_width() && y < old(self).spec_height()
                        ==> #[trigger] cell_chain(
                        hit_test,
                        pixel_shader,
                        depth_ge,
                        shaded_seq,
                        indices@,
                        k as int,
                        x,
                        y,
                        wdim,
                        hdim,
                        old(self).pair_at(x, y),
                        self.pair_at(x, y),
                    ),
            decreases indices@.len() - k,
        {
            let triangle = Triangle::new(&indices[k], vertex_scratch.as_slice());
            proof {
                assert forall|xq: usize, yq: usize|
                    xq < old(self).spec_width() && yq < old(self).spec_height()
                        implies #[trigger] cell_kept_or_drawn(
                        *old(self),
                        *self,
                        shaded_seq,
                        indices@,
                        k as int + 1,
                        hit_test,
                        pixel_shader,
                        xq,
                        yq,
                        wdim,
                        hdim,
                    ) by {
                    lemma_cell_mono(
                        *old(self),
                        *self,
                        shaded_seq,
                        indices@,
                        k as int,
                        k as int + 1,
                        hit_test,
                        pixel_shader,
                        xq,
                        yq,
                        wdim,
                        hdim,
                    );
                }
                assert forall|xq: usize, yq: usize|
                    xq < old(self).spec_width() && yq < old(self).spec_height() && k >= 1
                        && surely_hits::<D, T, HT>(
                        hit_test,
                        shaded_seq,
                        indices@,
                        indices@.len() as int,
                        xq,
                        yq,
                        wdim,
                        hdim,
                    ) && depth_always_passes::<D, DG>(depth_ge) implies #[trigger] cell_drawn(
                        *self,
                        shaded_seq,
                        indices@,
                        k as int + 1,
                        hit_test,
                        pixel_shader,
                        xq,
                        yq,
                        wdim,
                        hdim,
                    ) by {
                    lemma_drawn_mono(
                        *self,
                        shaded_seq,
                        indices@,
                        k as int,
                        k as int + 1,
                        hit_test,
                        pixel_shader,
                        xq,
                        yq,
                        wdim,
                        hdim,
                    );
                }
            }
            let mut y: usize = 0;
            while y < hdim
                invariant
                    self.wf(),
                    self.depth_floor == old(self).depth_floor,
                    self.spec_width() == old(self).spec_width(),
                    self.spec_height() == old(self).spec_height(),
                    vertex_scratch@ == shaded_seq,
                    y <= hdim,
                    forall|xq: usize, yq: usize|
                        xq < old(self).spec_width() && yq < old(self).spec_height()
                            ==> #[trigger] cell_kept_or_drawn(
                            *old(self),
                            *self,
                            shaded_seq,
                            indices@,
                            k as int + 1,
                            hit_test,
                            pixel_shader,
                            xq,
                            yq,
                            wdim,
                            hdim,
                        ),
                    forall|xq: usize, yq: usize|
                        xq < old(self).spec_width() && yq < old(self).spec_height() && (yq < y || k
                            >= 1) && surely_hits::<D, T, HT>(
                            hit_test,
                            shaded_seq,
                            indices@,
                            indices@.len() as int,
                            xq,
                            yq,
                            wdim,
                            hdim,
                        ) && depth_always_passes::<D, DG>(depth_ge) ==> #[trigger] cell_drawn(
                            *self,
                            shaded_seq,
                            indices@,
                            k as int + 1,
                            hit_test,
                            pixel_shader,
                            xq,
                            yq,
                            wdim,
                            hdim,
                        ),
                    forall|xq: usize, yq: usize|
                        xq < old(self).spec_width() && yq < old(self).spec_height() && yq < y
                            ==> #[trigger] cell_chain(
                            hit_test,
                            pixel_shader,
                            depth_ge,
                            shaded_seq,
                            indices@,
                            k as int + 1,
                            xq,
                            yq,
                            wdim,
                            hdim,
                            old(self).pair_at(xq, yq),
                            self.pair_at(xq, yq),
                        ),
                    forall|xq: usize, yq: usize|
                        xq < old(self).spec_width() && yq < old(self).spec_height() && y <= yq
                            ==> #[trigger] cell_chain(
                            hit_test,
                            pixel_shader,
                            depth_ge,
                            shaded_seq,
                            indices@,
                            k as int,
                            xq,
                            yq,
                            wdim,
                            hdim,
                            old(self).pair_at(xq, yq),
                            self.pair_at(xq, yq),
                        ),
                decreases hdim - y,
            {
                let mut x: usize = 0;
                while x < wdim
                    invariant
                        self.wf(),
                        self.depth_floor == old(self).depth_floor,
                        self.spec_width() == old(self).spec_width(),
                        self.spec_height() == old(self).spec_height(),
                        vertex_scratch@ == shaded_seq,
                        x <= wdim,
                        forall|xq: usize, yq: usize|
                            xq < old(self).spec_width() && yq < old(self).spec_height()
                                ==> #[trigger] cell_kept_or_drawn(
                                *old(self),
                                *self,
                                shaded_seq,
                                indices@,
                                k as int + 1,
                                hit_test,
                                pixel_shader,
                                xq,
                                yq,
                                wdim,
                                hdim,
                            ),
                        forall|xq: usize, yq: usize|
                            xq < old(self).spec_width() && yq < old(self).spec_height() && (yq < y
                                || (yq == y && xq < x) || k >= 1) && surely_hits::<D, T, HT>(
                                hit_test,
                                shaded_seq,
                                indices@,
                                indices@.len() as int,
                                xq,
                                yq,
                                wdim,
                                hdim,
                            ) && depth_always_passes::<D, DG>(depth_ge) ==> #[trigger] cell_drawn(
                                *self,
                                shaded_seq,
                                indices@,
                                k as int + 1,
                                hit_test,
                                pixel_shader,
                                xq,
                                yq,
                                wdim,
                                hdim,
                            ),
                        forall|xq: usize, yq: usize|
                            xq < old(self).spec_width() && yq < old(self).spec_height() && (yq < y
                                || (yq == y && xq < x)) ==> #[trigger] cell_chain(
                                hit_test,
                                pixel_shader,
                                depth_ge,
                                shaded_seq,
                                indices@,
                                k as int + 1,
                                xq,
                                yq,
                                wdim,
                                hdim,
                                old(self).pair_at(xq, yq),
                                self.pair_at(xq, yq),
                            ),
                        forall|xq: usize, yq: usize|
                            xq < old(self).spec_width() && yq < old(self).spec_height() && (y < yq
                                || (yq == y && x <= xq)) ==> #[trigger] cell_chain(
                                hit_test,
                                pixel_shader,
                                depth_ge,
                                shaded_seq,
                                indices@,
                                k as int,
                                xq,
                                yq,
                                wdim,
                                hdim,
                                old(self).pair_at(xq, yq),
                                self.pair_at(xq, yq),
                            ),
                    decreases wdim - x,
                {
                    let outcome = hit_test(&triangle, x, y, wdim, hdim);
                    if let Some(hit) = outcome {
                        let stored = self.depth_at(x, y);
                        let passes = depth_ge(hit.depth, stored);
                        if passes {
                            let ghost before = *self;
                            let color = pixel_shader(&triangle, hit.uv);
                            self.write_pixel(x, y, color, hit.depth);
                            proof {
                                assert(triangle == spec_triangle_of(
                                    shaded_seq,
                                    indices@[k as int],
                                ));
                                assert forall|xq: usize, yq: usize|
                                    xq < old(self).spec_width() && yq < old(self).spec_height()
                                        implies #[trigger] cell_kept_or_drawn(
                                        *old(self),
                                        *self,
                                        shaded_seq,
                                        indices@,
                                        k as int + 1,
                                        hit_test,
                                        pixel_shader,
                                        xq,
                                        yq,
                                        wdim,
                                        hdim,
                                    ) by {
                                    if xq == x && yq == y {
                                        assert(call_ensures(
                                            hit_test,
                                            (
                                                &spec_triangle_of(shaded_seq, indices@[k as int]),
                                                xq,
                                                yq,
                                                wdim,
                                                hdim,
                                            ),
                                            Some(hit),
                                        ));
                                    } else {
                                        assert(cell_kept_or_drawn(
                                            *old(self),
                                            before,
                                            shaded_seq,
                                            indices@,
                                            k as int + 1,
                                            hit_test,
                                            pixel_shader,
                                            xq,
                                            yq,
                                            wdim,
                                            hdim,
                                        ));
                                        assert(before.spec_height() - 1 - yq
                                            != before.spec_height() - 1 - y || xq != x);
                                        assert(self.color_cell(
                                            before.spec_height() - 1 - yq,
                                            xq as int,
                                        ) == before.color_cell(
                                            before.spec_height() - 1 - yq,
                                            xq as int,
                                        ));
                                        assert(self.depth_cell(
                                            before.spec_height() - 1 - yq,
                                            xq as int,
                                        ) == before.depth_cell(
                                            before.spec_height() - 1 - yq,
                                            xq as int,
                                        ));
                                        lemma_cell_frame(
                                            *old(self),
                                            before,
                                            *self,
                                            shaded_seq,
                                            indices@,
                                            k as int + 1,
                                            hit_test,
                                            pixel_shader,
                                            xq,
                                            yq,
                                            wdim,
                                            hdim,
                                        );
                                    }
                                }
                                assert forall|xq: usize, yq: usize|
                                    xq < old(self).spec_width() && yq < old(self).spec_height() && (
                                    yq < y || (yq == y && xq < x + 1) || k >= 1)
                                        && surely_hits::<D, T, HT>(
                                        hit_test,
                                        shaded_seq,
                                        indices@,
                                        indices@.len() as int,
                                        xq,
                                        yq,
                                        wdim,
                                        hdim,
                                    ) && depth_always_passes::<D, DG>(
                                        depth_ge,
                                    ) implies #[trigger] cell_drawn(
                                        *self,
                                        shaded_seq,
                                        indices@,
                                        k as int + 1,
                                        hit_test,
                                        pixel_shader,
                                        xq,
                                        yq,
                                        wdim,
                                        hdim,
                                    ) by {
                                    if xq == x && yq == y {
                                        assert(call_ensures(
                                            hit_test,
                                            (
                                                &spec_triangle_of(shaded_seq, indices@[k as int]),
                                                xq,
                                                yq,
                                                wdim,
                                                hdim,
                                            ),
                                            Some(hit),
                                        ));
                                    } else {
                                        assert(cell_drawn(
                                            before,
                                            shaded_seq,
                                            indices@,
                                            k as int + 1,
                                            hit_test,
                                            pixel_shader,
                                            xq,
                                            yq,
                                            wdim,
                                            hdim,
                                        ));
                                        assert(self.color_cell(
                                            before.spec_height() - 1 - yq,
                                            xq as int,
                                        ) == before.color_cell(
                                            before.spec_height() - 1 - yq,
                                            xq as int,
                                        ));
                                        assert(self.depth_cell(
                                            before.spec_height() - 1 - yq,
                                            xq as int,
                                        ) == before.depth_cell(
                                            before.spec_height() - 1 - yq,
                                            xq as int,
                                        ));
                                        lemma_drawn_frame(
                                            before,
                                            *self,
                                            shaded_seq,
                                            indices@,
                                            k as int + 1,
                                            hit_test,
                                            pixel_shader,
                                            xq,
                                            yq,
                                            wdim,
                                            hdim,
                                        );
                                    }
                                }
                                assert(call_ensures(
                                    depth_ge,
                                    (hit.depth, before.pair_at(x, y).0),
                                    true,
                                ));
                                assert(cell_step(
                                    hit_test,
                                    pixel_shader,
                                    depth_ge,
                                    shaded_seq,
                                    indices@[k as int],
                                    x,
                                    y,
                                    wdim,
                                    hdim,
                                    before.pair_at(x, y),
                                    self.pair_at(x, y),
                                ));
                                lemma_chain_snoc(
                                    hit_test,
                                    pixel_shader,
                                    depth_ge,
                                    shaded_seq,
                                    indices@,
                                    k as int,
                                    x,
                                    y,
                                    wdim,
                                    hdim,
                                    old(self).pair_at(x, y),
                                    before.pair_at(x, y),
                                    self.pair_at(x, y),
                                );
                                assert forall|xq: usize, yq: usize|
                                    xq < old(self).spec_width() && yq < old(self).spec_height() && (
                                    yq < y || (yq == y && xq < x + 1)) implies #[trigger] cell_chain(
                                        hit_test,
                                        pixel_shader,
                                        depth_ge,
                                        shaded_seq,
                                        indices@,
                                        k as int + 1,
                                        xq,
                                        yq,
                                        wdim,
                                        hdim,
                                        old(self).pair_at(xq, yq),
                                        self.pair_at(xq, yq),
                                    ) by {
                                    if !(xq == x && yq == y) {
                                        assert(before.spec_height() - 1 - yq
                                            != before.spec_height() - 1 - y || xq != x);
                                        assert(self.color_cell(
                                            before.spec_height() - 1 - yq,
                                            xq as int,
                                        ) == before.color_cell(
                                            before.spec_height() - 1 - yq,
                                            xq as int,
                                        ));
                                        assert(self.depth_cell(
                                            before.spec_height() - 1 - yq,
                                            xq as int,
                                        ) == before.depth_cell(
                                            before.spec_height() - 1 - yq,
                                            xq as int,
                                        ));
                                        assert(self.pair_at(xq, yq) == before.pair_at(xq, yq));
                                        assert(cell_chain(
                                            hit_test,
                                            pixel_shader,
                                            depth_ge,
                                            shaded_seq,
                                            indices@,
                                            k as int + 1,
                                            xq,
                                            yq,
                                            wdim,
                                            hdim,
                                            old(self).pair_at(xq, yq),
                                            before.pair_at(xq, yq),
                                        ));
                                    }
                                }
                                assert forall|xq: usize, yq: usize|
                                    xq < old(self).spec_width() && yq < old(self).spec_height() && (
                                    y < yq || (yq == y && x + 1 <= xq)) implies #[trigger] cell_chain(
                                        hit_test,
                                        pixel_shader,
                                        depth_ge,
                                        shaded_seq,
                                        indices@,
                                        k as int,
                                        xq,
                                        yq,
                                        wdim,
                                        hdim,
                                        old(self).pair_at(xq, yq),
                                        self.pair_at(xq, yq),
                                    ) by {
                                    assert(before.spec_height() - 1 - yq
                                        != before.spec_height() - 1 - y || xq != x);
                                    assert(self.color_cell(
                                        before.spec_height() - 1 - yq,
                                        xq as int,
                                    ) == before.color_cell(
                                        before.spec_height() - 1 - yq,
                                        xq as int,
                                    ));
                                    assert(self.depth_cell(
                                        before.spec_height() - 1 - yq,
                                        xq as int,
                                    ) == before.depth_cell(
                                        before.spec_height() - 1 - yq,
                                        xq as int,
                                    ));
                                    assert(self.pair_at(xq, yq) == before.pair_at(xq, yq));
                                    assert(cell_chain(
                                        hit_test,
                                        pixel_shader,
                                        depth_ge,
                                        shaded_seq,
                                        indices@,
                                        k as int,
                                        xq,
                                        yq,
                                        wdim,
                                        hdim,
                                        old(self).pair_at(xq, yq),
                                        before.pair_at(xq, yq),
                                    ));
                                }
                            }
                        } else {
                            proof {
                                assert(triangle == spec_triangle_of(
                                    shaded_seq,
                                    indices@[k as int],
                                ));
                                assert(call_ensures(depth_ge, (hit.depth, stored), passes));
                                assert(!depth_always_passes::<D, DG>(depth_ge));
                                assert(cell_step(
                                    hit_test,
                                    pixel_shader,
                                    depth_ge,
                                    shaded_seq,
                                    indices@[k as int],
                                    x,
                                    y,
                                    wdim,
                                    hdim,
                                    self.pair_at(x, y),
                                    self.pair_at(x, y),
                                ));
                                lemma_chain_snoc(
                                    hit_test,
                                    pixel_shader,
                                    depth_ge,
                                    shaded_seq,
                                    indices@,
                                    k as int,
                                    x,
                                    y,
                                    wdim,
                                    hdim,
                                    old(self).pair_at(x, y),
                                    self.pair_at(x, y),
                                    self.pair_at(x, y),
                                );
                            }
                        }
                    } else {
                        proof {
                            assert(triangle == spec_triangle_of(shaded_seq, indices@[k as int]));
                            assert(call_ensures(
                                hit_test,
                                (
                                    &spec_triangle_of(shaded_seq, indices@[k as int]),
                                    x,
                                    y,
                                    wdim,
                                    hdim,
                                ),
                                outcome,
                            ));
                            assert(!surely_hits::<D, T, HT>(
                                hit_test,
                                shaded_seq,
                                indices@,
                                indices@.len() as int,
                                x,
                                y,
                                wdim,
                                hdim,
                            ));
                            assert(cell_step(
                                hit_test,
                                pixel_shader,
                                depth_ge,
                                shaded_seq,
                                indices@[k as int],
                                x,
                                y,
                                wdim,
                                hdim,
                                self.pair_at(x, y),
                                self.pair_at(x, y),
                            ));
                            lemma_chain_snoc(
                                hit_test,
                                pixel_shader,
                                depth_ge,
                                shaded_seq,
                                indices@,
                                k as int,
                                x,
                                y,
                                wdim,
                                hdim,
                                old(self).pair_at(x, y),
                                self.pair_at(x, y),
                                self.pair_at(x, y),
                            );
                        }
                    }
                    x += 1;
                }
                y += 1;
            }
            k += 1;
        }
    }
}

} // verus!
