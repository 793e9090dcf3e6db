use crate::vecs::Vec3;
use vstd::arithmetic::div_mod::{lemma_fundamental_div_mod_converse_div, lemma_fundamental_div_mod_converse_mod};
use vstd::prelude::*;

verus! {

/// The side of a square tile, in pixels.
pub const TILESIZE: usize = 20;

/// A rectangle of pixels: top-left corner `(x, y)`, width `w`, height `h`.
#[derive(Debug, Clone, Copy, PartialEq, Eq, Structural)]
pub struct Tile {
    pub x: usize,
    pub y: usize,
    pub w: usize,
    pub h: usize,
}

/// The extent along one axis of the tile with index `blocknum` in an image
/// `total_len` pixels long: a full tile, or what is left at the edge.
pub open spec fn extent_spec(blocknum: int, total_len: int) -> int {
    if (blocknum + 1) * TILESIZE > total_len {
        total_len - blocknum * TILESIZE
    } else {
        TILESIZE as int
    }
}

/// The tile with grid coordinates `(a, b)` in a `w` by `h` image, clipped to
/// the image; `None` when those coordinates lie outside it.
pub open spec fn tile_spec(w: int, h: int, a: int, b: int) -> Option<Tile> {
    if a < 0 || b < 0 || a * TILESIZE >= w || b * TILESIZE >= h {
        None
    } else {
        Some(
            Tile {
                x: (a * TILESIZE) as usize,
                y: (b * TILESIZE) as usize,
                w: extent_spec(a, w) as usize,
                h: extent_spec(b, h) as usize,
            },
        )
    }
}

/// The extent of tile number `blocknum` along an axis of `total_len` pixels.
pub fn bounded_tilesize(blocknum: usize, total_len: usize) -> (r: usize)
    requires
        blocknum * TILESIZE < total_len,
    ensures
        r == extent_spec(blocknum as int, total_len as int),
        0 < r <= TILESIZE,
{
    let start = blocknum * TILESIZE;
    if total_len - start < TILESIZE {
        total_len - start
    } else {
        TILESIZE
    }
}

/// The tile at grid coordinates `(a, b)` of an `image_width` by
/// `image_height` image, or `None` where there is none.
pub fn tile_at(image_width: usize, image_height: usize, a: isize, b: isize) -> (r: Option<Tile>)
    ensures
        r == tile_spec(image_width as int, image_height as int, a as int, b as int),
{
    if a < 0 || b < 0 || image_width == 0 || image_height == 0 {
        return None;
    }
    let ua = a as usize;
    let ub = b as usize;
    if ua > (image_width - 1) / TILESIZE || ub > (image_height - 1) / TILESIZE {
        return None;
    }
    let w = bounded_tilesize(ua, image_width);
    let h = bounded_tilesize(ub, image_height);
    Some(Tile { x: ua * TILESIZE, y: ub * TILESIZE, w, h })
}

/// `len` grid cells in a straight line from `(a, b)`, one step of `(da, db)`
/// apart.
pub open spec fn leg(a: int, b: int, da: int, db: int, len: int) -> Seq<(int, int)> {
    Seq::new(len as nat, |i: int| (a + i * da, b + i * db))
}

/// Ring `n` (from 1) of the spiral around the centre `(a0, b0)`. It starts at
/// `(a, b) = (a0 + n - 1, b0 - n + 1)` with side `s = 2n - 1` and runs `s`
/// cells down, `s` cells left, `s + 1` cells up and `s + 1` cells right,
/// ending beside the start of the next ring.
pub open spec fn ring(a0: int, b0: int, n: int) -> Seq<(int, int)> {
    let a = a0 + n - 1;
    let b = b0 - n + 1;
    let s = 2 * n - 1;
    leg(a, b, 0, 1, s) + leg(a, b + s, -1, 0, s) + leg(a - s, b + s, 0, -1, s + 1) + leg(
        a - s,
        b - 1,
        1,
        0,
        s + 1,
    )
}

/// The first `n` rings of the spiral around `(a0, b0)`, in order.
pub open spec fn spiral_path(a0: int, b0: int, n: nat) -> Seq<(int, int)>
    decreases n,
{
    if n == 0 {
        Seq::empty()
    } else {
        spiral_path(a0, b0, (n - 1) as nat) + ring(a0, b0, n as int)
    }
}

/// The tile at a cell, as a sequence of one, or none outside the image.
pub open spec fn tile_seq(w: int, h: int, c: (int, int)) -> Seq<Tile> {
    match tile_spec(w, h, c.0, c.1) {
        Some(t) => seq![t],
        None => Seq::empty(),
    }
}

/// The tiles of the image at the cells of `cells`, in order, skipping the
/// cells that lie outside it.
pub open spec fn visible(w: int, h: int, cells: Seq<(int, int)>) -> Seq<Tile>
    decreases cells.len(),
{
    if cells.len() == 0 {
        Seq::empty()
    } else {
        visible(w, h, cells.drop_last()) + tile_seq(w, h, cells.last())
    }
}

/// The centre tile of the spiral of a `w` by `h` image, for `w, h > 0`.
pub open spec fn spiral_centre(w: int, h: int) -> (int, int) {
    ((((w - 1) / TILESIZE as int) + 1) / 2, ((h - 1) / TILESIZE as int) / 2)
}

/// The number of rings after which both the column left of the last ring and
/// the row above it lie outside the image.
pub open spec fn spiral_rings(w: int, h: int) -> nat {
    let c = spiral_centre(w, h);
    (if c.0 > c.1 { c.0 } else { c.1 } + 1) as nat
}

/// The order in which the tiles of a `w` by `h` image are rendered: outward
/// rings around the centre tile, each ring complete before the next, with
/// the cells outside the image skipped. Empty for an empty image.
pub open spec fn spiral_spec(w: int, h: int) -> Seq<Tile> {
    if w <= 0 || h <= 0 {
        Seq::empty()
    } else {
        let c = spiral_centre(w, h);
        visible(w, h, spiral_path(c.0, c.1, spiral_rings(w, h)))
    }
}

proof fn lemma_visible_push(w: int, h: int, cells: Seq<(int, int)>, c: (int, int))
    ensures
        visible(w, h, cells.push(c)) == visible(w, h, cells) + tile_seq(w, h, c),
{
    assert(cells.push(c).drop_last() =~= cells);
}

/// Appends the tile at `(a, b)` to `out` if it lies in the image.
fn emit(out: &mut Vec<Tile>, image_width: usize, image_height: usize, a: isize, b: isize)
    ensures
        final(out)@ == old(out)@ + tile_seq(image_width as int, image_height as int, (a as int, b as int)),
{
    match tile_at(image_width, image_height, a, b) {
        Some(t) => {
            out.push(t);
            assert(final(out)@ =~= old(out)@ + seq![t]);
        },
        None => {
            assert(out@ =~= out@ + Seq::<Tile>::empty());
        },
    }
}

proof fn lemma_visible_append(w: int, h: int, p: Seq<(int, int)>, q: Seq<(int, int)>)
    ensures
        visible(w, h, p + q) == visible(w, h, p) + visible(w, h, q),
    decreases q.len(),
{
    if q.len() == 0 {
        assert(p + q =~= p);
        assert(visible(w, h, p) + visible(w, h, q) =~= visible(w, h, p));
    } else {
        lemma_visible_append(w, h, p, q.drop_last());
        assert((p + q).drop_last() =~= p + q.drop_last());
        assert((p + q).last() == q.last());
        assert(visible(w, h, p + q) =~= visible(w, h, p) + visible(w, h, q));
    }
}

/// Walks `len` cells from `(a, b)` in steps of `(da, db)`, appending the tile
/// at each cell that lies in the image; returns the cell after the last.
fn walk(
    out: &mut Vec<Tile>,
    image_width: usize,
    image_height: usize,
    a: isize,
    b: isize,
    da: isize,
    db: isize,
    len: isize,
) -> (end: (isize, isize))
    requires
        0 <= len <= isize::MAX / 4,
        -1 <= da <= 1,
        -1 <= db <= 1,
        -(isize::MAX / 4) <= a <= isize::MAX / 4,
        -(isize::MAX / 4) <= b <= isize::MAX / 4,
    ensures
        final(out)@ == old(out)@ + visible(
            image_width as int,
            image_height as int,
            leg(a as int, b as int, da as int, db as int, len as int),
        ),
        end.0 == a + len * da,
        end.1 == b + len * db,
{
    let ghost w = image_width as int;
    let ghost h = image_height as int;
    let ghost start = out@;
    let mut ca = a;
    let mut cb = b;
    let mut i: isize = 0;
    assert(leg(a as int, b as int, da as int, db as int, 0) =~= Seq::empty());
    assert(start + Seq::<Tile>::empty() =~= start);
    while i < len
        invariant
            w == image_width as int,
            h == image_height as int,
            0 <= i <= len,
            0 <= len <= isize::MAX / 4,
            -1 <= da <= 1,
            -1 <= db <= 1,
            -(isize::MAX / 4) <= a <= isize::MAX / 4,
            -(isize::MAX / 4) <= b <= isize::MAX / 4,
            ca == a + i * da,
            cb == b + i * db,
            out@ == start + visible(w, h, leg(a as int, b as int, da as int, db as int, i as int)),
        decreases len - i,
    {
        proof {
            assert(-(i as int) <= i * da <= i) by (nonlinear_arith)
                requires 0 <= i, -1 <= da <= 1;
            assert(-(i as int) <= i * db <= i) by (nonlinear_arith)
                requires 0 <= i, -1 <= db <= 1;
            assert((i + 1) * da == i * da + da) by (nonlinear_arith);
            assert((i + 1) * db == i * db + db) by (nonlinear_arith);
            let l = leg(a as int, b as int, da as int, db as int, i as int);
            assert(leg(a as int, b as int, da as int, db as int, i + 1) =~= l.push((ca as int, cb as int)));
            lemma_visible_push(w, h, l, (ca as int, cb as int));
        }
        let ghost before = out@;
        emit(out, image_width, image_height, ca, cb);
        proof {
            let l = leg(a as int, b as int, da as int, db as int, i as int);
            let t = tile_seq(w, h, (ca as int, cb as int));
            assert(out@ == before + t);
            assert(before == start + visible(w, h, l));
            assert(visible(w, h, l.push((ca as int, cb as int))) == visible(w, h, l) + t);
            assert(out@ =~= start + (visible(w, h, l) + t));
        }
        ca = ca + da;
        cb = cb + db;
        i = i + 1;
    }
    (ca, cb)
}

/// The tiles of one more ring are those of its four legs, in order.
proof fn lemma_next_ring(w: int, h: int, a0: int, b0: int, n: nat)
    ensures
        ({
            let a = a0 + n;
            let b = b0 - n;
            let s = (2 * n + 1) as int;
            visible(w, h, spiral_path(a0, b0, n + 1)) == visible(w, h, spiral_path(a0, b0, n))
                + visible(w, h, leg(a, b, 0, 1, s)) + visible(w, h, leg(a, b + s, -1, 0, s))
                + visible(w, h, leg(a - s, b + s, 0, -1, s + 1)) + visible(
                w,
                h,
                leg(a - s, b - 1, 1, 0, s + 1),
            )
        }),
{
    let a = a0 + n;
    let b = b0 - n;
    let s = (2 * n + 1) as int;
    let l1 = leg(a, b, 0, 1, s);
    let l2 = leg(a, b + s, -1, 0, s);
    let l3 = leg(a - s, b + s, 0, -1, s + 1);
    let l4 = leg(a - s, b - 1, 1, 0, s + 1);
    let p = spiral_path(a0, b0, n);
    assert(ring(a0, b0, n + 1 as int) == l1 + l2 + l3 + l4);
    assert(spiral_path(a0, b0, n + 1) == p + (l1 + l2 + l3 + l4));
    lemma_visible_append(w, h, p, l1 + l2 + l3 + l4);
    lemma_visible_append(w, h, l1 + l2 + l3, l4);
    lemma_visible_append(w, h, l1 + l2, l3);
    lemma_visible_append(w, h, l1, l2);
    assert(visible(w, h, spiral_path(a0, b0, n + 1)) =~= visible(w, h, p) + visible(w, h, l1)
        + visible(w, h, l2) + visible(w, h, l3) + visible(w, h, l4));
}

/// The tiles of an `image_width` by `image_height` image in the order in
/// which they are rendered and handed out: outward rings around the centre
/// tile, skipping the ring cells that lie outside the image.
pub fn spiral_order(image_width: usize, image_height: usize) -> (r: Vec<Tile>)
    ensures
        r@ == spiral_spec(image_width as int, image_height as int),
{
    let mut out: Vec<Tile> = Vec::new();
    if image_width == 0 || image_height == 0 {
        return out;
    }
    let ghost w = image_width as int;
    let ghost h = image_height as int;
    let ua0: usize = ((image_width - 1) / TILESIZE + 1) / 2;
    let ub0: usize = ((image_height - 1) / TILESIZE) / 2;
    assert(usize::MAX == 2 * (isize::MAX as int) + 1);
    let a0 = ua0 as isize;
    let b0 = ub0 as isize;
    let ghost m: int = if a0 > b0 { a0 as int } else { b0 as int };
    let mut square_side: isize = 1;
    let mut a = a0;
    let mut b = b0;
    let mut olda = a0;
    let ghost mut n: nat = 0;
    assert(out@ =~= visible(w, h, spiral_path(a0 as int, b0 as int, 0)));
    while olda >= 0 || b >= 0
        invariant
            w == image_width as int,
            h == image_height as int,
            w > 0,
            h > 0,
            (a0 as int, b0 as int) == spiral_centre(w, h),
            0 <= a0 <= isize::MAX / 16,
            0 <= b0 <= isize::MAX / 16,
            m == if a0 > b0 { a0 as int } else { b0 as int },
            n <= m + 1,
            a == a0 + n,
            b == b0 - n,
            olda == a0 - n,
            square_side == 2 * n + 1,
            out@ == visible(w, h, spiral_path(a0 as int, b0 as int, n)),
        decreases m + 1 - n,
    {
        let ghost before = out@;
        let (a1, b1) = walk(&mut out, image_width, image_height, a, b, 0, 1, square_side);
        let ghost v1 = out@;
        let (a2, b2) = walk(&mut out, image_width, image_height, a1, b1, -1, 0, square_side);
        let ghost v2 = out@;
        let (a3, b3) = walk(&mut out, image_width, image_height, a2, b2, 0, -1, square_side + 1);
        let ghost v3 = out@;
        olda = a3;
        let (a4, b4) = walk(&mut out, image_width, image_height, a3, b3, 1, 0, square_side + 1);
        proof {
            lemma_next_ring(w, h, a0 as int, b0 as int, n);
            assert(out@ =~= visible(w, h, spiral_path(a0 as int, b0 as int, (n + 1) as nat)));
        }
        a = a4;
        b = b4;
        square_side = square_side + 2;
        proof {
            n = n + 1;
        }
    }
    out
}

/// Component `c` of `v`: `x` for 0, `y` for 1, `z` otherwise.
pub open spec fn channel<T>(v: Vec3<T>, c: int) -> T {
    if c == 0 {
        v.x
    } else if c == 1 {
        v.y
    } else {
        v.z
    }
}

/// The channels of the pixels of `tile` in a row-major image `image_width`
/// pixels wide: the tile's rows top to bottom, each left to right, three
/// values per pixel in the order `x, y, z`.
pub open spec fn tile_channels_spec<T>(image: Seq<Vec3<T>>, image_width: int, tile: Tile) -> Seq<T> {
    Seq::new(
        (tile.w * tile.h * 3) as nat,
        |k: int|
            {
                let p = k / 3;
                channel(image[(tile.y + p / tile.w as int) * image_width + tile.x + p % tile.w as int], k % 3)
            },
    )
}

/// The channel values of the pixels of `tile`, in the layout in which a tile
/// is handed out (see `tile_channels_spec`). The tile lies inside the
/// row-major image `image`, which is `image_width` pixels wide.
pub fn tile_channels<T: Copy>(image: &Vec<Vec3<T>>, image_width: usize, tile: Tile) -> (r: Vec<T>)
    requires
        tile.w <= TILESIZE,
        tile.h <= TILESIZE,
        tile.x + tile.w <= image_width,
        (tile.y + tile.h) * image_width <= image@.len(),
    ensures
        r@ == tile_channels_spec(image@, image_width as int, tile),
{
    let ghost spec_seq = tile_channels_spec(image@, image_width as int, tile);
    let mut r: Vec<T> = Vec::new();
    if tile.w == 0 {
        assert(r@ =~= spec_seq);
        return r;
    }
    let len = image.len();
    let mut i: usize = 0;
    while i < tile.h
        invariant
            len == image@.len(),
            spec_seq == tile_channels_spec(image@, image_width as int, tile),
            tile.w <= TILESIZE,
            tile.h <= TILESIZE,
            tile.x + tile.w <= image_width,
            (tile.y + tile.h) * image_width <= image@.len(),
            i <= tile.h,
            0 < tile.w,
            r@ == spec_seq.take(i * tile.w * 3),
        decreases tile.h - i,
    {
        let mut j: usize = 0;
        proof {
            assert(i * tile.w <= 400) by (nonlinear_arith)
                requires i <= 20, tile.w <= 20;
            assert((tile.y + i) * image_width + image_width <= (tile.y + tile.h) * image_width) by (nonlinear_arith)
                requires i < tile.h;
            assert(tile.y + i <= (tile.y + i) * image_width) by (nonlinear_arith)
                requires image_width >= 1;
        }
        let row = (tile.y + i) * image_width;
        while j < tile.w
            invariant
                spec_seq == tile_channels_spec(image@, image_width as int, tile),
                tile.w <= TILESIZE,
                tile.h <= TILESIZE,
                tile.x + tile.w <= image_width,
                (tile.y + tile.h) * image_width <= image@.len(),
                i < tile.h,
                i * tile.w <= 400,
                len == image@.len(),
                row == (tile.y + i) * image_width,
                row + image_width <= image@.len(),
                j <= tile.w,
                r@ == spec_seq.take((i * tile.w + j) * 3),
            decreases tile.w - j,
        {
            let v = image[row + tile.x + j];
            let ghost p = i * tile.w + j;
            proof {
                assert(p + 1 <= tile.w * tile.h) by (nonlinear_arith)
                    requires p == i * tile.w + j, j < tile.w, i < tile.h;
                assert(tile.w * tile.h <= 400) by (nonlinear_arith)
                    requires tile.w <= 20, tile.h <= 20;
                lemma_fundamental_div_mod_converse_div(p, tile.w as int, i as int, j as int);
                lemma_fundamental_div_mod_converse_mod(p, tile.w as int, i as int, j as int);
                assert forall|c: int| 0 <= c < 3 implies #[trigger] spec_seq[p * 3 + c] == channel(v, c) by {
                    lemma_fundamental_div_mod_converse_div(p * 3 + c, 3, p, c);
                    lemma_fundamental_div_mod_converse_mod(p * 3 + c, 3, p, c);
                }
            }
            r.push(v.x);
            r.push(v.y);
            r.push(v.z);
            proof {
                assert(spec_seq[p * 3 + 0] == v.x);
                assert(spec_seq[p * 3 + 1] == v.y);
                assert(spec_seq[p * 3 + 2] == v.z);
                assert(r@ =~= spec_seq.take((p + 1) * 3));
            }
            j = j + 1;
        }
        i = i + 1;
        proof {
            assert((i - 1) * tile.w + tile.w == i * tile.w) by (nonlinear_arith);
        }
    }
    proof {
        assert(spec_seq.len() == tile.h * tile.w * 3) by (nonlinear_arith)
            requires spec_seq.len() == tile.w * tile.h * 3;
        assert(spec_seq.take(i * tile.w * 3) =~= spec_seq);
    }
    r
}

/// Cell `c` lies in the rectangle that the first `n` rings around `(a0, b0)`
/// cover: columns `a0 - n ..= a0 + n - 1`, rows `b0 - n ..= b0 + n` (empty
/// for `n == 0`).
pub open spec fn in_rings(a0: int, b0: int, n: int, c: (int, int)) -> bool {
    &&& a0 - n <= c.0 <= a0 + n - 1
    &&& b0 - n <= c.1 <= b0 + n
}

/// No element of `s` occurs twice.
pub open spec fn distinct<A>(s: Seq<A>) -> bool {
    forall|i: int, j: int| 0 <= i < j < s.len() ==> s[i] != s[j]
}

proof fn lemma_ring_index(a0: int, b0: int, n: int, k: int)
    requires
        n >= 1,
        0 <= k < 8 * n - 2,
    ensures
        ring(a0, b0, n).len() == 8 * n - 2,
        ({
            let a = a0 + n - 1;
            let b = b0 - n + 1;
            let s = 2 * n - 1;
            ring(a0, b0, n)[k] == if k < s {
                (a, b + k)
            } else if k < 2 * s {
                (a - (k - s), b + s)
            } else if k < 3 * s + 1 {
                (a - s, b + s - (k - 2 * s))
            } else {
                (a - s + (k - 3 * s - 1), b - 1)
            }
        }),
{
}

proof fn lemma_ring_cells(a0: int, b0: int, n: int)
    requires
        n >= 1,
    ensures
        distinct(ring(a0, b0, n)),
        forall|k: int| 0 <= k < ring(a0, b0, n).len() ==> in_rings(a0, b0, n, #[trigger] ring(a0, b0, n)[k])
            && !in_rings(a0, b0, n - 1, ring(a0, b0, n)[k]),
        forall|c: (int, int)| in_rings(a0, b0, n, c) && !in_rings(a0, b0, n - 1, c) ==> exists|k: int|
            0 <= k < ring(a0, b0, n).len() && #[trigger] ring(a0, b0, n)[k] == c,
{
    let r = ring(a0, b0, n);
    let a = a0 + n - 1;
    let b = b0 - n + 1;
    let s = 2 * n - 1;
    assert forall|k: int| 0 <= k < r.len() implies in_rings(a0, b0, n, #[trigger] r[k]) && !in_rings(
        a0,
        b0,
        n - 1,
        r[k],
    ) by {
        lemma_ring_index(a0, b0, n, k);
    }
    assert forall|i: int, j: int| 0 <= i < j < r.len() implies r[i] != r[j] by {
        lemma_ring_index(a0, b0, n, i);
        lemma_ring_index(a0, b0, n, j);
    }
    assert forall|c: (int, int)| in_rings(a0, b0, n, c) && !in_rings(a0, b0, n - 1, c) implies exists|k: int|
        0 <= k < r.len() && #[trigger] r[k] == c by {
        let k = if c.0 == a && b <= c.1 < b + s {
            c.1 - b
        } else if c.1 == b + s && a - s < c.0 <= a {
            s + (a - c.0)
        } else if c.0 == a - s && b <= c.1 <= b + s {
            2 * s + (b + s - c.1)
        } else {
            3 * s + 1 + (c.0 - (a - s))
        };
        lemma_ring_index(a0, b0, n, k);
        assert(r[k] == c);
    }
}

proof fn lemma_spiral_path_cells(a0: int, b0: int, n: nat)
    ensures
        distinct(spiral_path(a0, b0, n)),
        forall|k: int| 0 <= k < spiral_path(a0, b0, n).len() ==> in_rings(
            a0,
            b0,
            n as int,
            #[trigger] spiral_path(a0, b0, n)[k],
        ),
        forall|c: (int, int)| in_rings(a0, b0, n as int, c) ==> exists|k: int|
            0 <= k < spiral_path(a0, b0, n).len() && #[trigger] spiral_path(a0, b0, n)[k] == c,
    decreases n,
{
    if n > 0 {
        let m = (n - 1) as nat;
        lemma_spiral_path_cells(a0, b0, m);
        lemma_ring_cells(a0, b0, n as int);
        let p = spiral_path(a0, b0, m);
        let r = ring(a0, b0, n as int);
        let q = spiral_path(a0, b0, n);
        assert(q == p + r);
        assert forall|k: int| 0 <= k < q.len() implies in_rings(a0, b0, n as int, #[trigger] q[k]) by {
            if k >= p.len() {
                assert(q[k] == r[k - p.len()]);
            } else {
                assert(q[k] == p[k]);
                assert(in_rings(a0, b0, m as int, p[k]));
            }
        }
        assert forall|i: int, j: int| 0 <= i < j < q.len() implies q[i] != q[j] by {
            if j < p.len() {
            } else if i >= p.len() {
                assert(q[i] == r[i - p.len()]);
                assert(q[j] == r[j - p.len()]);
            } else {
                assert(q[i] == p[i]);
                assert(q[j] == r[j - p.len()]);
                assert(in_rings(a0, b0, m as int, p[i]));
                assert(!in_rings(a0, b0, m as int, r[j - p.len()]));
            }
        }
        assert forall|c: (int, int)| in_rings(a0, b0, n as int, c) implies exists|k: int|
            0 <= k < q.len() && #[trigger] q[k] == c by {
            if in_rings(a0, b0, m as int, c) {
                let k = choose|k: int| 0 <= k < p.len() && #[trigger] p[k] == c;
                assert(q[k] == c);
            } else {
                let k = choose|k: int| 0 <= k < r.len() && #[trigger] r[k] == c;
                assert(q[k + p.len()] == c);
            }
        }
    }
}

proof fn lemma_tile_spec_injective(w: int, h: int, c: (int, int), d: (int, int))
    requires
        w <= usize::MAX,
        h <= usize::MAX,
        tile_spec(w, h, c.0, c.1) is Some,
        tile_spec(w, h, c.0, c.1) == tile_spec(w, h, d.0, d.1),
    ensures
        c == d,
{
}

proof fn lemma_visible_source(w: int, h: int, cells: Seq<(int, int)>)
    ensures
        forall|k: int| 0 <= k < visible(w, h, cells).len() ==> exists|i: int|
            0 <= i < cells.len() && tile_spec(w, h, cells[i].0, cells[i].1) == Some(
                #[trigger] visible(w, h, cells)[k],
            ),
    decreases cells.len(),
{
    if cells.len() > 0 {
        let p = cells.drop_last();
        let c = cells.last();
        lemma_visible_source(w, h, p);
        let vp = visible(w, h, p);
        let v = visible(w, h, cells);
        let t = tile_seq(w, h, c);
        assert(v == vp + t);
        assert forall|k: int| 0 <= k < v.len() implies exists|i: int|
            0 <= i < cells.len() && tile_spec(w, h, cells[i].0, cells[i].1) == Some(#[trigger] v[k]) by {
            if k < vp.len() {
                assert(v[k] == vp[k]);
                let i = choose|i: int| 0 <= i < p.len() && tile_spec(w, h, p[i].0, p[i].1) == Some(vp[k]);
                assert(cells[i] == p[i]);
            } else {
                assert(v[k] == t[k - vp.len()]);
                assert(cells[cells.len() - 1] == c);
            }
        }
    }
}

proof fn lemma_visible_present(w: int, h: int, cells: Seq<(int, int)>, i: int)
    requires
        0 <= i < cells.len(),
        tile_spec(w, h, cells[i].0, cells[i].1) is Some,
    ensures
        exists|k: int| 0 <= k < visible(w, h, cells).len() && Some(#[trigger] visible(w, h, cells)[k])
            == tile_spec(w, h, cells[i].0, cells[i].1),
    decreases cells.len(),
{
    let p = cells.drop_last();
    let c = cells.last();
    let vp = visible(w, h, p);
    let v = visible(w, h, cells);
    let t = tile_seq(w, h, c);
    assert(v == vp + t);
    if i < p.len() {
        lemma_visible_present(w, h, p, i);
        assert(cells[i] == p[i]);
        let k = choose|k: int| 0 <= k < vp.len() && Some(#[trigger] vp[k]) == tile_spec(w, h, p[i].0, p[i].1);
        assert(v[k] == vp[k]);
    } else {
        assert(cells[i] == c);
        assert(v[vp.len() as int] == t[0]);
    }
}

proof fn lemma_visible_distinct(w: int, h: int, cells: Seq<(int, int)>)
    requires
        w <= usize::MAX,
        h <= usize::MAX,
        distinct(cells),
    ensures
        distinct(visible(w, h, cells)),
    decreases cells.len(),
{
    if cells.len() > 0 {
        let p = cells.drop_last();
        let c = cells.last();
        assert forall|x: int, y: int| 0 <= x < y < p.len() implies p[x] != p[y] by {
            assert(p[x] == cells[x]);
            assert(p[y] == cells[y]);
        }
        lemma_visible_distinct(w, h, p);
        lemma_visible_source(w, h, p);
        let vp = visible(w, h, p);
        let v = visible(w, h, cells);
        let t = tile_seq(w, h, c);
        assert(v == vp + t);
        assert forall|i: int, j: int| 0 <= i < j < v.len() implies v[i] != v[j] by {
            if j < vp.len() {
                assert(v[i] == vp[i]);
                assert(v[j] == vp[j]);
            } else if i >= vp.len() {
                assert(t.len() <= 1);
            } else {
                assert(v[i] == vp[i]);
                assert(v[j] == t[j - vp.len()]);
                let x = choose|x: int| 0 <= x < p.len() && tile_spec(w, h, p[x].0, p[x].1) == Some(#[trigger] vp[i]);
                if v[i] == v[j] {
                    assert(tile_spec(w, h, c.0, c.1) == Some(v[j]));
                    lemma_tile_spec_injective(w, h, p[x], c);
                    assert(cells[x] == p[x]);
                    assert(cells[cells.len() - 1] == c);
                }
            }
        }
    }
}

/// Every tile of a non-empty image occurs in the spiral order exactly once,
/// and nothing else does: no gaps and no repeats.
pub proof fn lemma_spiral_visits_each_tile_once(w: int, h: int)
    requires
        0 < w <= usize::MAX,
        0 < h <= usize::MAX,
    ensures
        distinct(spiral_spec(w, h)),
        forall|k: int| 0 <= k < spiral_spec(w, h).len() ==> exists|a: int, b: int|
            tile_spec(w, h, a, b) == Some(#[trigger] spiral_spec(w, h)[k]),
        forall|a: int, b: int| (#[trigger] tile_spec(w, h, a, b)) is Some ==> exists|k: int|
            0 <= k < spiral_spec(w, h).len() && Some(#[trigger] spiral_spec(w, h)[k]) == tile_spec(w, h, a, b),
{
    let c = spiral_centre(w, h);
    let n = spiral_rings(w, h);
    let cells = spiral_path(c.0, c.1, n);
    let v = spiral_spec(w, h);
    lemma_spiral_path_cells(c.0, c.1, n);
    lemma_visible_distinct(w, h, cells);
    lemma_visible_source(w, h, cells);
    assert(v == visible(w, h, cells));
    assert forall|k: int| 0 <= k < v.len() implies exists|a: int, b: int|
        tile_spec(w, h, a, b) == Some(#[trigger] v[k]) by {
        let i = choose|i: int| 0 <= i < cells.len() && tile_spec(w, h, cells[i].0, cells[i].1) == Some(v[k]);
        assert(tile_spec(w, h, cells[i].0, cells[i].1) == Some(v[k]));
    }
    assert forall|a: int, b: int| (#[trigger] tile_spec(w, h, a, b)) is Some implies exists|k: int|
        0 <= k < v.len() && Some(#[trigger] v[k]) == tile_spec(w, h, a, b) by {
        assert(a * TILESIZE < w && b * TILESIZE < h);
        assert(a <= (w - 1) / TILESIZE as int);
        assert(b <= (h - 1) / TILESIZE as int);
        assert(in_rings(c.0, c.1, n as int, (a, b)));
        let i = choose|i: int| 0 <= i < cells.len() && #[trigger] cells[i] == (a, b);
        assert(tile_spec(w, h, cells[i].0, cells[i].1) is Some);
        lemma_visible_present(w, h, cells, i);
    }
}

/// The number of tiles along an axis of `len > 0` pixels.
pub open spec fn tile_count(len: int) -> int {
    (len - 1) / TILESIZE as int + 1
}

/// The grid cells of a `w` by `h` image in row-major order: tile rows top
/// to bottom, each left to right.
pub open spec fn raster_cells(w: int, h: int) -> Seq<(int, int)> {
    Seq::new(
        (tile_count(w) * tile_count(h)) as nat,
        |k: int| (k % tile_count(w), k / tile_count(w)),
    )
}

/// The tiles of a `w` by `h` image in row-major order; empty for an empty
/// image.
pub open spec fn raster_spec(w: int, h: int) -> Seq<Tile> {
    if w <= 0 || h <= 0 {
        Seq::empty()
    } else {
        visible(w, h, raster_cells(w, h))
    }
}

/// The tiles of an `image_width` by `image_height` image in row-major order,
/// the order of a one-shot render.
pub fn raster_order(image_width: usize, image_height: usize) -> (r: Vec<Tile>)
    ensures
        r@ == raster_spec(image_width as int, image_height as int),
{
    let mut out: Vec<Tile> = Vec::new();
    if image_width == 0 || image_height == 0 {
        return out;
    }
    let ghost w = image_width as int;
    let ghost h = image_height as int;
    let across = (image_width - 1) / TILESIZE + 1;
    let down = (image_height - 1) / TILESIZE + 1;
    assert(usize::MAX == 2 * (isize::MAX as int) + 1);
    let ghost cells = raster_cells(w, h);
    let mut b: usize = 0;
    assert(cells.take(0) =~= Seq::<(int, int)>::empty());
    while b < down
        invariant
            w == image_width as int,
            h == image_height as int,
            w > 0,
            h > 0,
            across == tile_count(w),
            down == tile_count(h),
            across <= isize::MAX,
            down <= isize::MAX,
            cells == raster_cells(w, h),
            b <= down,
            out@ == visible(w, h, cells.take(b * across)),
        decreases down - b,
    {
        let mut a: usize = 0;
        while a < across
            invariant
                w == image_width as int,
                h == image_height as int,
                w > 0,
                h > 0,
                across == tile_count(w),
                down == tile_count(h),
                across <= isize::MAX,
                down <= isize::MAX,
                cells == raster_cells(w, h),
                b < down,
                a <= across,
                out@ == visible(w, h, cells.take(b * across + a)),
            decreases across - a,
        {
            let ghost k = b * across + a;
            proof {
                assert(k + 1 <= across * down) by (nonlinear_arith)
                    requires k == b * across + a, a < across, b < down;
                lemma_fundamental_div_mod_converse_div(k, across as int, b as int, a as int);
                lemma_fundamental_div_mod_converse_mod(k, across as int, b as int, a as int);
                assert(cells[k] == (a as int, b as int));
                assert(cells.take(k + 1) =~= cells.take(k).push(cells[k]));
                lemma_visible_push(w, h, cells.take(k), cells[k]);
            }
            emit(&mut out, image_width, image_height, a as isize, b as isize);
            a = a + 1;
        }
        proof {
            assert(b * across + across == (b + 1) * across) by (nonlinear_arith);
        }
        b = b + 1;
    }
    proof {
        assert(cells.len() == down * across) by (nonlinear_arith)
            requires cells.len() == across * down;
        assert(cells.take(b * across) =~= cells);
    }
    out
}

} // verus!
