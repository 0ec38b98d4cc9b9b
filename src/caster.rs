use vstd::prelude::*;
use crate::framebuffer::Framebuffer;
use crate::player::{Dir, Player, FIX, POSITION_LIMIT};

verus! {

/// The ray march gives up after this many unit steps.
pub const MAX_DISTANCE: u64 = 1048576;

/// Width and height of every wall texture, in texels.
pub const TEXTURE_SIZE: usize = 230;

/// Color of the pixels a ray marches over.
pub const PATH_COLOR: u32 = 0xFFFFFF;

/// Where a ray met a wall: the number of unit steps marched, the wall cell's
/// character, and the texture column at the point of impact.
#[derive(Clone, Copy, Debug, PartialEq, Eq, Structural)]
pub struct Intersect {
    pub distance: u64,
    pub impact: char,
    pub tx: usize,
}

/// Whether pixel `(x, y)` lies in a cell of the maze, rows indexed by `y`.
pub open spec fn in_grid(m: Seq<Vec<char>>, bs: int, x: int, y: int) -> bool {
    &&& 0 <= x
    &&& 0 <= y
    &&& y / bs < m.len()
    &&& x / bs < m[y / bs]@.len()
}

/// The maze cell that contains pixel `(x, y)`.
pub open spec fn cell_at(m: Seq<Vec<char>>, bs: int, x: int, y: int) -> char {
    m[y / bs]@[x / bs]
}

/// A ray stops on leaving the maze or on entering a non-empty cell.
pub open spec fn stops(m: Seq<Vec<char>>, bs: int, x: int, y: int) -> bool {
    !in_grid(m, bs, x, y) || cell_at(m, bs, x, y) != ' '
}

/// The in-cell offset taken as the wall-facing one: the horizontal offset when
/// it lies strictly inside the cell's edges, the vertical one otherwise.
pub open spec fn wall_offset(bs: int, x: int, y: int) -> int {
    let hx = x % bs;
    if 1 < hx && hx < bs - 1 {
        hx
    } else {
        y % bs
    }
}

/// The wall-facing offset rescaled from `[0, bs)` to `[0, TEXTURE_SIZE)`.
pub open spec fn texture_column(bs: int, x: int, y: int) -> int {
    wall_offset(bs, x, y) * TEXTURE_SIZE / bs
}

/// Pixel column of the ray after `d` unit steps.
pub open spec fn ray_x(pl: Player, dir: Dir, d: int) -> int {
    (pl.x + d * dir.dx) / (FIX as int)
}

/// Pixel row of the ray after `d` unit steps.
pub open spec fn ray_y(pl: Player, dir: Dir, d: int) -> int {
    (pl.y + d * dir.dy) / (FIX as int)
}

/// Whether the ray stops at step `d`.
pub open spec fn stops_at(m: Seq<Vec<char>>, bs: int, pl: Player, dir: Dir, d: int) -> bool {
    stops(m, bs, ray_x(pl, dir, d), ray_y(pl, dir, d))
}

/// The first step from `d` on at which the ray stops, or `MAX_DISTANCE + 1`.
pub open spec fn first_stop(m: Seq<Vec<char>>, bs: int, pl: Player, dir: Dir, d: int) -> int
    decreases MAX_DISTANCE + 1 - d,
{
    if d > MAX_DISTANCE || stops_at(m, bs, pl, dir, d) {
        d
    } else {
        first_stop(m, bs, pl, dir, d + 1)
    }
}

/// What a cast returns: the wall met at the first stop, or `None` when the
/// ray left the maze or marched `MAX_DISTANCE` steps without meeting one.
pub open spec fn ray_hit(m: Seq<Vec<char>>, bs: int, pl: Player, dir: Dir) -> Option<Intersect> {
    let s = first_stop(m, bs, pl, dir, 0);
    let x = ray_x(pl, dir, s);
    let y = ray_y(pl, dir, s);
    if s <= MAX_DISTANCE && in_grid(m, bs, x, y) {
        Some(
            Intersect {
                distance: s as u64,
                impact: cell_at(m, bs, x, y),
                tx: texture_column(bs, x, y) as usize,
            },
        )
    } else {
        None
    }
}

/// Number of steps a cast marches, the stopping one included.
pub open spec fn path_len(m: Seq<Vec<char>>, bs: int, pl: Player, dir: Dir) -> int {
    let s = first_stop(m, bs, pl, dir, 0);
    if s > MAX_DISTANCE {
        MAX_DISTANCE + 1
    } else {
        s + 1
    }
}

/// Whether pixel `(a, b)` is one of the first `n` pixels the ray marches over.
pub open spec fn on_path(pl: Player, dir: Dir, n: int, a: int, b: int) -> bool {
    exists|e: int| 0 <= e < n && #[trigger] ray_x(pl, dir, e) == a && #[trigger] ray_y(pl, dir, e) == b
}

proof fn lemma_texture_column_bound(bs: int, x: int, y: int)
    requires
        0 < bs,
        0 <= x,
        0 <= y,
    ensures
        0 <= texture_column(bs, x, y) < TEXTURE_SIZE,
{
    let w = wall_offset(bs, x, y);
    assert(0 <= w < bs);
    assert(0 <= w * TEXTURE_SIZE / bs < TEXTURE_SIZE) by (nonlinear_arith)
        requires
            0 <= w < bs,
    ;
}

/// Marches a ray from the player's position along `dir` one unit step at a
/// time and reports the first wall cell it enters. With `draw_line` set, every
/// marched pixel, the last one included, is plotted in `PATH_COLOR`.
pub fn cast_ray(
    framebuffer: &mut Framebuffer,
    maze: &Vec<Vec<char>>,
    player: &Player,
    dir: Dir,
    block_size: usize,
    draw_line: bool,
) -> (r: Option<Intersect>)
    requires
        old(framebuffer).wf(),
        player.wf(),
        dir.wf(),
        block_size > 0,
    ensures
        r == ray_hit(maze@, block_size as int, *player, dir),
        r matches Some(h) ==> h.tx < TEXTURE_SIZE && h.impact != ' ',
        final(framebuffer).wf(),
        final(framebuffer).same_shape(old(framebuffer)),
        final(framebuffer).current_color == PATH_COLOR,
        forall|a: int, b: int|
            0 <= a < old(framebuffer).width && 0 <= b < old(framebuffer).height
                ==> #[trigger] final(framebuffer).pixel(a, b) == if draw_line && on_path(
                *player,
                dir,
                path_len(maze@, block_size as int, *player, dir),
                a,
                b,
            ) {
                PATH_COLOR
            } else {
                old(framebuffer).pixel(a, b)
            },
{
    let ghost m = maze@;
    let ghost bs = block_size as int;
    let ghost pl = *player;
    framebuffer.set_current_color(PATH_COLOR);
    let mut d: u64 = 0;
    while d <= MAX_DISTANCE
        invariant
            d <= MAX_DISTANCE + 1,
            m == maze@,
            bs == block_size,
            pl == *player,
            player.wf(),
            dir.wf(),
            block_size > 0,
            first_stop(m, bs, pl, dir, 0) == first_stop(m, bs, pl, dir, d as int),
            framebuffer.wf(),
            framebuffer.same_shape(old(framebuffer)),
            framebuffer.current_color == PATH_COLOR,
            forall|a: int, b: int|
                0 <= a < old(framebuffer).width && 0 <= b < old(framebuffer).height
                    ==> #[trigger] framebuffer.pixel(a, b) == if draw_line && on_path(
                    pl,
                    dir,
                    d as int,
                    a,
                    b,
                ) {
                    PATH_COLOR
                } else {
                    old(framebuffer).pixel(a, b)
                },
        decreases MAX_DISTANCE + 1 - d,
    {
        proof {
            assert(-FIX * MAX_DISTANCE <= d * dir.dx <= FIX * MAX_DISTANCE) by (nonlinear_arith)
                requires
                    0 <= d <= MAX_DISTANCE,
                    -FIX <= dir.dx <= FIX,
            ;
            assert(-FIX * MAX_DISTANCE <= d * dir.dy <= FIX * MAX_DISTANCE) by (nonlinear_arith)
                requires
                    0 <= d <= MAX_DISTANCE,
                    -FIX <= dir.dy <= FIX,
            ;
        }
        let vx: i64 = player.x + (d as i64) * dir.dx;
        let vy: i64 = player.y + (d as i64) * dir.dy;
        let ghost rx = ray_x(pl, dir, d as int);
        let ghost ry = ray_y(pl, dir, d as int);
        if draw_line && vx >= 0 && vy >= 0 {
            let px: u64 = (vx / FIX) as u64;
            let py: u64 = (vy / FIX) as u64;
            assert(px == rx && py == ry);
            if px < framebuffer.width as u64 && py < framebuffer.height as u64 {
                framebuffer.point(px as usize, py as usize);
            }
        }
        proof {
            if vx < 0 {
                assert((vx as int) / (FIX as int) < 0) by (nonlinear_arith)
                    requires
                        vx < 0,
                ;
            }
            if vy < 0 {
                assert((vy as int) / (FIX as int) < 0) by (nonlinear_arith)
                    requires
                        vy < 0,
                ;
            }
            assert forall|a: int, b: int|
                0 <= a < old(framebuffer).width && 0 <= b < old(framebuffer).height implies
                #[trigger] framebuffer.pixel(a, b) == if draw_line && on_path(
                pl,
                dir,
                d + 1,
                a,
                b,
            ) {
                PATH_COLOR
            } else {
                old(framebuffer).pixel(a, b)
            } by {
                if a == rx && b == ry {
                    assert(ray_x(pl, dir, d as int) == a && ray_y(pl, dir, d as int) == b);
                    assert(on_path(pl, dir, d + 1, a, b));
                } else {
                    if on_path(pl, dir, d + 1, a, b) {
                        let e = choose|e: int|
                            0 <= e < d + 1 && #[trigger] ray_x(pl, dir, e) == a && #[trigger] ray_y(
                                pl,
                                dir,
                                e,
                            ) == b;
                        assert(e != d);
                        assert(on_path(pl, dir, d as int, a, b));
                    }
                    if on_path(pl, dir, d as int, a, b) {
                        let e = choose|e: int|
                            0 <= e < d && #[trigger] ray_x(pl, dir, e) == a && #[trigger] ray_y(
                                pl,
                                dir,
                                e,
                            ) == b;
                        assert(on_path(pl, dir, d + 1, a, b));
                    }
                }
            }
        }
        if vx < 0 || vy < 0 {
            return None;
        }
        let x: u64 = (vx / FIX) as u64;
        let y: u64 = (vy / FIX) as u64;
        let bsz: u64 = block_size as u64;
        let j: u64 = y / bsz;
        if j >= maze.len() as u64 {
            return None;
        }
        let row: &Vec<char> = &maze[j as usize];
        let i: u64 = x / bsz;
        if i >= row.len() as u64 {
            return None;
        }
        let c: char = row[i as usize];
        if c != ' ' {
            let hx: u64 = x % bsz;
            let hy: u64 = y % bsz;
            let maxhit: u64 = if 1 < hx && hx < bsz - 1 {
                hx
            } else {
                hy
            };
            proof {
                lemma_texture_column_bound(bs, x as int, y as int);
            }
            let tx: usize = ((maxhit as u128) * (TEXTURE_SIZE as u128) / (bsz as u128)) as usize;
            return Some(Intersect { distance: d, impact: c, tx });
        }
        d = d + 1;
    }
    None
}

/// Every wall a cast reports has its texture column inside the texture.
pub proof fn lemma_tx_in_range(m: Seq<Vec<char>>, bs: int, pl: Player, dir: Dir)
    requires
        0 < bs,
    ensures
        ray_hit(m, bs, pl, dir) matches Some(h) ==> h.tx < TEXTURE_SIZE,
{
    let s = first_stop(m, bs, pl, dir, 0);
    let x = ray_x(pl, dir, s);
    let y = ray_y(pl, dir, s);
    if s <= MAX_DISTANCE && in_grid(m, bs, x, y) {
        lemma_texture_column_bound(bs, x, y);
    }
}

/// Pixel coordinate reached from fixed-point `v` after `e` steps of `s`
/// pixels.
pub open spec fn axis_point(v: int, s: int, e: int) -> int {
    v / (FIX as int) + e * s
}

/// Pixel coordinate after `e` steps along an axis component `k * FIX`.
proof fn lemma_axis_step(v: int, k: int, e: int)
    ensures
        (v + e * (k * FIX)) / (FIX as int) == v / (FIX as int) + e * k,
{
    let q = v / (FIX as int);
    let r = v % (FIX as int);
    vstd::arithmetic::div_mod::lemma_fundamental_div_mod(v, FIX as int);
    assert(v + e * (k * FIX) == (q + e * k) * FIX + r) by (nonlinear_arith)
        requires
            v == FIX * q + r,
    ;
    vstd::arithmetic::div_mod::lemma_fundamental_div_mod_converse(
        v + e * (k * FIX),
        FIX as int,
        q + e * k,
        r,
    );
}

proof fn lemma_first_stop_is(m: Seq<Vec<char>>, bs: int, pl: Player, dir: Dir, d: int, n: int)
    requires
        0 <= d <= n <= MAX_DISTANCE,
        forall|e: int| d <= e < n ==> !stops_at(m, bs, pl, dir, e),
        stops_at(m, bs, pl, dir, n),
    ensures
        first_stop(m, bs, pl, dir, d) == n,
    decreases n - d,
{
    if d < n {
        lemma_first_stop_is(m, bs, pl, dir, d + 1, n);
    }
}

/// A ray sent along a grid axis through `n` empty pixels onto a wall pixel
/// reports that wall at distance exactly `n`.
pub proof fn lemma_axis_ray_distance(
    m: Seq<Vec<char>>,
    bs: int,
    pl: Player,
    dir: Dir,
    sx: int,
    sy: int,
    n: int,
)
    requires
        0 < bs,
        0 <= n <= MAX_DISTANCE,
        (sx == 1 || sx == -1) && sy == 0 || sx == 0 && (sy == 1 || sy == -1),
        dir.dx == sx * FIX,
        dir.dy == sy * FIX,
        forall|e: int|
            0 <= e < n ==> !#[trigger] stops(
                m,
                bs,
                axis_point(pl.x as int, sx, e),
                axis_point(pl.y as int, sy, e),
            ),
        in_grid(m, bs, axis_point(pl.x as int, sx, n), axis_point(pl.y as int, sy, n)),
        cell_at(m, bs, axis_point(pl.x as int, sx, n), axis_point(pl.y as int, sy, n)) != ' ',
    ensures
        ray_hit(m, bs, pl, dir) matches Some(h) && h.distance == n,
{
    assert forall|e: int| 0 <= e <= n implies #[trigger] ray_x(pl, dir, e) == axis_point(
        pl.x as int,
        sx,
        e,
    ) && ray_y(pl, dir, e) == axis_point(pl.y as int, sy, e) by {
        lemma_axis_step(pl.x as int, sx, e);
        lemma_axis_step(pl.y as int, sy, e);
    }
    assert forall|e: int| 0 <= e < n implies !stops_at(m, bs, pl, dir, e) by {
        assert(ray_x(pl, dir, e) == axis_point(pl.x as int, sx, e));
        assert(!stops(m, bs, axis_point(pl.x as int, sx, e), axis_point(pl.y as int, sy, e)));
    }
    assert(ray_x(pl, dir, n) == axis_point(pl.x as int, sx, n));
    lemma_first_stop_is(m, bs, pl, dir, 0, n);
}

proof fn lemma_first_stop_props(m: Seq<Vec<char>>, bs: int, pl: Player, dir: Dir, d: int)
    requires
        0 <= d <= MAX_DISTANCE + 1,
    ensures
        d <= first_stop(m, bs, pl, dir, d) <= MAX_DISTANCE + 1,
        forall|e: int|
            d <= e < first_stop(m, bs, pl, dir, d) ==> !#[trigger] stops_at(m, bs, pl, dir, e),
        first_stop(m, bs, pl, dir, d) <= MAX_DISTANCE ==> stops_at(
            m,
            bs,
            pl,
            dir,
            first_stop(m, bs, pl, dir, d),
        ),
    decreases MAX_DISTANCE + 1 - d,
{
    if d <= MAX_DISTANCE && !stops_at(m, bs, pl, dir, d) {
        lemma_first_stop_props(m, bs, pl, dir, d + 1);
        assert forall|e: int|
            d <= e < first_stop(m, bs, pl, dir, d) implies !#[trigger] stops_at(
            m,
            bs,
            pl,
            dir,
            e,
        ) by {
            if e > d {
                assert(d + 1 <= e);
            }
        }
    }
}

/// One step moves the ray at most one pixel along each axis.
proof fn lemma_unit_step(v: int, k: int)
    requires
        -FIX <= k <= FIX,
    ensures
        v / (FIX as int) - 1 <= (v + k) / (FIX as int) <= v / (FIX as int) + 1,
{
    let f = FIX as int;
    let q = v / f;
    let r = v % f;
    vstd::arithmetic::div_mod::lemma_fundamental_div_mod(v, f);
    if r + k < 0 {
        vstd::arithmetic::div_mod::lemma_fundamental_div_mod_converse(v + k, f, q - 1, r + k + f);
    } else if r + k < f {
        vstd::arithmetic::div_mod::lemma_fundamental_div_mod_converse(v + k, f, q, r + k);
    } else {
        vstd::arithmetic::div_mod::lemma_fundamental_div_mod_converse(v + k, f, q + 1, r + k - f);
    }
}

/// Bounds of a nonnegative pixel coordinate from the index of its cell.
proof fn lemma_cell_bounds(a: int, bs: int)
    requires
        0 <= a,
        0 < bs,
    ensures
        bs * (a / bs) <= a < bs * (a / bs) + bs,
        0 <= a / bs,
{
    vstd::arithmetic::div_mod::lemma_fundamental_div_mod(a, bs);
    vstd::arithmetic::div_mod::lemma_div_pos_is_pos(a, bs);
}

/// A rectangular room of `'+'` walls around empty floor, at least one floor
/// cell wide and tall.
pub open spec fn is_room(m: Seq<Vec<char>>) -> bool {
    &&& m.len() >= 3
    &&& m[0]@.len() >= 3
    &&& forall|r: int| 0 <= r < m.len() ==> (#[trigger] m[r])@.len() == m[0]@.len()
    &&& forall|r: int, c: int|
        0 <= r < m.len() && 0 <= c < m[0]@.len() ==> #[trigger] m[r]@[c] == if r == 0 || r == m.len()
            - 1 || c == 0 || c == m[0]@.len() - 1 {
            '+'
        } else {
            ' '
        }
}

/// Whether pixel `(x, y)` lies in a floor cell of room `m`.
pub open spec fn in_floor(m: Seq<Vec<char>>, bs: int, x: int, y: int) -> bool {
    &&& 0 <= x
    &&& 0 <= y
    &&& 1 <= x / bs <= m[0]@.len() - 2
    &&& 1 <= y / bs <= m.len() - 2
}

/// A ray cast from the floor of a `'+'` room never leaves the room unseen:
/// whenever it stops within `MAX_DISTANCE` steps it reports a `'+'` wall.
pub proof fn lemma_room_ray_hits_wall(m: Seq<Vec<char>>, bs: int, pl: Player, dir: Dir)
    requires
        0 < bs,
        is_room(m),
        dir.wf(),
        in_floor(m, bs, (pl.x as int) / (FIX as int), (pl.y as int) / (FIX as int)),
    ensures
        first_stop(m, bs, pl, dir, 0) <= MAX_DISTANCE ==> (ray_hit(m, bs, pl, dir) matches Some(h)
            && h.impact == '+'),
{
    let s = first_stop(m, bs, pl, dir, 0);
    lemma_first_stop_props(m, bs, pl, dir, 0);
    if s <= MAX_DISTANCE {
        assert(ray_x(pl, dir, 0) == (pl.x as int) / (FIX as int));
        assert(ray_y(pl, dir, 0) == (pl.y as int) / (FIX as int));
        let rows = m.len() as int;
        let cols = m[0]@.len() as int;
        // every unstopped step lies on the floor
        assert forall|e: int| 0 <= e < s implies in_floor(
            m,
            bs,
            ray_x(pl, dir, e),
            ray_y(pl, dir, e),
        ) by {
            assert(!stops_at(m, bs, pl, dir, e));
            let x = ray_x(pl, dir, e);
            let y = ray_y(pl, dir, e);
            assert(m[y / bs]@.len() == cols);
            assert(m[y / bs]@[x / bs] == ' ');
        }
        if s == 0 {
            let x = ray_x(pl, dir, 0);
            let y = ray_y(pl, dir, 0);
            assert(m[y / bs]@.len() == cols);
            assert(m[y / bs]@[x / bs] == ' ');
            assert(false);
        }
        let x0 = ray_x(pl, dir, s - 1);
        let y0 = ray_y(pl, dir, s - 1);
        let x1 = ray_x(pl, dir, s);
        let y1 = ray_y(pl, dir, s);
        assert(in_floor(m, bs, x0, y0));
        assert(pl.x + s * dir.dx == (pl.x + (s - 1) * dir.dx) + dir.dx) by (nonlinear_arith);
        assert(pl.y + s * dir.dy == (pl.y + (s - 1) * dir.dy) + dir.dy) by (nonlinear_arith);
        lemma_unit_step(pl.x + (s - 1) * dir.dx, dir.dx as int);
        lemma_unit_step(pl.y + (s - 1) * dir.dy, dir.dy as int);
        lemma_cell_bounds(x0, bs);
        lemma_cell_bounds(y0, bs);
        let qx = x0 / bs;
        let qy = y0 / bs;
        assert(bs <= bs * qx && bs * qx + bs <= bs * (cols - 1)) by (nonlinear_arith)
            requires
                1 <= qx <= cols - 2,
                0 < bs,
        ;
        assert(bs <= bs * qy && bs * qy + bs <= bs * (rows - 1)) by (nonlinear_arith)
            requires
                1 <= qy <= rows - 2,
                0 < bs,
        ;
        assert(0 <= x1 && 0 <= y1);
        lemma_cell_bounds(x1, bs);
        lemma_cell_bounds(y1, bs);
        assert(x1 / bs < cols) by {
            if x1 / bs >= cols {
                assert(bs * (x1 / bs) >= bs * (cols - 1) + bs) by (nonlinear_arith)
                    requires
                        x1 / bs >= cols,
                        0 < bs,
                ;
            }
        }
        assert(y1 / bs < rows) by {
            if y1 / bs >= rows {
                assert(bs * (y1 / bs) >= bs * (rows - 1) + bs) by (nonlinear_arith)
                    requires
                        y1 / bs >= rows,
                        0 < bs,
                ;
            }
        }
        assert(m[y1 / bs]@.len() == cols);
        assert(in_grid(m, bs, x1, y1));
        assert(m[y1 / bs]@[x1 / bs] == '+' || m[y1 / bs]@[x1 / bs] == ' ');
    }
}

proof fn lemma_room_step_on_floor(m: Seq<Vec<char>>, bs: int, pl: Player, dir: Dir, e: int)
    requires
        0 < bs,
        is_room(m),
        !stops_at(m, bs, pl, dir, e),
    ensures
        in_floor(m, bs, ray_x(pl, dir, e), ray_y(pl, dir, e)),
{
    let x = ray_x(pl, dir, e);
    let y = ray_y(pl, dir, e);
    assert(m[y / bs]@.len() == m[0]@.len());
    assert(m[y / bs]@[x / bs] == ' ');
}

/// Far end of a march of `MAX_DISTANCE` steps along a component of at least
/// half a unit.
proof fn lemma_long_march(v: int, k: int)
    requires
        FIX / 2 <= k <= FIX,
    ensures
        (v + MAX_DISTANCE * k) / (FIX as int) >= v / (FIX as int) + MAX_DISTANCE / 2,
        (v - MAX_DISTANCE * k) / (FIX as int) <= v / (FIX as int) - MAX_DISTANCE / 2,
{
    lemma_axis_step(v, 1, (MAX_DISTANCE / 2) as int);
    lemma_axis_step(v, -1, (MAX_DISTANCE / 2) as int);
    assert(v + (MAX_DISTANCE / 2) * (1 * FIX) <= v + MAX_DISTANCE * k) by (nonlinear_arith)
        requires
            FIX / 2 <= k,
    ;
    assert(v - MAX_DISTANCE * k <= v + (MAX_DISTANCE / 2) * (-1 * FIX)) by (nonlinear_arith)
        requires
            FIX / 2 <= k,
    ;
    vstd::arithmetic::div_mod::lemma_div_is_ordered(
        v + (MAX_DISTANCE / 2) * (1 * FIX),
        v + MAX_DISTANCE * k,
        FIX as int,
    );
    vstd::arithmetic::div_mod::lemma_div_is_ordered(
        v - MAX_DISTANCE * k,
        v + (MAX_DISTANCE / 2) * (-1 * FIX),
        FIX as int,
    );
}

/// A floor pixel of a room lies inside the room's pixel extent.
proof fn lemma_floor_extent(a: int, bs: int, n: int)
    requires
        0 < bs,
        0 <= a,
        1 <= a / bs <= n - 2,
    ensures
        0 <= a < bs * n,
{
    lemma_cell_bounds(a, bs);
    let q = a / bs;
    assert(bs * q + bs <= bs * n) by (nonlinear_arith)
        requires
            q <= n - 2,
            0 < bs,
    ;
}

/// A ray cast with a unit direction from the floor of a `'+'` room at most
/// `MAX_DISTANCE / 4` pixels across always reports a `'+'` wall.
pub proof fn lemma_room_ray_terminates(m: Seq<Vec<char>>, bs: int, pl: Player, dir: Dir)
    requires
        0 < bs,
        is_room(m),
        dir.wf(),
        dir.dx >= FIX / 2 || dir.dx <= -FIX / 2 || dir.dy >= FIX / 2 || dir.dy <= -FIX / 2,
        bs * m.len() <= MAX_DISTANCE / 4,
        bs * m[0]@.len() <= MAX_DISTANCE / 4,
        in_floor(m, bs, (pl.x as int) / (FIX as int), (pl.y as int) / (FIX as int)),
    ensures
        ray_hit(m, bs, pl, dir) matches Some(h) && h.impact == '+',
{
    let s = first_stop(m, bs, pl, dir, 0);
    lemma_first_stop_props(m, bs, pl, dir, 0);
    let rows = m.len() as int;
    let cols = m[0]@.len() as int;
    let f = FIX as int;
    if s > MAX_DISTANCE {
        let e = MAX_DISTANCE as int;
        assert(!stops_at(m, bs, pl, dir, e));
        lemma_room_step_on_floor(m, bs, pl, dir, e);
        let x = ray_x(pl, dir, e);
        let y = ray_y(pl, dir, e);
        lemma_floor_extent(x, bs, cols);
        lemma_floor_extent(y, bs, rows);
        lemma_floor_extent((pl.x as int) / f, bs, cols);
        lemma_floor_extent((pl.y as int) / f, bs, rows);
        if dir.dx >= FIX / 2 {
            lemma_long_march(pl.x as int, dir.dx as int);
        } else if dir.dx <= -FIX / 2 {
            lemma_long_march(pl.x as int, -dir.dx);
            assert(pl.x - MAX_DISTANCE * (-dir.dx) == pl.x + e * dir.dx);
        } else if dir.dy >= FIX / 2 {
            lemma_long_march(pl.y as int, dir.dy as int);
        } else {
            lemma_long_march(pl.y as int, -dir.dy);
            assert(pl.y - MAX_DISTANCE * (-dir.dy) == pl.y + e * dir.dy);
        }
    }
    lemma_room_ray_hits_wall(m, bs, pl, dir);
}

} // verus!
