use vstd::prelude::*;
use crate::caster::{
    cast_ray, cell_at, in_grid, on_path, path_len, ray_hit, Intersect, PATH_COLOR, TEXTURE_SIZE,
};
use crate::framebuffer::Framebuffer;
use crate::player::{Dir, Player, FIX};
use crate::texture::{cell_color, cell_to_color, cell_to_texture_color, texture_color, TextureSet};

verus! {

/// Distance-to-height scale of the perspective projection.
pub const PROJECTION_SCALE: u64 = 70;

/// Color of the upper half of the 3D view.
pub const CEILING_COLOR: u32 = 0x383838;

/// Color of the lower half of the 3D view.
pub const FLOOR_COLOR: u32 = 0x717171;

/// Color of the player's pixel in the top-down view.
pub const PLAYER_COLOR: u32 = 0xFFFFFF;

/// Number of rays in the fan of the top-down view.
pub const NUM_RAYS: usize = 100;

/// Pixel `(a, b)` after filling the `w` by `h` rectangle at `(xo, yo)` with the flat
/// color of `cell`; empty cells draw nothing.
pub open spec fn cell_block_pixel(
    old_pixel: u32,
    xo: int,
    yo: int,
    w: int,
    h: int,
    cell: char,
    a: int,
    b: int,
) -> u32 {
    if cell != ' ' && xo <= a < xo + w && yo <= b < yo + h {
        cell_color(cell)
    } else {
        old_pixel
    }
}

/// Fills the `block_size` square at `(xo, yo)` with the flat color of a
/// non-empty `cell`; an empty cell draws nothing.
pub fn draw_cell(framebuffer: &mut Framebuffer, xo: usize, yo: usize, block_size: usize, cell: char)
    requires
        old(framebuffer).wf(),
        xo + block_size <= usize::MAX,
        yo + block_size <= usize::MAX,
    ensures
        final(framebuffer).wf(),
        final(framebuffer).same_shape(old(framebuffer)),
        forall|a: int, b: int|
            0 <= a < old(framebuffer).width && 0 <= b < old(framebuffer).height
                ==> #[trigger] final(framebuffer).pixel(a, b) == cell_block_pixel(
                old(framebuffer).pixel(a, b),
                xo as int,
                yo as int,
                block_size as int,
                block_size as int,
                cell,
                a,
                b,
            ),
{
    if cell == ' ' {
        return ;
    }
    let color = cell_to_color(cell);
    framebuffer.set_current_color(color);
    let mut x: usize = xo;
    while x < xo + block_size
        invariant
            xo <= x <= xo + block_size,
            xo + block_size <= usize::MAX,
            yo + block_size <= usize::MAX,
            cell != ' ',
            color == cell_color(cell),
            framebuffer.current_color == color,
            framebuffer.wf(),
            framebuffer.same_shape(old(framebuffer)),
            forall|a: int, b: int|
                0 <= a < old(framebuffer).width && 0 <= b < old(framebuffer).height
                    ==> #[trigger] framebuffer.pixel(a, b) == cell_block_pixel(
                    old(framebuffer).pixel(a, b),
                    xo as int,
                    yo as int,
                    x - xo,
                    block_size as int,
                    cell,
                    a,
                    b,
                ),
        decreases xo + block_size - x,
    {
        let mut y: usize = yo;
        while y < yo + block_size
            invariant
                xo <= x < xo + block_size,
                yo <= y <= yo + block_size,
                yo + block_size <= usize::MAX,
                cell != ' ',
                color == cell_color(cell),
                framebuffer.current_color == color,
                framebuffer.wf(),
                framebuffer.same_shape(old(framebuffer)),
                forall|a: int, b: int|
                    0 <= a < old(framebuffer).width && 0 <= b < old(framebuffer).height
                        ==> #[trigger] framebuffer.pixel(a, b) == if a == x && yo <= b < y {
                        color
                    } else {
                        cell_block_pixel(
                            old(framebuffer).pixel(a, b),
                            xo as int,
                            yo as int,
                            x - xo,
                            block_size as int,
                            cell,
                            a,
                            b,
                        )
                    },
            decreases yo + block_size - y,
        {
            framebuffer.point(x, y);
            y = y + 1;
        }
        x = x + 1;
    }
}

/// Background of the 3D view: ceiling above the middle row, floor from it on.
pub open spec fn background_pixel(h: int, b: int) -> u32 {
    if b < h / 2 {
        CEILING_COLOR
    } else {
        FLOOR_COLOR
    }
}

fn fill_background(framebuffer: &mut Framebuffer)
    requires
        old(framebuffer).wf(),
    ensures
        final(framebuffer).wf(),
        final(framebuffer).same_shape(old(framebuffer)),
        forall|a: int, b: int|
            0 <= a < old(framebuffer).width && 0 <= b < old(framebuffer).height
                ==> #[trigger] final(framebuffer).pixel(a, b) == background_pixel(
                old(framebuffer).height as int,
                b,
            ),
{
    let w = framebuffer.width;
    let h = framebuffer.height;
    let mut i: usize = 0;
    while i < w
        invariant
            i <= w,
            w == old(framebuffer).width,
            h == old(framebuffer).height,
            framebuffer.wf(),
            framebuffer.same_shape(old(framebuffer)),
            forall|a: int, b: int|
                0 <= a < w && 0 <= b < h ==> #[trigger] framebuffer.pixel(a, b) == if a < i {
                    background_pixel(h as int, b)
                } else {
                    old(framebuffer).pixel(a, b)
                },
        decreases w - i,
    {
        framebuffer.set_current_color(CEILING_COLOR);
        let mut j: usize = 0;
        while j < h
            invariant
                i < w,
                j <= h,
                w == old(framebuffer).width,
                h == old(framebuffer).height,
                framebuffer.wf(),
                framebuffer.same_shape(old(framebuffer)),
                (j <= h / 2 && framebuffer.current_color == CEILING_COLOR) || (j > h / 2
                    && framebuffer.current_color == FLOOR_COLOR),
                forall|a: int, b: int|
                    0 <= a < w && 0 <= b < h ==> #[trigger] framebuffer.pixel(a, b) == if a < i
                        || (a == i && b < j) {
                        background_pixel(h as int, b)
                    } else {
                        old(framebuffer).pixel(a, b)
                    },
            decreases h - j,
        {
            if j == h / 2 {
                framebuffer.set_current_color(FLOOR_COLOR);
            }
            framebuffer.point(i, j);
            j = j + 1;
        }
        i = i + 1;
    }
}

/// Projected height of a wall `distance` steps away on a screen `h` rows
/// tall: `h * PROJECTION_SCALE / distance`, a distance of zero counted as one.
pub open spec fn stake_height(h: int, distance: int) -> int {
    h * PROJECTION_SCALE / if distance == 0 {
        1
    } else {
        distance
    }
}

/// First row of the strip, centered on row `h / 2`; may lie above the screen.
pub open spec fn stake_top(h: int, distance: int) -> int {
    h / 2 - stake_height(h, distance) / 2
}

/// Row just past the strip; may lie below the screen.
pub open spec fn stake_bottom(h: int, distance: int) -> int {
    h / 2 + stake_height(h, distance) / 2
}

/// Whether row `b` lies in the strip, before clipping to the screen.
pub open spec fn stake_covers(h: int, distance: int, b: int) -> bool {
    stake_top(h, distance) <= b < stake_bottom(h, distance)
}

/// Texture row for screen row `b` of the strip: its position within the
/// whole strip scaled to `[0, TEXTURE_SIZE)`.
pub open spec fn stake_row(h: int, distance: int, b: int) -> int {
    (b - stake_top(h, distance)) * TEXTURE_SIZE / (stake_bottom(h, distance) - stake_top(
        h,
        distance,
    ))
}

pub open spec fn stake_pixel(textures: TextureSet, hit: Intersect, h: int, b: int) -> u32 {
    texture_color(textures, hit.impact, hit.tx as int, stake_row(h, hit.distance as int, b))
}

/// Paints column `column` with the textured strip of `hit`, rows clipped to
/// the screen.
pub fn draw_stake(
    framebuffer: &mut Framebuffer,
    textures: &TextureSet,
    column: usize,
    hit: &Intersect,
)
    requires
        old(framebuffer).wf(),
        textures.wf(),
        hit.tx < TEXTURE_SIZE,
    ensures
        final(framebuffer).wf(),
        final(framebuffer).same_shape(old(framebuffer)),
        forall|a: int, b: int|
            0 <= a < old(framebuffer).width && 0 <= b < old(framebuffer).height
                ==> #[trigger] final(framebuffer).pixel(a, b) == if a == column && stake_covers(
                old(framebuffer).height as int,
                hit.distance as int,
                b,
            ) {
                stake_pixel(*textures, *hit, old(framebuffer).height as int, b)
            } else {
                old(framebuffer).pixel(a, b)
            },
{
    let ghost hh = framebuffer.height as int;
    let ghost dist = hit.distance as int;
    let h: usize = framebuffer.height;
    let divisor: u128 = if hit.distance == 0 {
        1
    } else {
        hit.distance as u128
    };
    proof {
        assert(h * PROJECTION_SCALE <= 0x1_0000_0000_0000_0000int * 70) by (nonlinear_arith)
            requires
                0 <= h <= 0x1_0000_0000_0000_0000int,
        ;
        assert(h * PROJECTION_SCALE / (divisor as int) <= h * PROJECTION_SCALE) by (nonlinear_arith)
            requires
                0 <= h * PROJECTION_SCALE,
                1 <= divisor,
        ;
    }
    let height: u128 = (h as u128) * (PROJECTION_SCALE as u128) / divisor;
    let half: i128 = (height / 2) as i128;
    let top: i128 = (h / 2) as i128 - half;
    let bottom: i128 = (h / 2) as i128 + half;
    assert(top == stake_top(hh, dist) && bottom == stake_bottom(hh, dist));
    let lo: usize = if top < 0 {
        0
    } else {
        top as usize
    };
    let hi: usize = if bottom > h as i128 {
        h
    } else {
        bottom as usize
    };
    let mut y: usize = lo;
    while y < hi
        invariant
            lo <= y <= hi,
            hi <= h,
            h == hh,
            h == old(framebuffer).height,
            dist == hit.distance,
            hit.tx < TEXTURE_SIZE,
            textures.wf(),
            top == stake_top(hh, dist),
            bottom == stake_bottom(hh, dist),
            top <= lo,
            hi <= bottom,
            lo == 0 || lo == top,
            hi == h || hi == bottom,
            framebuffer.wf(),
            framebuffer.same_shape(old(framebuffer)),
            forall|a: int, b: int|
                0 <= a < old(framebuffer).width && 0 <= b < old(framebuffer).height
                    ==> #[trigger] framebuffer.pixel(a, b) == if a == column && lo <= b < y {
                    stake_pixel(*textures, *hit, hh, b)
                } else {
                    old(framebuffer).pixel(a, b)
                },
        decreases hi - y,
    {
        proof {
            assert(0 <= (y - top) * TEXTURE_SIZE / (bottom - top) < TEXTURE_SIZE) by (nonlinear_arith)
                requires
                    top <= y < bottom,
            ;
        }
        let ty: i128 = ((y as i128) - top) * (TEXTURE_SIZE as i128) / (bottom - top);
        let color = cell_to_texture_color(textures, hit.impact, hit.tx as u32, ty as u32);
        framebuffer.set_current_color(color);
        framebuffer.point(column, y);
        y = y + 1;
    }
}

/// Pixel `(a, b)` of the 3D view after its first `k` columns are drawn.
pub open spec fn view3d_pixel(
    m: Seq<Vec<char>>,
    bs: int,
    pl: Player,
    dirs: Seq<Dir>,
    textures: TextureSet,
    h: int,
    k: int,
    a: int,
    b: int,
) -> u32
    decreases k,
{
    if k <= 0 {
        background_pixel(h, b)
    } else {
        let dir = dirs[k - 1];
        let hit = ray_hit(m, bs, pl, dir);
        if a == k - 1 && hit is Some && stake_covers(h, hit->Some_0.distance as int, b) {
            stake_pixel(textures, hit->Some_0, h, b)
        } else if on_path(pl, dir, path_len(m, bs, pl, dir), a, b) {
            PATH_COLOR
        } else {
            view3d_pixel(m, bs, pl, dirs, textures, h, k - 1, a, b)
        }
    }
}

/// Draws the 3D view: ceiling and floor, then for each column `i` a ray along
/// `dirs[i]`, the direction of `column_angle(player, i, width)`, with its path
/// and the textured strip of the wall it meets.
pub fn render3d(
    framebuffer: &mut Framebuffer,
    maze: &Vec<Vec<char>>,
    player: &Player,
    dirs: &Vec<Dir>,
    block_size: usize,
    textures: &TextureSet,
)
    requires
        old(framebuffer).wf(),
        player.wf(),
        dirs@.len() == old(framebuffer).width,
        forall|k: int| 0 <= k < dirs@.len() ==> (#[trigger] dirs@[k]).wf(),
        block_size > 0,
        textures.wf(),
    ensures
        final(framebuffer).wf(),
        final(framebuffer).same_shape(old(framebuffer)),
        forall|a: int, b: int|
            0 <= a < old(framebuffer).width && 0 <= b < old(framebuffer).height
                ==> #[trigger] final(framebuffer).pixel(a, b) == view3d_pixel(
                maze@,
                block_size as int,
                *player,
                dirs@,
                *textures,
                old(framebuffer).height as int,
                old(framebuffer).width as int,
                a,
                b,
            ),
{
    let ghost h = framebuffer.height as int;
    fill_background(framebuffer);
    let num_rays = framebuffer.width;
    let mut i: usize = 0;
    while i < num_rays
        invariant
            i <= num_rays,
            num_rays == old(framebuffer).width,
            h == old(framebuffer).height,
            player.wf(),
            dirs@.len() == num_rays,
            forall|k: int| 0 <= k < dirs@.len() ==> (#[trigger] dirs@[k]).wf(),
            block_size > 0,
            textures.wf(),
            framebuffer.wf(),
            framebuffer.same_shape(old(framebuffer)),
            forall|a: int, b: int|
                0 <= a < old(framebuffer).width && 0 <= b < old(framebuffer).height
                    ==> #[trigger] framebuffer.pixel(a, b) == view3d_pixel(
                    maze@,
                    block_size as int,
                    *player,
                    dirs@,
                    *textures,
                    h,
                    i as int,
                    a,
                    b,
                ),
        decreases num_rays - i,
    {
        let dir = dirs[i];
        let hit = cast_ray(framebuffer, maze, player, dir, block_size, true);
        match hit {
            Some(intersect) => {
                draw_stake(framebuffer, textures, i, &intersect);
            },
            None => {},
        }
        i = i + 1;
    }
}

/// Pixel `(a, b)` of the top-down map: the flat color of the non-empty cell
/// that contains it, or `old_pixel`.
pub open spec fn map_pixel(m: Seq<Vec<char>>, bs: int, old_pixel: u32, a: int, b: int) -> u32 {
    if in_grid(m, bs, a, b) && cell_at(m, bs, a, b) != ' ' {
        cell_color(cell_at(m, bs, a, b))
    } else {
        old_pixel
    }
}

/// Pixel `(a, b)` of the top-down view over `old_pixel` after the map, the
/// player's pixel and the first `k` rays of the fan are drawn.
pub open spec fn view2d_pixel(
    m: Seq<Vec<char>>,
    bs: int,
    pl: Player,
    dirs: Seq<Dir>,
    old_pixel: u32,
    k: int,
    a: int,
    b: int,
) -> u32
    decreases k,
{
    if k <= 0 {
        if a == (pl.x as int) / (FIX as int) && b == (pl.y as int) / (FIX as int) {
            PLAYER_COLOR
        } else {
            map_pixel(m, bs, old_pixel, a, b)
        }
    } else {
        let dir = dirs[k - 1];
        if on_path(pl, dir, path_len(m, bs, pl, dir), a, b) {
            PATH_COLOR
        } else {
            view2d_pixel(m, bs, pl, dirs, old_pixel, k - 1, a, b)
        }
    }
}

proof fn lemma_block_of(a: int, c: int, bs: int)
    requires
        0 < bs,
        0 <= a,
    ensures
        (c * bs <= a < c * bs + bs) == (a / bs == c),
{
    vstd::arithmetic::div_mod::lemma_fundamental_div_mod(a, bs);
    let q = a / bs;
    let r = a % bs;
    assert(0 <= r < bs);
    assert((c * bs <= a < c * bs + bs) == (q == c)) by (nonlinear_arith)
        requires
            a == bs * q + r,
            0 <= r < bs,
            0 < bs,
    ;
}

fn draw_map(framebuffer: &mut Framebuffer, maze: &Vec<Vec<char>>, block_size: usize)
    requires
        old(framebuffer).wf(),
        block_size > 0,
        maze@.len() * block_size <= usize::MAX,
        forall|r: int| 0 <= r < maze@.len() ==> (#[trigger] maze@[r])@.len() * block_size <= usize::MAX,
    ensures
        final(framebuffer).wf(),
        final(framebuffer).same_shape(old(framebuffer)),
        forall|a: int, b: int|
            0 <= a < old(framebuffer).width && 0 <= b < old(framebuffer).height
                ==> #[trigger] final(framebuffer).pixel(a, b) == map_pixel(
                maze@,
                block_size as int,
                old(framebuffer).pixel(a, b),
                a,
                b,
            ),
{
    let ghost bs = block_size as int;
    let mut row: usize = 0;
    while row < maze.len()
        invariant
            row <= maze@.len(),
            bs == block_size,
            block_size > 0,
            maze@.len() * block_size <= usize::MAX,
            forall|r: int|
                0 <= r < maze@.len() ==> (#[trigger] maze@[r])@.len() * block_size <= usize::MAX,
            framebuffer.wf(),
            framebuffer.same_shape(old(framebuffer)),
            forall|a: int, b: int|
                0 <= a < old(framebuffer).width && 0 <= b < old(framebuffer).height
                    ==> #[trigger] framebuffer.pixel(a, b) == if b / bs < row {
                    map_pixel(maze@, bs, old(framebuffer).pixel(a, b), a, b)
                } else {
                    old(framebuffer).pixel(a, b)
                },
        decreases maze@.len() - row,
    {
        let mut col: usize = 0;
        while col < maze[row].len()
            invariant
                row < maze@.len(),
                col <= maze@[row as int]@.len(),
                bs == block_size,
                block_size > 0,
                maze@.len() * block_size <= usize::MAX,
                maze@[row as int]@.len() * block_size <= usize::MAX,
                framebuffer.wf(),
                framebuffer.same_shape(old(framebuffer)),
                forall|a: int, b: int|
                    0 <= a < old(framebuffer).width && 0 <= b < old(framebuffer).height
                        ==> #[trigger] framebuffer.pixel(a, b) == if b / bs < row || (b / bs
                        == row && a / bs < col) {
                        map_pixel(maze@, bs, old(framebuffer).pixel(a, b), a, b)
                    } else {
                        old(framebuffer).pixel(a, b)
                    },
            decreases maze@[row as int]@.len() - col,
        {
            proof {
                assert(col * block_size + block_size <= maze@[row as int]@.len() * block_size)
                    by (nonlinear_arith)
                    requires
                        col + 1 <= maze@[row as int]@.len(),
                        0 < block_size,
                ;
                assert(row * block_size + block_size <= maze@.len() * block_size) by (nonlinear_arith)
                    requires
                        row + 1 <= maze@.len(),
                        0 < block_size,
                ;
            }
            let xo: usize = col * block_size;
            let yo: usize = row * block_size;
            draw_cell(framebuffer, xo, yo, block_size, maze[row][col]);
            proof {
                assert forall|a: int, b: int|
                    0 <= a < old(framebuffer).width && 0 <= b < old(framebuffer).height implies
                    #[trigger] framebuffer.pixel(a, b) == if b / bs < row || (b / bs == row && a
                    / bs < col + 1) {
                    map_pixel(maze@, bs, old(framebuffer).pixel(a, b), a, b)
                } else {
                    old(framebuffer).pixel(a, b)
                } by {
                    lemma_block_of(a, col as int, bs);
                    lemma_block_of(b, row as int, bs);
                }
            }
            col = col + 1;
        }
        proof {
            assert forall|a: int, b: int|
                0 <= a < old(framebuffer).width && 0 <= b < old(framebuffer).height implies
                #[trigger] framebuffer.pixel(a, b) == if b / bs < row + 1 {
                map_pixel(maze@, bs, old(framebuffer).pixel(a, b), a, b)
            } else {
                old(framebuffer).pixel(a, b)
            } by {
                assert(0 <= b / bs) by {
                    vstd::arithmetic::div_mod::lemma_div_pos_is_pos(b, bs);
                }
            }
        }
        row = row + 1;
    }
}

/// Draws the top-down view: each non-empty cell as a flat block, the player
/// as one pixel, then a fan of `NUM_RAYS` rays, ray `k` along `dirs[k]`, the
/// direction of `column_angle(player, k, NUM_RAYS)`.
pub fn render2d(
    framebuffer: &mut Framebuffer,
    maze: &Vec<Vec<char>>,
    player: &Player,
    dirs: &Vec<Dir>,
    block_size: usize,
)
    requires
        old(framebuffer).wf(),
        player.wf(),
        dirs@.len() == NUM_RAYS,
        forall|k: int| 0 <= k < dirs@.len() ==> (#[trigger] dirs@[k]).wf(),
        block_size > 0,
        maze@.len() * block_size <= usize::MAX,
        forall|r: int| 0 <= r < maze@.len() ==> (#[trigger] maze@[r])@.len() * block_size <= usize::MAX,
    ensures
        final(framebuffer).wf(),
        final(framebuffer).same_shape(old(framebuffer)),
        forall|a: int, b: int|
            0 <= a < old(framebuffer).width && 0 <= b < old(framebuffer).height
                ==> #[trigger] final(framebuffer).pixel(a, b) == view2d_pixel(
                maze@,
                block_size as int,
                *player,
                dirs@,
                old(framebuffer).pixel(a, b),
                NUM_RAYS as int,
                a,
                b,
            ),
{
    draw_map(framebuffer, maze, block_size);
    framebuffer.set_current_color(PLAYER_COLOR);
    if player.x >= 0 && player.y >= 0 {
        let px: u64 = (player.x / FIX) as u64;
        let py: u64 = (player.y / FIX) as u64;
        if px < framebuffer.width as u64 && py < framebuffer.height as u64 {
            framebuffer.point(px as usize, py as usize);
        }
    } else {
        proof {
            if player.x < 0 {
                assert((player.x as int) / (FIX as int) < 0) by (nonlinear_arith)
                    requires
                        player.x < 0,
                ;
            }
            if player.y < 0 {
                assert((player.y as int) / (FIX as int) < 0) by (nonlinear_arith)
                    requires
                        player.y < 0,
                ;
            }
        }
    }
    let mut k: usize = 0;
    while k < NUM_RAYS
        invariant
            k <= NUM_RAYS,
            player.wf(),
            dirs@.len() == NUM_RAYS,
            forall|k: int| 0 <= k < dirs@.len() ==> (#[trigger] dirs@[k]).wf(),
            block_size > 0,
            framebuffer.wf(),
            framebuffer.same_shape(old(framebuffer)),
            forall|a: int, b: int|
                0 <= a < old(framebuffer).width && 0 <= b < old(framebuffer).height
                    ==> #[trigger] framebuffer.pixel(a, b) == view2d_pixel(
                    maze@,
                    block_size as int,
                    *player,
                    dirs@,
                    old(framebuffer).pixel(a, b),
                    k as int,
                    a,
                    b,
                ),
        decreases NUM_RAYS - k,
    {
        cast_ray(framebuffer, maze, player, dirs[k], block_size, true);
        k = k + 1;
    }
}

/// The strip of a farther wall is never taller than that of a nearer one.
pub proof fn lemma_stake_height_decreasing(h: int, d1: int, d2: int)
    requires
        0 <= h,
        0 < d1 <= d2,
    ensures
        stake_height(h, d2) <= stake_height(h, d1),
{
    vstd::arithmetic::div_mod::lemma_div_is_ordered_by_denominator(h * PROJECTION_SCALE, d1, d2);
}

/// Doubling the distance halves the strip height, rounded down.
pub proof fn lemma_stake_height_halves(h: int, d: int)
    requires
        0 <= h,
        0 < d,
    ensures
        stake_height(h, 2 * d) == stake_height(h, d) / 2,
{
    vstd::arithmetic::div_mod::lemma_div_denominator(h * PROJECTION_SCALE, d, 2);
    assert(d * 2 == 2 * d);
}

} // verus!
