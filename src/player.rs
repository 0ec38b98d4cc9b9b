use vstd::prelude::*;

verus! {

/// One unit of fixed-point position or direction: positions are held in
/// `1 / FIX` pixel steps and direction components in `1 / FIX` of a unit.
pub const FIX: i64 = 65536;

/// Largest magnitude of a fixed-point position coordinate.
pub const POSITION_LIMIT: i64 = 1_000_000_000_000_000_000;

/// Largest magnitude of a heading, in microradians.
pub const ANGLE_LIMIT: i64 = 1_000_000_000_000_000;

/// Largest field of view, in microradians.
pub const FOV_LIMIT: i64 = 1_000_000_000;

/// Heading change of one turn key press, in microradians.
pub const ROTATION_SPEED: i64 = 62800;

/// Distance moved by one step key press, in pixels.
pub const MOVE_SPEED: i64 = 3;

/// The player's pose: position in fixed point, heading and field of view in
/// microradians.
#[derive(Clone, Copy, Debug, PartialEq, Eq, Structural)]
pub struct Player {
    pub x: i64,
    pub y: i64,
    pub a: i64,
    pub fov: i64,
}

/// A fixed-point direction vector, `(cos, sin) * FIX` of some angle.
#[derive(Clone, Copy, Debug, PartialEq, Eq, Structural)]
pub struct Dir {
    pub dx: i64,
    pub dy: i64,
}

/// Which movement keys are held this frame.
#[derive(Clone, Copy, Debug, PartialEq, Eq, Structural)]
pub struct Keys {
    pub left: bool,
    pub right: bool,
    pub up: bool,
    pub down: bool,
}

impl Player {
    /// Position, heading and field of view within their limits.
    pub open spec fn wf(&self) -> bool {
        &&& -POSITION_LIMIT <= self.x <= POSITION_LIMIT
        &&& -POSITION_LIMIT <= self.y <= POSITION_LIMIT
        &&& -ANGLE_LIMIT <= self.a <= ANGLE_LIMIT
        &&& 0 <= self.fov <= FOV_LIMIT
    }
}

impl Dir {
    /// Each component at most one unit in magnitude.
    pub open spec fn wf(&self) -> bool {
        &&& -FIX <= self.dx <= FIX
        &&& -FIX <= self.dy <= FIX
    }
}

/// `v` saturated into `[-limit, limit]`.
pub open spec fn clamp_spec(v: int, limit: int) -> int {
    if v < -limit {
        -limit
    } else if v > limit {
        limit
    } else {
        v
    }
}

/// The heading after applying the turn keys, saturated at `ANGLE_LIMIT`.
pub open spec fn turned_spec(a: int, keys: Keys) -> int {
    let a1 = if keys.left {
        clamp_spec(a - ROTATION_SPEED, ANGLE_LIMIT as int)
    } else {
        a
    };
    if keys.right {
        clamp_spec(a1 + ROTATION_SPEED, ANGLE_LIMIT as int)
    } else {
        a1
    }
}

/// One coordinate after applying the step keys along direction component `dc`.
pub open spec fn moved_spec(v: int, dc: int, keys: Keys) -> int {
    let v1 = if keys.up {
        clamp_spec(v + MOVE_SPEED * dc, POSITION_LIMIT as int)
    } else {
        v
    };
    if keys.down {
        clamp_spec(v1 - MOVE_SPEED * dc, POSITION_LIMIT as int)
    } else {
        v1
    }
}

fn clamp(v: i64, limit: i64) -> (r: i64)
    requires
        0 <= limit,
        -limit - FIX * 8 >= i64::MIN,
        limit + FIX * 8 <= i64::MAX,
        -limit - FIX * 8 <= v <= limit + FIX * 8,
    ensures
        r == clamp_spec(v as int, limit as int),
{
    if v < -limit {
        -limit
    } else if v > limit {
        limit
    } else {
        v
    }
}

/// The heading after the turn keys of `keys`.
pub fn turned_heading(a: i64, keys: &Keys) -> (r: i64)
    requires
        -ANGLE_LIMIT <= a <= ANGLE_LIMIT,
    ensures
        r == turned_spec(a as int, *keys),
        -ANGLE_LIMIT <= r <= ANGLE_LIMIT,
{
    let mut r = a;
    if keys.left {
        r = clamp(r - ROTATION_SPEED, ANGLE_LIMIT);
    }
    if keys.right {
        r = clamp(r + ROTATION_SPEED, ANGLE_LIMIT);
    }
    r
}

fn moved(v: i64, dc: i64, keys: &Keys) -> (r: i64)
    requires
        -POSITION_LIMIT <= v <= POSITION_LIMIT,
        -FIX <= dc <= FIX,
    ensures
        r == moved_spec(v as int, dc as int, *keys),
        -POSITION_LIMIT <= r <= POSITION_LIMIT,
{
    let mut r = v;
    if keys.up {
        r = clamp(r + MOVE_SPEED * dc, POSITION_LIMIT);
    }
    if keys.down {
        r = clamp(r - MOVE_SPEED * dc, POSITION_LIMIT);
    }
    r
}

/// Applies one frame of input: turn first, then step along `dir`, which is
/// the direction of the heading after turning (`turned_heading`).
pub fn process_events(player: &mut Player, keys: &Keys, dir: Dir)
    requires
        old(player).wf(),
        dir.wf(),
    ensures
        final(player).wf(),
        final(player).a == turned_spec(old(player).a as int, *keys),
        final(player).x == moved_spec(old(player).x as int, dir.dx as int, *keys),
        final(player).y == moved_spec(old(player).y as int, dir.dy as int, *keys),
        final(player).fov == old(player).fov,
{
    player.a = turned_heading(player.a, keys);
    player.x = moved(player.x, dir.dx, keys);
    player.y = moved(player.y, dir.dy, keys);
}

/// The ray angle of column `i` of `n`: `a - fov / 2 + fov * i / n`, in
/// microradians, rounded down.
pub fn column_angle(player: &Player, i: usize, n: usize) -> (r: i64)
    requires
        player.wf(),
        i < n,
    ensures
        r == player.a - player.fov / 2 + (player.fov * i) / (n as int),
{
    proof {
        assert(player.fov * i <= 1_000_000_000 * 0x1_0000_0000_0000_0000int) by (nonlinear_arith)
            requires
                0 <= player.fov <= 1_000_000_000,
                0 <= i <= 0x1_0000_0000_0000_0000int,
        ;
        assert(0 <= player.fov * i <= player.fov * n) by (nonlinear_arith)
            requires
                0 <= player.fov,
                0 <= i < n,
        ;
        assert(player.fov * i / (n as int) <= player.fov) by (nonlinear_arith)
            requires
                0 <= player.fov * i <= player.fov * n,
                0 < n,
        ;
    }
    let step: i128 = (player.fov as i128) * (i as i128) / (n as i128);
    (player.a - player.fov / 2) + step as i64
}

} // verus!
