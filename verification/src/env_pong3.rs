//! State of the pong environment.

use vstd::prelude::*;
use rand::rngs::ThreadRng;
use rand::Rng;

verus! {

/// state of the pong environment
pub struct EnvState {
    pub szX: i64,
    pub szY: i64,
    pub ballX: i64,
    pub ballY: i64,
    pub batX: i64,
    pub batVX: i64,
    /// "radius", batWidth from middle to the left and right
    pub batWidth: i64,
    /// bat width used for center computation
    pub virtualBatWidth: i64,
    pub vX: i64,
    pub vY: i64,
    /// multiply x velocity by this before moving
    pub mulVX: i64,
    pub hits: i64,
    pub misses: i64,
    pub t: i64,
    pub verbosity: i64,
}

/// the initial state: a 50 by 20 field with the ball at (25, 4) moving
/// diagonally, the bat at 20, and no hits, misses or time yet
pub fn makeEnvState() -> (res: EnvState)
    ensures
        res.szX == 50 && res.szY == 20,
        res.ballX == 25 && res.ballY == 4,
        res.batX == 20 && res.batVX == 0,
        res.batWidth == 6 && res.virtualBatWidth == 6,
        res.vX == 1 && res.vY == 1 && res.mulVX == 0,
        res.hits == 0 && res.misses == 0 && res.t == 0,
        res.verbosity == 1,
{
    let szX: i64 = 50;
    let szY: i64 = 20;

    EnvState {
        szX: szX,
        szY: szY,
        ballX: szX / 2,
        ballY: szY / 5,
        batX: 20,
        batVX: 0,
        batWidth: 6,
        virtualBatWidth: 6,
        vX: 1,
        vY: 1,
        mulVX: 0,
        hits: 0,
        misses: 0,
        t: 0,
        verbosity: 1,
    }
}

#[verifier::external_type_specification]
#[verifier::external_body]
pub struct ExThreadRng(ThreadRng);

/// Calls `Rng::gen_range` on `low..high`: as its documentation states, a
/// random value from `low` up to, not including, `high`; it panics on an
/// empty range, which the precondition rules out.
#[verifier::external_body]
fn gen_range(rng: &mut ThreadRng, low: i64, high: i64) -> (r: i64)
    requires
        low < high,
    ensures
        low <= r < high,
{
    rng.gen_range(low..high)
}

/// the value lies in the range of an `i64`
pub open spec fn in_i64(x: int) -> bool {
    i64::MIN <= x <= i64::MAX
}

/// `x / 2` on integers, rounding toward zero
pub open spec fn div2(x: int) -> int {
    if x >= 0 { x / 2 } else { -((-x) / 2) }
}

/// `x % 2` on integers, with the sign of `x`
pub open spec fn rem2(x: int) -> int {
    if x >= 0 { x % 2 } else { -((-x) % 2) }
}

/// the absolute value
pub open spec fn abs_int(x: int) -> int {
    if x >= 0 { x } else { -x }
}

/// the horizontal velocity after bouncing off the left or right wall
pub open spec fn bounced_vx(e: EnvState) -> int {
    if e.ballX >= e.szX - 1 { -1 } else if e.ballX <= 0 { 1 } else { e.vX as int }
}

/// the vertical velocity after bouncing off the top or bottom wall
pub open spec fn bounced_vy(e: EnvState) -> int {
    if e.ballY >= e.szY - 1 { -1 } else if e.ballY <= 0 { 1 } else { e.vY as int }
}

/// the horizontal position of the ball after it moved: by its velocity in
/// every odd time step, and by its velocity times `mulVX` in every step
pub open spec fn moved_x(e: EnvState) -> int {
    let vx = bounced_vx(e);
    e.ballX + (if rem2(e.t + 1) == 1 { vx } else { 0 }) + vx * e.mulVX
}

/// the vertical position of the ball after it moved
pub open spec fn moved_y(e: EnvState) -> int {
    e.ballY + bounced_vy(e)
}

/// the ball reached the bat's row, and the bat was there
pub open spec fn is_hit(e: EnvState) -> bool {
    moved_y(e) == 0 && abs_int(moved_x(e) - e.batX) <= e.batWidth
}

/// the ball reached the bat's row, and the bat was not there
pub open spec fn is_miss(e: EnvState) -> bool {
    moved_y(e) == 0 && !(abs_int(moved_x(e) - e.batX) <= e.batWidth)
}

/// the ball reached the bat's row or the left or right wall, and starts anew
pub open spec fn is_respawn(e: EnvState) -> bool {
    moved_y(e) == 0 || moved_x(e) == 0 || moved_x(e) >= e.szX - 1
}

/// the position of the bat after it moved by `batVX * batWidth / 2`, kept
/// between `2 * batWidth` and `szX - 1 + batWidth`
pub open spec fn moved_bat(e: EnvState) -> int {
    let h0 = if e.szX - 1 + e.batWidth <= e.batX + div2(e.batVX * e.batWidth) {
        e.szX - 1 + e.batWidth
    } else {
        e.batX + div2(e.batVX * e.batWidth)
    };
    if e.batWidth * 2 >= h0 { e.batWidth * 2 } else { h0 }
}

/// a step computes without overflow, and where the ball starts anew the
/// field has room for it
pub open spec fn step_ok(e: EnvState) -> bool {
    let vx = bounced_vx(e);
    let x1 = e.ballX + (if rem2(e.t + 1) == 1 { vx } else { 0 });
    &&& e.t < i64::MAX
    &&& e.szX > i64::MIN
    &&& e.szY > i64::MIN
    &&& in_i64(x1)
    &&& in_i64(vx * e.mulVX)
    &&& in_i64(moved_x(e))
    &&& in_i64(moved_y(e))
    &&& moved_y(e) == 0 ==> in_i64(moved_x(e) - e.batX) && moved_x(e) - e.batX > i64::MIN
    &&& is_hit(e) ==> e.hits < i64::MAX
    &&& is_miss(e) ==> e.misses < i64::MAX
    &&& is_respawn(e) ==> e.szY >= 2 && e.szX >= 1
    &&& in_i64(e.szX - 1 + e.batWidth)
    &&& in_i64(e.batVX * e.batWidth)
    &&& in_i64(e.batX + div2(e.batVX * e.batWidth))
    &&& in_i64(e.batWidth * 2)
}

/// what happened in a step
pub struct StepEvents {
    /// the bat hit the ball
    pub hit: bool,
    /// the bat missed the ball
    pub miss: bool,
    /// the ball started anew
    pub respawn: bool,
}

/// one step of the environment: the ball bounces off the walls and moves,
/// a hit or a miss is counted where it reaches the bat's row, the ball
/// starts anew at a random place where it reached that row or the left or
/// right wall, and the bat moves
pub fn simStep(env: &mut EnvState, rng: &mut ThreadRng) -> (ev: StepEvents)
    requires
        step_ok(*old(env)),
    ensures
        ev.hit == is_hit(*old(env)),
        ev.miss == is_miss(*old(env)),
        ev.respawn == is_respawn(*old(env)),
        final(env).t == old(env).t + 1,
        final(env).vY == bounced_vy(*old(env)),
        final(env).hits == old(env).hits + if ev.hit { 1int } else { 0 },
        final(env).misses == old(env).misses + if ev.miss { 1int } else { 0 },
        final(env).batX == moved_bat(*old(env)),
        final(env).szX == old(env).szX && final(env).szY == old(env).szY,
        final(env).batVX == old(env).batVX && final(env).batWidth == old(env).batWidth,
        final(env).virtualBatWidth == old(env).virtualBatWidth && final(env).mulVX == old(env).mulVX,
        final(env).verbosity == old(env).verbosity,
        !ev.respawn ==> final(env).ballX == moved_x(*old(env)) && final(env).ballY == moved_y(*old(env))
            && final(env).vX == bounced_vx(*old(env)),
        ev.respawn ==> old(env).szY / 2 <= final(env).ballY < old(env).szY / 2 + old(env).szY / 2
            && 0 <= final(env).ballX < old(env).szX
            && (final(env).vX == 1 || final(env).vX == -1),
{
    let ghost e0 = *env;
    env.t += 1;

    if env.ballX <= 0 {
        env.vX = 1;
    }
    if env.ballX >= env.szX - 1 {
        env.vX = -1;
    }
    if env.ballY <= 0 {
        env.vY = 1;
    }
    if env.ballY >= env.szY - 1 {
        env.vY = -1;
    }
    if (env.t % 2) == 1 {
        env.ballX += env.vX;
    }
    env.ballX += env.vX * env.mulVX;
    env.ballY += env.vY;
    let mut hit = false;
    let mut miss = false;
    if env.ballY == 0 {
        let d = env.ballX - env.batX;
        let dist = if d < 0 { -d } else { d };
        if dist <= env.batWidth {
            hit = true;
            env.hits += 1;
        } else {
            miss = true;
            env.misses += 1;
        }
    }
    let respawn = env.ballY == 0 || env.ballX == 0 || env.ballX >= env.szX - 1;
    if respawn {
        let half = env.szY / 2;
        env.ballY = half + gen_range(rng, 0, half);
        env.ballX = gen_range(rng, 0, env.szX);
        env.vX = if gen_range(rng, 0, 2) == 0 { 1 } else { -1 };
    }

    let h0a = env.szX - 1 + env.batWidth;
    let h0b = env.batX + env.batVX * env.batWidth / 2;
    let h0 = if h0a <= h0b { h0a } else { h0b };
    let lo = env.batWidth * 2;
    env.batX = if lo >= h0 { lo } else { h0 };
    StepEvents { hit: hit, miss: miss, respawn: respawn }
}

} // verus!
