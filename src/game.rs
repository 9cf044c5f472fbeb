use vstd::prelude::*;

use crate::geometry::{
    check_collision_circles, circles_meet, clamp_coord, coord_ok, cosine_deg, lemma_unit_bounds,
    lemma_ring_direction_is_unit, lemma_sq_abs, lemma_sq_le, lemma_sq_lt, lemma_trunc_bounds,
    lemma_unit_norm, point_ok, ring_direction, sine_deg, sq, trunc_div, unit_of, unit_vector, Vec2,
    COORD_MAX, UNIT,
};

verus! {

/// Microseconds in one second: frame times and delays are in microseconds.
pub const MICROS_PER_SECOND: i64 = 1_000_000;

/// Largest speed, in millionths of a pixel per second.
pub const SPEED_MAX: i64 = 1_000_000_000_000;

/// Largest difficulty scalar.
pub const GAME_TIME_MAX: i64 = 1_000_000;

/// A new bullet's radius is the configured bullet size less this much
/// (ten pixels).
pub const BULLET_SIZE_REDUCTION: i64 = 10_000_000;

/// An enemy. Lengths are in millionths of a pixel.
#[derive(Debug, Clone, Copy, PartialEq, Eq, Structural)]
pub struct Enemy {
    pub position: Vec2,
    pub size: i64,
}

/// A bullet. Lengths are in millionths of a pixel, the speed in millionths
/// of a pixel per second, the direction scaled by `UNIT`.
#[derive(Debug, Clone, Copy, PartialEq, Eq, Structural)]
pub struct Bullet {
    pub position: Vec2,
    pub direction: Vec2,
    pub speed: i64,
    pub size: i64,
    pub pierce: i32,
}

/// The whole state of a round.
///
/// Lengths are in millionths of a pixel, speeds in millionths of a pixel
/// per second, times in microseconds. `max_enemies` and `max_bullets` hold
/// the active enemies and bullets; `enemy_count` and `bullet_count` mirror
/// their lengths.
#[derive(Debug)]
pub struct Game {
    pub player_pos: Vec2,
    pub player_size: i64,
    pub player_speed: i64,
    pub shoot_delay: u64,
    pub game_time: i64,
    pub enemy_spawn_time: u64,
    pub enemy_count: usize,
    pub max_enemies: Vec<Enemy>,
    pub shoot_time: u64,
    pub bullet_speed: i64,
    pub bullet_size: i64,
    pub bullet_pierce: i32,
    pub bullet_count: usize,
    pub max_bullets: Vec<Bullet>,
}

pub open spec fn size_ok(s: int) -> bool {
    0 <= s <= COORD_MAX
}

pub open spec fn speed_ok(s: int) -> bool {
    0 <= s <= SPEED_MAX
}

pub open spec fn enemy_ok(e: Enemy) -> bool {
    point_ok(e.position) && size_ok(e.size as int)
}

pub open spec fn direction_ok(d: Vec2) -> bool {
    -2 * UNIT <= d.x <= 2 * UNIT && -2 * UNIT <= d.y <= 2 * UNIT
}

pub open spec fn bullet_ok(b: Bullet) -> bool {
    point_ok(b.position) && direction_ok(b.direction) && speed_ok(b.speed as int) && size_ok(
        b.size as int,
    )
}

pub open spec fn enemies_ok(es: Seq<Enemy>) -> bool {
    forall|i: int| 0 <= i < es.len() ==> enemy_ok(#[trigger] es[i])
}

pub open spec fn bullets_ok(bs: Seq<Bullet>) -> bool {
    forall|i: int| 0 <= i < bs.len() ==> bullet_ok(#[trigger] bs[i])
}

impl Game {
    /// The state is well formed: counts mirror the lists, every entity lies
    /// in the field, and the timing parameters are positive.
    pub open spec fn wf(&self) -> bool {
        &&& self.enemy_count == self.max_enemies@.len()
        &&& self.bullet_count == self.max_bullets@.len()
        &&& point_ok(self.player_pos)
        &&& size_ok(self.player_size as int)
        &&& speed_ok(self.player_speed as int)
        &&& self.shoot_delay > 0
        &&& 1 <= self.game_time <= GAME_TIME_MAX
        &&& speed_ok(self.bullet_speed as int)
        &&& BULLET_SIZE_REDUCTION <= self.bullet_size <= COORD_MAX
        &&& enemies_ok(self.max_enemies@)
        &&& bullets_ok(self.max_bullets@)
    }
}

/// One coordinate after moving `speed * dt` along a direction component.
pub open spec fn advance(p: int, dir: int, speed: int, dt: int) -> int {
    clamp_coord(p + trunc_div(dir * speed * dt, UNIT * MICROS_PER_SECOND))
}

pub open spec fn advance_point(p: Vec2, dir: Vec2, speed: int, dt: int) -> Vec2 {
    Vec2 {
        x: advance(p.x as int, dir.x as int, speed, dt) as i64,
        y: advance(p.y as int, dir.y as int, speed, dt) as i64,
    }
}

/// A bullet after flying for `dt` microseconds.
pub open spec fn moved_bullet(b: Bullet, dt: int) -> Bullet {
    Bullet { position: advance_point(b.position, b.direction, b.speed as int, dt), ..b }
}

pub open spec fn bullet_hits(e: Enemy, b: Bullet) -> bool {
    circles_meet(e.position, e.size as int, b.position, b.size as int)
}

/// The enemies left after a bullet removes the first one, in list order,
/// that it touches.
pub open spec fn remove_first_hit(es: Seq<Enemy>, b: Bullet) -> Seq<Enemy>
    decreases es.len(),
{
    if es.len() == 0 {
        es
    } else if bullet_hits(es[0], b) {
        es.drop_first()
    } else {
        seq![es[0]] + remove_first_hit(es.drop_first(), b)
    }
}

/// The enemies left after each bullet in turn removes its first hit.
pub open spec fn resolve_hits(bs: Seq<Bullet>, es: Seq<Enemy>) -> Seq<Enemy>
    decreases bs.len(),
{
    if bs.len() == 0 {
        es
    } else {
        remove_first_hit(resolve_hits(bs.drop_last(), es), bs.last())
    }
}

proof fn lemma_remove_first_hit_at(es: Seq<Enemy>, b: Bullet, j: int)
    requires
        0 <= j <= es.len(),
        forall|k: int| 0 <= k < j ==> !bullet_hits(#[trigger] es[k], b),
        j < es.len() ==> bullet_hits(es[j], b),
    ensures
        remove_first_hit(es, b) == (if j < es.len() {
            es.remove(j)
        } else {
            es
        }),
    decreases es.len(),
{
    if es.len() == 0 {
    } else if j == 0 {
        assert(es.drop_first() =~= es.remove(0));
    } else {
        let t = es.drop_first();
        assert forall|k: int| 0 <= k < j - 1 implies !bullet_hits(#[trigger] t[k], b) by {
            assert(t[k] == es[k + 1]);
        }
        lemma_remove_first_hit_at(t, b, j - 1);
        if j < es.len() {
            assert(seq![es[0]] + t.remove(j - 1) =~= es.remove(j));
        } else {
            assert(seq![es[0]] + t =~= es);
        }
    }
}

proof fn lemma_remove_first_hit_len(es: Seq<Enemy>, b: Bullet)
    ensures
        remove_first_hit(es, b).len() <= es.len(),
        enemies_ok(es) ==> enemies_ok(remove_first_hit(es, b)),
    decreases es.len(),
{
    if es.len() > 0 {
        lemma_remove_first_hit_len(es.drop_first(), b);
        let r = remove_first_hit(es, b);
        if enemies_ok(es) && !bullet_hits(es[0], b) {
            let t = remove_first_hit(es.drop_first(), b);
            assert forall|i: int| 0 <= i < r.len() implies enemy_ok(#[trigger] r[i]) by {
                if i > 0 {
                    assert(r[i] == t[i - 1]);
                }
            }
        }
    }
}

/// Bullets only ever remove enemies.
proof fn lemma_resolve_hits_len(bs: Seq<Bullet>, es: Seq<Enemy>)
    ensures
        resolve_hits(bs, es).len() <= es.len(),
        enemies_ok(es) ==> enemies_ok(resolve_hits(bs, es)),
    decreases bs.len(),
{
    if bs.len() > 0 {
        lemma_resolve_hits_len(bs.drop_last(), es);
        lemma_remove_first_hit_len(resolve_hits(bs.drop_last(), es), bs.last());
    }
}

fn move_coord(p: i64, dir: i64, speed: i64, dt: u64) -> (r: i64)
    requires
        coord_ok(p as int),
        -2 * UNIT <= dir <= 2 * UNIT,
        speed_ok(speed as int),
    ensures
        r == advance(p as int, dir as int, speed as int, dt as int),
        coord_ok(r as int),
{
    assert(-2 * UNIT * SPEED_MAX <= dir * speed <= 2 * UNIT * SPEED_MAX) by (nonlinear_arith)
        requires
            -2 * UNIT <= dir <= 2 * UNIT,
            0 <= speed <= SPEED_MAX,
    ;
    let prod: i128 = dir as i128 * speed as i128;
    assert(-2 * UNIT * SPEED_MAX * 0x1_0000_0000_0000_0000 <= prod * dt <= 2 * UNIT * SPEED_MAX
        * 0x1_0000_0000_0000_0000) by (nonlinear_arith)
        requires
            -2 * UNIT * SPEED_MAX <= prod <= 2 * UNIT * SPEED_MAX,
            0 <= dt < 0x1_0000_0000_0000_0000,
    ;
    let num: i128 = prod * dt as i128;
    assert(dir * speed * dt == prod * dt);
    let step: i128 = if num >= 0 {
        num / 1_000_000_000_000
    } else {
        -((-num) / 1_000_000_000_000)
    };
    let v: i128 = p as i128 + step;
    if v < -(COORD_MAX as i128) {
        -COORD_MAX
    } else if v > COORD_MAX as i128 {
        COORD_MAX
    } else {
        v as i64
    }
}

fn move_point(p: Vec2, dir: Vec2, speed: i64, dt: u64) -> (r: Vec2)
    requires
        point_ok(p),
        direction_ok(dir),
        speed_ok(speed as int),
    ensures
        r == advance_point(p, dir, speed as int, dt as int),
        point_ok(r),
{
    Vec2 { x: move_coord(p.x, dir.x, speed, dt), y: move_coord(p.y, dir.y, speed, dt) }
}

/// Adds two accumulator values, stopping at the largest `u64`.
pub open spec fn sat_add(a: int, b: int) -> int {
    if a + b > u64::MAX {
        u64::MAX as int
    } else {
        a + b
    }
}

pub open spec fn min_int(a: int, b: int) -> int {
    if a <= b {
        a
    } else {
        b
    }
}

/// Everything but the accumulators, the counts and the two lists agrees.
pub open spec fn same_config(a: Game, b: Game) -> bool {
    &&& a.player_pos == b.player_pos
    &&& a.player_size == b.player_size
    &&& a.player_speed == b.player_speed
    &&& a.shoot_delay == b.shoot_delay
    &&& a.game_time == b.game_time
    &&& a.bullet_speed == b.bullet_speed
    &&& a.bullet_size == b.bullet_size
    &&& a.bullet_pierce == b.bullet_pierce
}

/// The shot accumulator once the frame's time is banked: time is added only
/// while the fire control is held and the accumulator is below the delay.
pub open spec fn banked_shot_time(g: Game, fire_held: bool, dt: int) -> int {
    if fire_held && g.shoot_time < g.shoot_delay {
        sat_add(g.shoot_time as int, dt)
    } else {
        g.shoot_time as int
    }
}

/// How many bullets a frame fires: one per whole delay banked, up to the
/// remaining capacity, and none while the fire control is released.
pub open spec fn shots_due(g: Game, fire_held: bool, dt: int, max_bullets: int) -> int {
    if !fire_held || g.bullet_count >= max_bullets {
        0
    } else {
        min_int(
            banked_shot_time(g, fire_held, dt) / (g.shoot_delay as int),
            max_bullets - g.bullet_count,
        )
    }
}

/// The bullet fired from the player toward `target`.
pub open spec fn new_bullet(g: Game, target: Vec2) -> Bullet {
    let d = unit_of(target.x - g.player_pos.x, target.y - g.player_pos.y);
    Bullet {
        position: g.player_pos,
        direction: Vec2 { x: d.0 as i64, y: d.1 as i64 },
        speed: g.bullet_speed,
        size: (g.bullet_size - BULLET_SIZE_REDUCTION) as i64,
        pierce: g.bullet_pierce,
    }
}

/// The active bullets with `k` new shots appended.
pub open spec fn with_shots(g: Game, target: Vec2, k: int) -> Seq<Bullet> {
    g.max_bullets@ + Seq::new(k as nat, |_i: int| new_bullet(g, target))
}

pub open spec fn moved_bullets(bs: Seq<Bullet>, dt: int) -> Seq<Bullet> {
    Seq::new(bs.len(), |i: int| moved_bullet(bs[i], dt))
}

proof fn lemma_div_bounds(a: int, d: int, j: int)
    requires
        d > 0,
        a >= 0,
        j >= 0,
    ensures
        j * d <= a ==> j <= a / d,
        a < (j + 1) * d ==> a / d <= j,
{
    assert(j * d <= a ==> j <= a / d) by (nonlinear_arith)
        requires
            d > 0,
            a >= 0,
            j >= 0,
    ;
    assert(a < (j + 1) * d ==> a / d <= j) by (nonlinear_arith)
        requires
            d > 0,
            a >= 0,
            j >= 0,
    ;
}

fn shot_at(game: &Game, target: Vec2) -> (b: Bullet)
    requires
        game.wf(),
        point_ok(target),
    ensures
        b == new_bullet(*game, target),
        bullet_ok(b),
{
    let direction = unit_vector(target.x - game.player_pos.x, target.y - game.player_pos.y);
    Bullet {
        position: game.player_pos,
        direction,
        speed: game.bullet_speed,
        size: game.bullet_size - BULLET_SIZE_REDUCTION,
        pierce: game.bullet_pierce,
    }
}

/// Index of the first enemy, in list order, that the bullet touches, or the
/// length of the list when it touches none.
fn first_hit(enemies: &Vec<Enemy>, b: &Bullet) -> (r: usize)
    requires
        enemies_ok(enemies@),
        bullet_ok(*b),
    ensures
        r <= enemies@.len(),
        forall|k: int| 0 <= k < r ==> !bullet_hits(#[trigger] enemies@[k], *b),
        r < enemies@.len() ==> bullet_hits(enemies@[r as int], *b),
{
    let mut j: usize = 0;
    while j < enemies.len()
        invariant
            j <= enemies@.len(),
            enemies_ok(enemies@),
            bullet_ok(*b),
            forall|k: int| 0 <= k < j ==> !bullet_hits(#[trigger] enemies@[k], *b),
        decreases enemies@.len() - j,
    {
        let e = enemies[j];
        if check_collision_circles(e.position, e.size, b.position, b.size) {
            return j;
        }
        j += 1;
    }
    j
}

/// Moves every bullet, then lets it remove the first enemy it touches.
fn resolve_bullets(bullets: &mut Vec<Bullet>, enemies: &mut Vec<Enemy>, dt: u64)
    requires
        bullets_ok(old(bullets)@),
        enemies_ok(old(enemies)@),
    ensures
        final(bullets)@ == moved_bullets(old(bullets)@, dt as int),
        final(enemies)@ == resolve_hits(final(bullets)@, old(enemies)@),
        bullets_ok(final(bullets)@),
        enemies_ok(final(enemies)@),
{
    let ghost start = bullets@;
    let ghost es0 = enemies@;
    let ghost moved = moved_bullets(start, dt as int);
    let n = bullets.len();
    let mut i: usize = 0;
    while i < n
        invariant
            n == start.len(),
            moved == moved_bullets(start, dt as int),
            bullets_ok(start),
            bullets@.len() == n,
            i <= n,
            forall|k: int| 0 <= k < i ==> bullets@[k] == moved[k],
            forall|k: int| i <= k < n ==> bullets@[k] == start[k],
            bullets_ok(bullets@),
            enemies@ == resolve_hits(moved.take(i as int), es0),
            enemies_ok(enemies@),
        decreases n - i,
    {
        let mut b = bullets[i];
        b.position = move_point(b.position, b.direction, b.speed, dt);
        bullets[i] = b;
        let j = first_hit(enemies, &b);
        proof {
            lemma_remove_first_hit_at(enemies@, b, j as int);
            lemma_remove_first_hit_len(enemies@, b);
            assert(moved.take(i + 1).drop_last() =~= moved.take(i as int));
        }
        if j < enemies.len() {
            enemies.remove(j);
        }
        i += 1;
    }
    assert(moved.take(n as int) =~= moved);
    assert(bullets@ =~= moved);
}

/// One frame of shooting.
///
/// While `fire_held` and the accumulator is below the delay, the frame's
/// time `dt` is banked. Then one bullet aimed at `target` is fired for each
/// whole delay banked, while fewer than `max_bullets` bullets are active;
/// shots beyond the capacity are dropped. Last, every bullet moves and
/// removes the first enemy, in list order, that it touches. Bullets are
/// never removed.
///
/// A new bullet starts at the player, with the configured speed and pierce
/// and a radius of `bullet_size` less `BULLET_SIZE_REDUCTION` (ten pixels):
/// the default size of fifteen pixels gives a radius of five.
pub fn shoot_bullets(game: &mut Game, fire_held: bool, target: Vec2, dt: u64, max_bullets: usize)
    requires
        old(game).wf(),
        point_ok(target),
    ensures
        final(game).wf(),
        same_config(*final(game), *old(game)),
        final(game).enemy_spawn_time == old(game).enemy_spawn_time,
        ({
            let k = shots_due(*old(game), fire_held, dt as int, max_bullets as int);
            &&& final(game).shoot_time == banked_shot_time(*old(game), fire_held, dt as int) - k
                * old(game).shoot_delay
            &&& final(game).max_bullets@ == moved_bullets(
                with_shots(*old(game), target, k),
                dt as int,
            )
        }),
        final(game).max_enemies@ == resolve_hits(final(game).max_bullets@, old(game).max_enemies@),
        final(game).enemy_count <= old(game).enemy_count,
        old(game).bullet_count <= max_bullets ==> final(game).bullet_count <= max_bullets,
{
    let ghost g0 = *game;
    if fire_held && game.shoot_time < game.shoot_delay {
        game.shoot_time = game.shoot_time.saturating_add(dt);
    }
    let ghost banked = game.shoot_time as int;
    let ghost due = shots_due(g0, fire_held, dt as int, max_bullets as int);
    let ghost n0 = g0.max_bullets@.len();
    assert(banked == banked_shot_time(g0, fire_held, dt as int));
    while fire_held && game.shoot_time >= game.shoot_delay && game.bullet_count < max_bullets
        invariant
            game.wf(),
            same_config(*game, g0),
            game.enemy_spawn_time == g0.enemy_spawn_time,
            game.max_enemies@ == g0.max_enemies@,
            g0.wf(),
            point_ok(target),
            n0 <= game.max_bullets@.len(),
            game.max_bullets@ == with_shots(g0, target, game.max_bullets@.len() - n0),
            game.shoot_time == banked - (game.max_bullets@.len() - n0) * g0.shoot_delay,
            game.max_bullets@.len() - n0 <= due,
            due == shots_due(g0, fire_held, dt as int, max_bullets as int),
            banked == banked_shot_time(g0, fire_held, dt as int),
            banked >= 0,
        decreases game.shoot_time,
    {
        let ghost j = game.max_bullets@.len() - n0;
        proof {
            let d = g0.shoot_delay as int;
            assert((j + 1) * d == j * d + d) by (nonlinear_arith);
            lemma_div_bounds(banked, d, j + 1);
        }
        let bullet = shot_at(game, target);
        game.bullet_count += 1;
        game.max_bullets.push(bullet);
        game.shoot_time -= game.shoot_delay;
        assert(game.max_bullets@ =~= with_shots(g0, target, j + 1));
    }
    proof {
        let j = game.max_bullets@.len() - n0;
        let d = g0.shoot_delay as int;
        assert((j + 1) * d == j * d + d) by (nonlinear_arith);
        lemma_div_bounds(banked, d, j);
        assert(j == due);
    }
    resolve_bullets(&mut game.max_bullets, &mut game.max_enemies, dt);
    proof {
        lemma_resolve_hits_len(game.max_bullets@, g0.max_enemies@);
    }
    game.enemy_count = game.max_enemies.len();
}

/// A fresh round: the player centred in a `width` by `height` window, no
/// enemies, no bullets, and the default settings.
pub open spec fn is_initial_state(g: Game, width: i32, height: i32) -> bool {
    &&& g.player_pos.x == clamp_coord(width * 500_000)
    &&& g.player_pos.y == clamp_coord(height * 500_000)
    &&& g.game_time == 20
    &&& g.player_size == 30_000_000
    &&& g.player_speed == 1_000_000_000
    &&& g.shoot_delay == 300_000
    &&& g.enemy_spawn_time == 0
    &&& g.shoot_time == 0
    &&& g.bullet_speed == 30_000_000
    &&& g.bullet_size == 15_000_000
    &&& g.bullet_pierce == 40
    &&& g.max_bullets@.len() == 0
    &&& g.max_enemies@.len() == 0
    &&& g.bullet_count == 0
    &&& g.enemy_count == 0
}

impl Game {
    /// A fresh round in a `width` by `height` window (in pixels), with room
    /// reserved for the given numbers of enemies and bullets.
    pub fn create_initial_state(width: i32, height: i32, max_enemies: usize, max_bullets: usize) -> (r:
        Self)
        ensures
            is_initial_state(r, width, height),
            r.wf(),
    {
        Game {
            player_pos: Vec2 {
                x: clamp_i128(width as i128 * 500_000),
                y: clamp_i128(height as i128 * 500_000),
            },
            game_time: 20,
            player_size: 30_000_000,
            player_speed: 1_000_000_000,
            shoot_delay: 300_000,
            enemy_spawn_time: 0,
            shoot_time: 0,
            bullet_speed: 30_000_000,
            bullet_size: 15_000_000,
            bullet_pierce: 40,
            max_bullets: Vec::with_capacity(max_bullets),
            max_enemies: Vec::with_capacity(max_enemies),
            bullet_count: 0,
            enemy_count: 0,
        }
    }
}

/// The player's position after a frame's movement keys: only the first
/// pressed key among up, left, right and down moves it, by `speed * dt`.
pub open spec fn player_after(g: Game, up: bool, left: bool, right: bool, down: bool, dt: int) -> Vec2 {
    let p = g.player_pos;
    let step = g.player_speed * dt / (MICROS_PER_SECOND as int);
    if up {
        Vec2 { y: clamp_coord(p.y - step) as i64, ..p }
    } else if left {
        Vec2 { x: clamp_coord(p.x - step) as i64, ..p }
    } else if right {
        Vec2 { x: clamp_coord(p.x + step) as i64, ..p }
    } else if down {
        Vec2 { y: clamp_coord(p.y + step) as i64, ..p }
    } else {
        p
    }
}

/// One frame of player movement, from the keys newly pressed this frame.
pub fn move_a_player(game: &mut Game, up: bool, left: bool, right: bool, down: bool, dt: u64)
    requires
        old(game).wf(),
    ensures
        final(game).wf(),
        final(game).player_pos == player_after(*old(game), up, left, right, down, dt as int),
        final(game).max_enemies == old(game).max_enemies,
        final(game).max_bullets == old(game).max_bullets,
        final(game).enemy_count == old(game).enemy_count,
        final(game).bullet_count == old(game).bullet_count,
        final(game).shoot_time == old(game).shoot_time,
        final(game).enemy_spawn_time == old(game).enemy_spawn_time,
        final(game).player_size == old(game).player_size,
        final(game).player_speed == old(game).player_speed,
        final(game).shoot_delay == old(game).shoot_delay,
        final(game).game_time == old(game).game_time,
        final(game).bullet_speed == old(game).bullet_speed,
        final(game).bullet_size == old(game).bullet_size,
        final(game).bullet_pierce == old(game).bullet_pierce,
{
    assert(0 <= game.player_speed * dt <= SPEED_MAX * 0x1_0000_0000_0000_0000) by (nonlinear_arith)
        requires
            0 <= game.player_speed <= SPEED_MAX,
            0 <= dt < 0x1_0000_0000_0000_0000,
    ;
    let step: i128 = game.player_speed as i128 * dt as i128 / 1_000_000;
    let p = game.player_pos;
    if up {
        game.player_pos.y = clamp_i128(p.y as i128 - step);
    } else if left {
        game.player_pos.x = clamp_i128(p.x as i128 - step);
    } else if right {
        game.player_pos.x = clamp_i128(p.x as i128 + step);
    } else if down {
        game.player_pos.y = clamp_i128(p.y as i128 + step);
    }
}

fn clamp_i128(v: i128) -> (r: i64)
    ensures
        r == clamp_coord(v as int),
{
    if v < -(COORD_MAX as i128) {
        -COORD_MAX
    } else if v > COORD_MAX as i128 {
        COORD_MAX
    } else {
        v as i64
    }
}

/// Time between enemy spawns, in microseconds: a tenth of a second's
/// worth divided by the difficulty scalar, i.e. `1 / game_time / 0.1` seconds.
pub open spec fn spawn_interval(g: Game) -> int {
    10_000_000int / (g.game_time as int)
}

/// Radius of a new enemy: `8 * game_time / 20` pixels.
pub open spec fn spawn_size(g: Game) -> int {
    400_000 * g.game_time
}

/// Enemy speed: `40 + game_time / 10` pixels per second.
pub open spec fn enemy_speed(g: Game) -> int {
    40_000_000 + 100_000 * g.game_time
}

pub open spec fn banked_spawn_time(g: Game, dt: int) -> int {
    sat_add(g.enemy_spawn_time as int, dt)
}

/// How many enemies a frame spawns: one per whole interval banked, up to the
/// remaining capacity.
pub open spec fn spawns_due(g: Game, dt: int, max_enemies: int) -> int {
    if g.enemy_count >= max_enemies {
        0
    } else {
        min_int(banked_spawn_time(g, dt) / spawn_interval(g), max_enemies - g.enemy_count)
    }
}

/// The enemy placed at `angle` degrees on the ring of radius `width / 2`
/// pixels around the player.
pub open spec fn spawned_enemy(g: Game, width: i32, angle: u32) -> Enemy {
    Enemy {
        size: spawn_size(g) as i64,
        position: Vec2 {
            x: clamp_coord(g.player_pos.x + trunc_div(cosine_deg(angle as nat) * width, 2)) as i64,
            y: clamp_coord(g.player_pos.y + trunc_div(sine_deg(angle as nat) * width, 2)) as i64,
        },
    }
}

/// The active enemies with `k` new ones appended, the `i`-th at `angles[i]`.
pub open spec fn with_spawns(g: Game, width: i32, angles: Seq<u32>, k: int) -> Seq<Enemy> {
    g.max_enemies@ + Seq::new(k as nat, |i: int| spawned_enemy(g, width, angles[i]))
}

fn spawn_offset(dir: i64, width: i32) -> (r: i64)
    requires
        -UNIT <= dir <= UNIT,
    ensures
        r == trunc_div(dir * width, 2),
        -1_100_000_000_000_000 <= r <= 1_100_000_000_000_000,
{
    assert(-2_200_000_000_000_000 <= dir * width <= 2_200_000_000_000_000) by (nonlinear_arith)
        requires
            -1_000_000 <= dir <= 1_000_000,
            -0x8000_0000 <= width < 0x8000_0000,
    ;
    let v: i64 = dir * width as i64;
    if v >= 0 {
        v / 2
    } else {
        -((-v) / 2)
    }
}

/// How many enemies `spawn_enemies` will place this frame when given enough
/// angles.
pub fn pending_spawns(game: &Game, max_enemies: usize, dt: u64) -> (r: usize)
    requires
        game.wf(),
    ensures
        r == spawns_due(*game, dt as int, max_enemies as int),
{
    if game.enemy_count >= max_enemies {
        return 0;
    }
    let interval: u64 = 10_000_000 / game.game_time as u64;
    assert(interval >= 10) by (nonlinear_arith)
        requires
            1 <= game.game_time <= GAME_TIME_MAX,
            interval == 10_000_000int / (game.game_time as int),
    ;
    let banked: u64 = game.enemy_spawn_time.saturating_add(dt);
    let whole: u64 = banked / interval;
    let room: usize = max_enemies - game.enemy_count;
    if whole < room as u64 {
        whole as usize
    } else {
        room
    }
}

/// One frame of enemy spawning.
///
/// The frame's time `dt` is banked; then, while a whole spawn interval is
/// banked and fewer than `max_enemies` enemies are active, an enemy is placed
/// on the ring around the player at the next of `angles` (degrees), and the
/// interval is taken off. Spawning also stops when the angles run out.
pub fn spawn_enemies(game: &mut Game, max_enemies: usize, dt: u64, width: i32, angles: &Vec<u32>)
    requires
        old(game).wf(),
    ensures
        final(game).wf(),
        same_config(*final(game), *old(game)),
        final(game).shoot_time == old(game).shoot_time,
        final(game).max_bullets == old(game).max_bullets,
        final(game).bullet_count == old(game).bullet_count,
        ({
            let k = min_int(spawns_due(*old(game), dt as int, max_enemies as int), angles@.len() as int);
            &&& final(game).enemy_spawn_time == banked_spawn_time(*old(game), dt as int) - k
                * spawn_interval(*old(game))
            &&& final(game).max_enemies@ == with_spawns(*old(game), width, angles@, k)
        }),
        old(game).enemy_count <= max_enemies ==> final(game).enemy_count <= max_enemies,
{
    let ghost g0 = *game;
    let interval: u64 = 10_000_000 / game.game_time as u64;
    assert(interval >= 10) by (nonlinear_arith)
        requires
            1 <= game.game_time <= GAME_TIME_MAX,
            interval == 10_000_000int / (game.game_time as int),
    ;
    game.enemy_spawn_time = game.enemy_spawn_time.saturating_add(dt);
    let ghost banked = game.enemy_spawn_time as int;
    let ghost n0 = g0.max_enemies@.len();
    let ghost due = spawns_due(g0, dt as int, max_enemies as int);
    assert(banked / (interval as int) >= 0) by (nonlinear_arith)
        requires
            banked >= 0,
            interval > 0,
    ;
    let size: i64 = 400_000 * game.game_time;
    let mut next: usize = 0;
    while game.enemy_spawn_time >= interval && game.enemy_count < max_enemies && next < angles.len()
        invariant
            g0.wf(),
            interval == spawn_interval(g0),
            interval > 0,
            size == spawn_size(g0),
            same_config(*game, g0),
            game.enemy_count == game.max_enemies@.len(),
            point_ok(game.player_pos),
            enemies_ok(game.max_enemies@),
            game.shoot_time == g0.shoot_time,
            game.max_bullets == g0.max_bullets,
            game.bullet_count == g0.bullet_count,
            next == game.max_enemies@.len() - n0,
            n0 <= game.max_enemies@.len(),
            next <= angles@.len(),
            game.max_enemies@ == with_spawns(g0, width, angles@, next as int),
            game.enemy_spawn_time == banked - next * interval,
            next <= due,
            due == spawns_due(g0, dt as int, max_enemies as int),
            banked == banked_spawn_time(g0, dt as int),
            banked >= 0,
        decreases game.enemy_spawn_time,
    {
        proof {
            let j = next as int;
            let d = interval as int;
            assert((j + 1) * d == j * d + d) by (nonlinear_arith);
            lemma_div_bounds(banked, d, j + 1);
        }
        let dir = ring_direction(angles[next]);
        let ox = spawn_offset(dir.x, width);
        let oy = spawn_offset(dir.y, width);
        let enemy = Enemy {
            size,
            position: Vec2 {
                x: clamp_i128(game.player_pos.x as i128 + ox as i128),
                y: clamp_i128(game.player_pos.y as i128 + oy as i128),
            },
        };
        game.enemy_count += 1;
        game.max_enemies.push(enemy);
        game.enemy_spawn_time -= interval;
        next += 1;
        assert(game.max_enemies@ =~= with_spawns(g0, width, angles@, next as int));
    }
    proof {
        let j = next as int;
        let d = interval as int;
        assert((j + 1) * d == j * d + d) by (nonlinear_arith);
        lemma_div_bounds(banked, d, j);
    }
}

/// An enemy after homing on `target` for `dt` microseconds at `speed`.
pub open spec fn homed_enemy(e: Enemy, target: Vec2, speed: int, dt: int) -> Enemy {
    let d = unit_of(target.x - e.position.x, target.y - e.position.y);
    Enemy {
        position: advance_point(e.position, Vec2 { x: d.0 as i64, y: d.1 as i64 }, speed, dt),
        ..e
    }
}

pub open spec fn homed_enemies(es: Seq<Enemy>, target: Vec2, speed: int, dt: int) -> Seq<Enemy> {
    Seq::new(es.len(), |i: int| homed_enemy(es[i], target, speed, dt))
}

/// One frame of enemy movement: every enemy moves straight toward the
/// player at `40 + game_time / 10` pixels per second.
pub fn update_enemies(game: &mut Game, dt: u64)
    requires
        old(game).wf(),
    ensures
        final(game).wf(),
        same_config(*final(game), *old(game)),
        final(game).shoot_time == old(game).shoot_time,
        final(game).enemy_spawn_time == old(game).enemy_spawn_time,
        final(game).max_bullets == old(game).max_bullets,
        final(game).bullet_count == old(game).bullet_count,
        final(game).enemy_count == old(game).enemy_count,
        final(game).max_enemies@ == homed_enemies(
            old(game).max_enemies@,
            old(game).player_pos,
            enemy_speed(*old(game)),
            dt as int,
        ),
{
    let speed: i64 = 40_000_000 + 100_000 * game.game_time;
    let target = game.player_pos;
    let ghost es0 = game.max_enemies@;
    let ghost g0 = *game;
    let n = game.max_enemies.len();
    let mut i: usize = 0;
    while i < n
        invariant
            g0.wf(),
            n == es0.len(),
            es0 == g0.max_enemies@,
            target == g0.player_pos,
            speed == enemy_speed(g0),
            same_config(*game, g0),
            game.shoot_time == g0.shoot_time,
            game.enemy_spawn_time == g0.enemy_spawn_time,
            game.max_bullets == g0.max_bullets,
            game.bullet_count == g0.bullet_count,
            game.enemy_count == g0.enemy_count,
            game.max_enemies@.len() == n,
            i <= n,
            forall|k: int| 0 <= k < i ==> game.max_enemies@[k] == homed_enemy(es0[k], target, speed as int, dt as int),
            forall|k: int| i <= k < n ==> game.max_enemies@[k] == es0[k],
            enemies_ok(game.max_enemies@),
        decreases n - i,
    {
        let mut e = game.max_enemies[i];
        let dir = unit_vector(target.x - e.position.x, target.y - e.position.y);
        e.position = move_point(e.position, dir, speed, dt);
        game.max_enemies[i] = e;
        i += 1;
    }
    assert(game.max_enemies@ =~= homed_enemies(es0, target, speed as int, dt as int));
}

/// Checks one enemy against the player. On contact the round is over and a
/// fresh state for the same window is handed back for the caller to adopt;
/// otherwise `None`. The state passed in is never changed.
pub fn gameover(
    game_state: &Game,
    enemy: &Enemy,
    width: i32,
    height: i32,
    max_enemies: usize,
    max_bullets: usize,
) -> (r: Option<Game>)
    requires
        game_state.wf(),
        enemy_ok(*enemy),
    ensures
        r.is_some() == circles_meet(
            enemy.position,
            enemy.size as int,
            game_state.player_pos,
            game_state.player_size as int,
        ),
        r matches Some(g) ==> is_initial_state(g, width, height) && g.wf(),
{
    if check_collision_circles(
        enemy.position,
        enemy.size,
        game_state.player_pos,
        game_state.player_size,
    ) {
        Some(Game::create_initial_state(width, height, max_enemies, max_bullets))
    } else {
        None
    }
}

/// A bullet fired at a target away from the player flies along a unit
/// direction, up to rounding.
pub proof fn lemma_shot_direction_is_unit(g: Game, target: Vec2)
    requires
        target != g.player_pos,
    ensures
        UNIT * UNIT - 5 * UNIT <= sq(new_bullet(g, target).direction.x as int) + sq(
            new_bullet(g, target).direction.y as int,
        ) <= UNIT * UNIT + 3 * UNIT,
{
    let dx = target.x - g.player_pos.x;
    let dy = target.y - g.player_pos.y;
    lemma_unit_norm(dx, dy);
    lemma_unit_bounds(dx, dy);
}

/// An enemy away from the player homes along a unit direction, up to
/// rounding.
pub proof fn lemma_homing_direction_is_unit(e: Enemy, target: Vec2)
    requires
        target != e.position,
    ensures
        ({
            let d = unit_of(target.x - e.position.x, target.y - e.position.y);
            UNIT * UNIT - 5 * UNIT <= sq(d.0) + sq(d.1) <= UNIT * UNIT + 3 * UNIT
        }),
{
    lemma_unit_norm(target.x - e.position.x, target.y - e.position.y);
}

/// Burst catch-up: with two and a half delays banked and room for two more
/// bullets, holding the fire control fires exactly two bullets and leaves
/// half a delay banked.
pub proof fn lemma_burst_catch_up(g: Game, dt: int, max_bullets: int)
    requires
        g.wf(),
        2 * g.shoot_time == 5 * g.shoot_delay,
        g.bullet_count + 2 <= max_bullets,
        dt >= 0,
    ensures
        shots_due(g, true, dt, max_bullets) == 2,
        2 * (banked_shot_time(g, true, dt) - 2 * g.shoot_delay) == g.shoot_delay,
{
    let d = g.shoot_delay as int;
    assert(banked_shot_time(g, true, dt) == g.shoot_time);
    assert((g.shoot_time as int) / d == 2) by (nonlinear_arith)
        requires
            2 * g.shoot_time == 5 * d,
            d > 0,
    ;
}

/// Moving bullets and enemies for no time leaves every position where it was.
pub proof fn lemma_zero_time_moves_nothing(bs: Seq<Bullet>, es: Seq<Enemy>, target: Vec2, speed: int)
    requires
        bullets_ok(bs),
        enemies_ok(es),
    ensures
        moved_bullets(bs, 0) == bs,
        homed_enemies(es, target, speed, 0) == es,
{
    assert forall|i: int| 0 <= i < bs.len() implies #[trigger] moved_bullets(bs, 0)[i] == bs[i] by {
        let b = bs[i];
        assert(b.direction.x * b.speed * 0 == 0 && b.direction.y * b.speed * 0 == 0) by (
        nonlinear_arith);
    }
    assert forall|i: int| 0 <= i < es.len() implies #[trigger] homed_enemies(es, target, speed, 0)[i]
        == es[i] by {
        let e = es[i];
        let d = unit_of(target.x - e.position.x, target.y - e.position.y);
        assert(d.0 * speed * 0 == 0 && d.1 * speed * 0 == 0) by (nonlinear_arith);
    }
    assert(moved_bullets(bs, 0) =~= bs);
    assert(homed_enemies(es, target, speed, 0) =~= es);
}

pub open spec fn abs_int(v: int) -> int {
    if v >= 0 {
        v
    } else {
        -v
    }
}

/// Moving along a direction of length `UNIT` (up to rounding) by `k`, the
/// product of a speed and a time, covers `k / MICROS_PER_SECOND` coordinate
/// units up to rounding. With `c = UNIT * MICROS_PER_SECOND` and the step
/// `(sx, sy)` that `advance` adds before clamping: `|(sx, sy)| * c` is at
/// most `k * sqrt(UNIT * UNIT + 3 * UNIT)`, and the step grown by one unit on
/// each axis is at least `k * sqrt(UNIT * UNIT - 5 * UNIT)` long.
pub proof fn lemma_step_length(ux: int, uy: int, k: int)
    requires
        UNIT * UNIT - 5 * UNIT <= sq(ux) + sq(uy) <= UNIT * UNIT + 3 * UNIT,
        k >= 0,
    ensures
        ({
            let c = UNIT * MICROS_PER_SECOND;
            let sx = trunc_div(ux * k, c);
            let sy = trunc_div(uy * k, c);
            &&& (sq(sx) + sq(sy)) * sq(c) <= (UNIT * UNIT + 3 * UNIT) * sq(k)
            &&& (sq(abs_int(sx) + 1) + sq(abs_int(sy) + 1)) * sq(c) >= (UNIT * UNIT - 5 * UNIT)
                * sq(k)
        }),
{
    let c = UNIT * MICROS_PER_SECOND;
    let a = ux * k;
    let b = uy * k;
    let sx = trunc_div(a, c);
    let sy = trunc_div(b, c);
    lemma_trunc_bounds(a, c);
    lemma_trunc_bounds(b, c);
    let qa = abs_int(sx);
    let qb = abs_int(sy);
    let ma = abs_int(a);
    let mb = abs_int(b);
    lemma_sq_abs(sx);
    lemma_sq_abs(sy);
    lemma_sq_abs(a);
    lemma_sq_abs(b);
    assert(sq(a) + sq(b) == (sq(ux) + sq(uy)) * sq(k)) by (nonlinear_arith)
        requires
            a == ux * k,
            b == uy * k,
    ;
    assert(qa * c >= 0 && qb * c >= 0) by (nonlinear_arith)
        requires
            qa >= 0,
            qb >= 0,
            c > 0,
    ;
    lemma_sq_le(qa * c, ma);
    lemma_sq_le(qb * c, mb);
    lemma_sq_lt(ma, (qa + 1) * c);
    lemma_sq_lt(mb, (qb + 1) * c);
    assert((qa * c) * (qa * c) + (qb * c) * (qb * c) == (qa * qa + qb * qb) * sq(c)) by (
    nonlinear_arith);
    assert(((qa + 1) * c) * ((qa + 1) * c) + ((qb + 1) * c) * ((qb + 1) * c) == (sq(qa + 1) + sq(
        qb + 1)) * sq(c)) by (nonlinear_arith);
    assert(sq(k) >= 0) by (nonlinear_arith);
    assert((sq(ux) + sq(uy)) * sq(k) <= (UNIT * UNIT + 3 * UNIT) * sq(k)) by (nonlinear_arith)
        requires
            sq(ux) + sq(uy) <= UNIT * UNIT + 3 * UNIT,
            sq(k) >= 0,
    ;
    assert((sq(ux) + sq(uy)) * sq(k) >= (UNIT * UNIT - 5 * UNIT) * sq(k)) by (nonlinear_arith)
        requires
            sq(ux) + sq(uy) >= UNIT * UNIT - 5 * UNIT,
            sq(k) >= 0,
    ;
}

/// An enemy away from the player covers `speed * dt` toward it, up to
/// rounding, as `lemma_step_length` states of its step before clamping.
pub proof fn lemma_homing_step_length(e: Enemy, target: Vec2, speed: int, dt: int)
    requires
        target != e.position,
        speed >= 0,
        dt >= 0,
    ensures
        ({
            let d = unit_of(target.x - e.position.x, target.y - e.position.y);
            let c = UNIT * MICROS_PER_SECOND;
            let k = speed * dt;
            let sx = trunc_div(d.0 * speed * dt, c);
            let sy = trunc_div(d.1 * speed * dt, c);
            &&& (sq(sx) + sq(sy)) * sq(c) <= (UNIT * UNIT + 3 * UNIT) * sq(k)
            &&& (sq(abs_int(sx) + 1) + sq(abs_int(sy) + 1)) * sq(c) >= (UNIT * UNIT - 5 * UNIT)
                * sq(k)
        }),
{
    let d = unit_of(target.x - e.position.x, target.y - e.position.y);
    lemma_unit_norm(target.x - e.position.x, target.y - e.position.y);
    assert(speed * dt >= 0) by (nonlinear_arith)
        requires
            speed >= 0,
            dt >= 0,
    ;
    assert(d.0 * speed * dt == d.0 * (speed * dt) && d.1 * speed * dt == d.1 * (speed * dt)) by (
    nonlinear_arith);
    lemma_step_length(d.0, d.1, speed * dt);
}

/// For an even window width, an enemy spawned at any whole degree sits on
/// the ring of radius `width / 2` pixels around the player, up to the sine
/// table's rounding (before clamping to the field): the squared length of its
/// offset is within `2 * UNIT * h * h` of `(UNIT * h)^2`, `h = width / 2`.
pub proof fn lemma_spawn_offset_on_ring(angle: nat, width: int)
    requires
        width >= 0,
        width % 2 == 0,
    ensures
        ({
            let h = width / 2;
            let ox = trunc_div(cosine_deg(angle) * width, 2);
            let oy = trunc_div(sine_deg(angle) * width, 2);
            &&& ox == cosine_deg(angle) * h
            &&& oy == sine_deg(angle) * h
            &&& h * h * (UNIT * UNIT - 2 * UNIT) <= sq(ox) + sq(oy) <= h * h * (UNIT * UNIT + 2
                * UNIT)
        }),
{
    let h = width / 2;
    let cx = cosine_deg(angle);
    let sy = sine_deg(angle);
    lemma_ring_direction_is_unit(angle);
    assert(cx * width == 2 * (cx * h) && sy * width == 2 * (sy * h)) by (nonlinear_arith)
        requires
            width == 2 * h,
    ;
    let ox = trunc_div(cx * width, 2);
    let oy = trunc_div(sy * width, 2);
    assert(ox == cx * h);
    assert(oy == sy * h);
    assert(sq(ox) + sq(oy) == (h * h) * (sq(cx) + sq(sy))) by (nonlinear_arith)
        requires
            ox == cx * h,
            oy == sy * h,
    ;
    assert(h * h >= 0) by (nonlinear_arith);
    assert(h * h * (UNIT * UNIT - 2 * UNIT) <= (h * h) * (sq(cx) + sq(sy)) <= h * h * (UNIT * UNIT
        + 2 * UNIT)) by (nonlinear_arith)
        requires
            UNIT * UNIT - 2 * UNIT <= sq(cx) + sq(sy) <= UNIT * UNIT + 2 * UNIT,
            h * h >= 0,
    ;
}

} // verus!
