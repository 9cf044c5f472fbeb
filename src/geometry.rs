use vstd::prelude::*;

verus! {

/// Scale of a direction component: a unit vector has length `UNIT`. It is
/// also the number of coordinate units in one pixel.
pub const UNIT: i64 = 1_000_000;

/// Largest magnitude of a coordinate, in millionths of a pixel (four
/// million pixels).
pub const COORD_MAX: i64 = 4_000_000_000_000;

/// A point or a direction in the plane, in integer units.
#[derive(Debug, Clone, Copy, PartialEq, Eq, Structural)]
pub struct Vec2 {
    pub x: i64,
    pub y: i64,
}

const UNIT_SQ: i128 = 1_000_000_000_000;

proof fn lemma_square_bound(v: int, m: int)
    requires
        -m <= v <= m,
    ensures
        0 <= v * v <= m * m,
{
    assert(0 <= v * v <= m * m) by (nonlinear_arith)
        requires
            -m <= v <= m,
    ;
}

/// A coordinate lies within the playing field.
pub open spec fn coord_ok(v: int) -> bool {
    -COORD_MAX <= v <= COORD_MAX
}

pub open spec fn point_ok(p: Vec2) -> bool {
    coord_ok(p.x as int) && coord_ok(p.y as int)
}

/// Clamps a value to the playing field. The field reaches four million
/// pixels each way, so this bounds the arithmetic and never the play.
pub open spec fn clamp_coord(v: int) -> int {
    if v < -COORD_MAX {
        -COORD_MAX as int
    } else if v > COORD_MAX {
        COORD_MAX as int
    } else {
        v
    }
}

/// Integer division rounding toward zero, for a positive divisor.
pub open spec fn trunc_div(a: int, d: int) -> int {
    if a >= 0 {
        a / d
    } else {
        -((-a) / d)
    }
}

pub open spec fn is_isqrt(n: int, r: int) -> bool {
    0 <= r && r * r <= n && n < (r + 1) * (r + 1)
}

/// The integer square root: the largest `r` with `r * r <= n`.
pub open spec fn isqrt(n: nat) -> nat {
    choose|r: nat| is_isqrt(n as int, r as int)
}

pub open spec fn sq(v: int) -> int {
    v * v
}

/// Length of `(dx, dy)` scaled by `UNIT`, rounded down.
pub open spec fn scaled_len(dx: int, dy: int) -> nat {
    isqrt(((sq(dx) + sq(dy)) * sq(UNIT as int)) as nat)
}

/// The unit vector along `(dx, dy)`, each component scaled by `UNIT` and
/// rounded toward zero; the zero vector stays zero.
pub open spec fn unit_of(dx: int, dy: int) -> (int, int) {
    if dx == 0 && dy == 0 {
        (0, 0)
    } else {
        let len = scaled_len(dx, dy) as int;
        (
            trunc_div(dx * sq(UNIT as int), len),
            trunc_div(dy * sq(UNIT as int), len),
        )
    }
}

/// Two circles touch or overlap.
pub open spec fn circles_meet(c1: Vec2, r1: int, c2: Vec2, r2: int) -> bool {
    sq(c2.x - c1.x) + sq(c2.y - c1.y) <= sq(r1 + r2)
}

/// Sine of a whole number of degrees in `[0, 90]`, scaled by `UNIT` and
/// rounded to the nearest integer.
pub open spec fn quarter_sine(t: int) -> int {
    if t == 0 {
        0
    } else if t == 1 {
        17452
    } else if t == 2 {
        34899
    } else if t == 3 {
        52336
    } else if t == 4 {
        69756
    } else if t == 5 {
        87156
    } else if t == 6 {
        104528
    } else if t == 7 {
        121869
    } else if t == 8 {
        139173
    } else if t == 9 {
        156434
    } else if t == 10 {
        173648
    } else if t == 11 {
        190809
    } else if t == 12 {
        207912
    } else if t == 13 {
        224951
    } else if t == 14 {
        241922
    } else if t == 15 {
        258819
    } else if t == 16 {
        275637
    } else if t == 17 {
        292372
    } else if t == 18 {
        309017
    } else if t == 19 {
        325568
    } else if t == 20 {
        342020
    } else if t == 21 {
        358368
    } else if t == 22 {
        374607
    } else if t == 23 {
        390731
    } else if t == 24 {
        406737
    } else if t == 25 {
        422618
    } else if t == 26 {
        438371
    } else if t == 27 {
        453990
    } else if t == 28 {
        469472
    } else if t == 29 {
        484810
    } else if t == 30 {
        500000
    } else if t == 31 {
        515038
    } else if t == 32 {
        529919
    } else if t == 33 {
        544639
    } else if t == 34 {
        559193
    } else if t == 35 {
        573576
    } else if t == 36 {
        587785
    } else if t == 37 {
        601815
    } else if t == 38 {
        615661
    } else if t == 39 {
        629320
    } else if t == 40 {
        642788
    } else if t == 41 {
        656059
    } else if t == 42 {
        669131
    } else if t == 43 {
        681998
    } else if t == 44 {
        694658
    } else if t == 45 {
        707107
    } else if t == 46 {
        719340
    } else if t == 47 {
        731354
    } else if t == 48 {
        743145
    } else if t == 49 {
        754710
    } else if t == 50 {
        766044
    } else if t == 51 {
        777146
    } else if t == 52 {
        788011
    } else if t == 53 {
        798636
    } else if t == 54 {
        809017
    } else if t == 55 {
        819152
    } else if t == 56 {
        829038
    } else if t == 57 {
        838671
    } else if t == 58 {
        848048
    } else if t == 59 {
        857167
    } else if t == 60 {
        866025
    } else if t == 61 {
        874620
    } else if t == 62 {
        882948
    } else if t == 63 {
        891007
    } else if t == 64 {
        898794
    } else if t == 65 {
        906308
    } else if t == 66 {
        913545
    } else if t == 67 {
        920505
    } else if t == 68 {
        927184
    } else if t == 69 {
        933580
    } else if t == 70 {
        939693
    } else if t == 71 {
        945519
    } else if t == 72 {
        951057
    } else if t == 73 {
        956305
    } else if t == 74 {
        961262
    } else if t == 75 {
        965926
    } else if t == 76 {
        970296
    } else if t == 77 {
        974370
    } else if t == 78 {
        978148
    } else if t == 79 {
        981627
    } else if t == 80 {
        984808
    } else if t == 81 {
        987688
    } else if t == 82 {
        990268
    } else if t == 83 {
        992546
    } else if t == 84 {
        994522
    } else if t == 85 {
        996195
    } else if t == 86 {
        997564
    } else if t == 87 {
        998630
    } else if t == 88 {
        999391
    } else if t == 89 {
        999848
    } else {
        1000000
    }
}

/// Sine of a whole number of degrees, scaled by `UNIT` and rounded to the
/// nearest integer.
pub open spec fn sine_deg(deg: nat) -> int {
    let d = (deg % 360) as int;
    if d <= 90 {
        quarter_sine(d)
    } else if d <= 180 {
        quarter_sine(180 - d)
    } else if d <= 270 {
        -quarter_sine(d - 180)
    } else {
        -quarter_sine(360 - d)
    }
}

/// Cosine of a whole number of degrees, scaled by `UNIT` and rounded to the
/// nearest integer.
pub open spec fn cosine_deg(deg: nat) -> int {
    sine_deg(deg + 90)
}

proof fn lemma_isqrt_unique(n: int, r1: int, r2: int)
    requires
        is_isqrt(n, r1),
        is_isqrt(n, r2),
    ensures
        r1 == r2,
{
    if r1 < r2 {
        assert((r1 + 1) * (r1 + 1) <= r2 * r2) by (nonlinear_arith)
            requires
                0 <= r1 < r2,
        ;
    } else if r2 < r1 {
        assert((r2 + 1) * (r2 + 1) <= r1 * r1) by (nonlinear_arith)
            requires
                0 <= r2 < r1,
        ;
    }
}

proof fn lemma_isqrt_is(n: nat, r: nat)
    requires
        is_isqrt(n as int, r as int),
    ensures
        isqrt(n) == r,
{
    lemma_isqrt_unique(n as int, isqrt(n) as int, r as int);
}

/// Integer square root of `n`.
pub fn integer_sqrt(n: u128) -> (r: u64)
    ensures
        r as nat == isqrt(n as nat),
{
    let mut lo: u128 = 0;
    let mut hi: u128 = 0x1_0000_0000_0000_0000;
    assert(n < hi * hi) by (nonlinear_arith)
        requires
            hi == 0x1_0000_0000_0000_0000u128,
            n <= u128::MAX,
    ;
    while hi - lo > 1
        invariant
            lo < hi <= 0x1_0000_0000_0000_0000u128,
            lo * lo <= n,
            n < hi * hi,
        decreases hi - lo,
    {
        let mid: u128 = lo + (hi - lo) / 2;
        assert(mid * mid <= 0xFFFF_FFFF_FFFF_FFFF_u128 * 0xFFFF_FFFF_FFFF_FFFF_u128) by (
        nonlinear_arith)
            requires
                mid < 0x1_0000_0000_0000_0000u128,
        ;
        if mid * mid <= n {
            lo = mid;
        } else {
            hi = mid;
        }
    }
    proof {
        lemma_isqrt_is(n as nat, lo as nat);
    }
    lo as u64
}

fn div_toward_zero(a: i128, d: i128) -> (r: i128)
    requires
        d > 0,
        a > i128::MIN,
    ensures
        r == trunc_div(a as int, d as int),
{
    if a >= 0 {
        a / d
    } else {
        -((-a) / d)
    }
}

/// The unit vector along `(dx, dy)`, scaled by `UNIT`.
pub fn unit_vector(dx: i64, dy: i64) -> (r: Vec2)
    requires
        -2 * COORD_MAX <= dx <= 2 * COORD_MAX,
        -2 * COORD_MAX <= dy <= 2 * COORD_MAX,
    ensures
        (r.x as int, r.y as int) == unit_of(dx as int, dy as int),
        -2 * UNIT <= r.x <= 2 * UNIT,
        -2 * UNIT <= r.y <= 2 * UNIT,
{
    if dx == 0 && dy == 0 {
        return Vec2 { x: 0, y: 0 };
    }
    let ax: i128 = dx as i128;
    let ay: i128 = dy as i128;
    proof {
        lemma_square_bound(ax as int, 8_000_000_000_000);
        lemma_square_bound(ay as int, 8_000_000_000_000);
        assert(sq(UNIT as int) == UNIT_SQ);
    }
    let n: i128 = (ax * ax + ay * ay) * UNIT_SQ;
    let len: u64 = integer_sqrt(n as u128);
    proof {
        assert(len == scaled_len(dx as int, dy as int));
        lemma_len_at_least_unit(dx as int, dy as int);
        lemma_unit_bounds(dx as int, dy as int);
    }
    let l: i128 = len as i128;
    let x: i128 = div_toward_zero(ax * UNIT_SQ, l);
    let y: i128 = div_toward_zero(ay * UNIT_SQ, l);
    Vec2 { x: x as i64, y: y as i64 }
}

proof fn lemma_len_at_least_unit(dx: int, dy: int)
    requires
        !(dx == 0 && dy == 0),
    ensures
        scaled_len(dx, dy) >= UNIT,
{
    let n = ((sq(dx) + sq(dy)) * sq(UNIT as int)) as nat;
    let l = scaled_len(dx, dy) as int;
    assert(sq(dx) + sq(dy) >= 1) by (nonlinear_arith)
        requires
            !(dx == 0 && dy == 0),
    ;
    assert(n >= sq(UNIT as int)) by (nonlinear_arith)
        requires
            sq(dx) + sq(dy) >= 1,
            n == (sq(dx) + sq(dy)) * sq(UNIT as int),
    ;
    lemma_isqrt_exists(n);
    if l < UNIT {
        assert((l + 1) * (l + 1) <= UNIT * UNIT) by (nonlinear_arith)
            requires
                0 <= l < UNIT,
        ;
    }
}

proof fn lemma_isqrt_exists(n: nat)
    ensures
        is_isqrt(n as int, isqrt(n) as int),
{
    let r = lemma_isqrt_witness(n);
    assert(is_isqrt(n as int, r as int));
}

proof fn lemma_isqrt_witness(n: nat) -> (r: nat)
    ensures
        is_isqrt(n as int, r as int),
    decreases n,
{
    if n == 0 {
        assert(is_isqrt(0, 0));
        0
    } else {
        let p = lemma_isqrt_witness((n - 1) as nat);
        let q: int = p as int + 1;
        if q * q <= n {
            assert(n < (q + 1) * (q + 1)) by (nonlinear_arith)
                requires
                    n - 1 < q * q,
                    q >= 1,
            ;
            assert(is_isqrt(n as int, q));
            q as nat
        } else {
            assert(p * p <= n);
            assert(is_isqrt(n as int, p as int));
            p
        }
    }
}

/// Components of the unit vector are bounded by `UNIT` up to rounding, so
/// they fit easily in an `i64`.
pub proof fn lemma_unit_bounds(dx: int, dy: int)
    requires
        !(dx == 0 && dy == 0),
    ensures
        -2 * UNIT <= unit_of(dx, dy).0 <= 2 * UNIT,
        -2 * UNIT <= unit_of(dx, dy).1 <= 2 * UNIT,
{
    lemma_unit_norm(dx, dy);
    let (ux, uy) = unit_of(dx, dy);
    assert(-2 * UNIT <= ux <= 2 * UNIT && -2 * UNIT <= uy <= 2 * UNIT) by (nonlinear_arith)
        requires
            ux * ux + uy * uy <= UNIT * UNIT + 3 * UNIT,
            UNIT == 1_000_000,
    ;
}

pub(crate) proof fn lemma_trunc_bounds(a: int, l: int)
    requires
        l > 0,
    ensures
        ({
            let q = trunc_div(a, l);
            let m = if a >= 0 { a } else { -a };
            let qm = if q >= 0 { q } else { -q };
            qm * l <= m && m < (qm + 1) * l && qm >= 0
        }),
{
    let q = trunc_div(a, l);
    let m = if a >= 0 { a } else { -a };
    let qm = if q >= 0 { q } else { -q };
    assert(m / l >= 0) by (nonlinear_arith)
        requires
            m >= 0,
            l > 0,
    ;
    assert(qm == m / l);
    assert((m / l) * l <= m && m < (m / l + 1) * l) by (nonlinear_arith)
        requires
            m >= 0,
            l > 0,
    ;
}

pub(crate) proof fn lemma_sq_le(x: int, y: int)
    requires
        0 <= x <= y,
    ensures
        x * x <= y * y,
{
    assert(x * x <= y * y) by (nonlinear_arith)
        requires
            0 <= x <= y,
    ;
}

pub(crate) proof fn lemma_sq_lt(x: int, y: int)
    requires
        0 <= x < y,
    ensures
        x * x < y * y,
{
    assert(x * x < y * y) by (nonlinear_arith)
        requires
            0 <= x < y,
    ;
}

pub(crate) proof fn lemma_sq_abs(v: int)
    ensures
        sq(v) == (if v >= 0 { v } else { -v }) * (if v >= 0 { v } else { -v }),
{
    assert(v * v == (-v) * (-v)) by (nonlinear_arith);
}

proof fn lemma_cancel_lt(x: int, y: int, k: int)
    requires
        k > 0,
        x * k < y * k,
    ensures
        x < y,
{
    assert(x < y) by (nonlinear_arith)
        requires
            k > 0,
            x * k < y * k,
    ;
}

/// The unit vector has length `UNIT` up to rounding: its squared length lies
/// within `5 * UNIT` of `UNIT * UNIT` whenever the vector is not zero.
pub proof fn lemma_unit_norm(dx: int, dy: int)
    requires
        !(dx == 0 && dy == 0),
    ensures
        UNIT * UNIT - 5 * UNIT <= sq(unit_of(dx, dy).0) + sq(unit_of(dx, dy).1),
        sq(unit_of(dx, dy).0) + sq(unit_of(dx, dy).1) <= UNIT * UNIT + 3 * UNIT,
{
    let u = UNIT as int;
    let u2 = sq(u);
    assert(u2 == 1_000_000_000_000);
    lemma_square_bound(dx, if dx >= 0 { dx } else { -dx });
    lemma_square_bound(dy, if dy >= 0 { dy } else { -dy });
    let n = (sq(dx) + sq(dy)) * u2;
    assert(n >= 0) by (nonlinear_arith)
        requires
            n == (sq(dx) + sq(dy)) * u2,
            u2 > 0,
            sq(dx) >= 0,
            sq(dy) >= 0,
    ;
    let l = scaled_len(dx, dy) as int;
    lemma_isqrt_exists(n as nat);
    lemma_len_at_least_unit(dx, dy);
    let (ux, uy) = unit_of(dx, dy);
    lemma_trunc_bounds(dx * u2, l);
    lemma_trunc_bounds(dy * u2, l);
    let a = if dx >= 0 { dx } else { -dx };
    let b = if dy >= 0 { dy } else { -dy };
    let qa = if ux >= 0 { ux } else { -ux };
    let qb = if uy >= 0 { uy } else { -uy };
    let big_a = a * u2;
    let big_b = b * u2;
    assert(big_a == if dx * u2 >= 0 { dx * u2 } else { -(dx * u2) }) by (nonlinear_arith)
        requires
            u2 > 0,
            a == if dx >= 0 { dx } else { -dx },
            big_a == a * u2,
    ;
    assert(big_b == if dy * u2 >= 0 { dy * u2 } else { -(dy * u2) }) by (nonlinear_arith)
        requires
            u2 > 0,
            b == if dy >= 0 { dy } else { -dy },
            big_b == b * u2,
    ;
    lemma_sq_abs(ux);
    lemma_sq_abs(uy);
    lemma_sq_abs(dx);
    lemma_sq_abs(dy);
    let qal = qa * l;
    let qbl = qb * l;
    assert(big_a * big_a + big_b * big_b == n * u2) by (nonlinear_arith)
        requires
            big_a == a * u2,
            big_b == b * u2,
            n == (a * a + b * b) * u2,
    ;
    assert(qal * qal + qbl * qbl == (qa * qa + qb * qb) * (l * l)) by (nonlinear_arith)
        requires
            qal == qa * l,
            qbl == qb * l,
    ;
    // upper bound
    assert(0 <= qal && 0 <= qbl) by (nonlinear_arith)
        requires
            qa >= 0,
            qb >= 0,
            l > 0,
            qal == qa * l,
            qbl == qb * l,
    ;
    lemma_sq_le(qal, big_a);
    lemma_sq_le(qbl, big_b);
    assert(n * u2 < (l + 1) * (l + 1) * u2) by (nonlinear_arith)
        requires
            n < (l + 1) * (l + 1),
            u2 > 0,
    ;
    assert((l + 1) * (l + 1) * u2 <= (u2 + 3 * u) * (l * l)) by (nonlinear_arith)
        requires
            l >= u,
            u > 0,
            u2 == u * u,
    ;
    assert(l * l > 0) by (nonlinear_arith)
        requires
            l > 0,
    ;
    lemma_cancel_lt(qa * qa + qb * qb, u2 + 3 * u, l * l);
    // lower bound
    assert((qa + 1) * l == qal + l && (qb + 1) * l == qbl + l) by (nonlinear_arith)
        requires
            qal == qa * l,
            qbl == qb * l,
    ;
    lemma_sq_lt(big_a, qal + l);
    lemma_sq_lt(big_b, qbl + l);
    assert((qal + l) * (qal + l) + (qbl + l) * (qbl + l) == ((qa + 1) * (qa + 1) + (qb + 1) * (
    qb + 1)) * (l * l)) by (nonlinear_arith)
        requires
            qal == qa * l,
            qbl == qb * l,
    ;
    assert(u2 * (l * l) <= n * u2) by (nonlinear_arith)
        requires
            l * l <= n,
            u2 > 0,
    ;
    lemma_cancel_lt(u2, (qa + 1) * (qa + 1) + (qb + 1) * (qb + 1), l * l);
    assert(qa <= u + 1 && qb <= u + 1) by (nonlinear_arith)
        requires
            qa * qa + qb * qb < u2 + 3 * u,
            u2 == u * u,
            u == 1_000_000,
            qa >= 0,
            qb >= 0,
    ;
    assert(qa * qa + qb * qb >= u2 - 5 * u) by (nonlinear_arith)
        requires
            (qa + 1) * (qa + 1) + (qb + 1) * (qb + 1) > u2,
            qa <= u + 1,
            qb <= u + 1,
            u == 1_000_000,
    ;
}

/// Whether two circles touch or overlap.
pub fn check_collision_circles(c1: Vec2, r1: i64, c2: Vec2, r2: i64) -> (r: bool)
    requires
        point_ok(c1),
        point_ok(c2),
        0 <= r1 <= COORD_MAX,
        0 <= r2 <= COORD_MAX,
    ensures
        r == circles_meet(c1, r1 as int, c2, r2 as int),
{
    let dx: i128 = c2.x as i128 - c1.x as i128;
    let dy: i128 = c2.y as i128 - c1.y as i128;
    let rs: i128 = r1 as i128 + r2 as i128;
    proof {
        lemma_square_bound(dx as int, 8_000_000_000_000);
        lemma_square_bound(dy as int, 8_000_000_000_000);
        lemma_square_bound(rs as int, 8_000_000_000_000);
    }
    dx * dx + dy * dy <= rs * rs
}

/// The direction at `deg` degrees, scaled by `UNIT`.
pub fn ring_direction(deg: u32) -> (r: Vec2)
    ensures
        r.x == cosine_deg(deg as nat),
        r.y == sine_deg(deg as nat),
        -UNIT <= r.x <= UNIT,
        -UNIT <= r.y <= UNIT,
{
    Vec2 { x: sine_of(deg as u64 + 90), y: sine_of(deg as u64) }
}

fn quarter_sine_of(t: u64) -> (r: i64)
    requires
        t <= 90,
    ensures
        r == quarter_sine(t as int),
        0 <= r <= UNIT,
{
    if t == 0 {
        0
    } else if t == 1 {
        17452
    } else if t == 2 {
        34899
    } else if t == 3 {
        52336
    } else if t == 4 {
        69756
    } else if t == 5 {
        87156
    } else if t == 6 {
        104528
    } else if t == 7 {
        121869
    } else if t == 8 {
        139173
    } else if t == 9 {
        156434
    } else if t == 10 {
        173648
    } else if t == 11 {
        190809
    } else if t == 12 {
        207912
    } else if t == 13 {
        224951
    } else if t == 14 {
        241922
    } else if t == 15 {
        258819
    } else if t == 16 {
        275637
    } else if t == 17 {
        292372
    } else if t == 18 {
        309017
    } else if t == 19 {
        325568
    } else if t == 20 {
        342020
    } else if t == 21 {
        358368
    } else if t == 22 {
        374607
    } else if t == 23 {
        390731
    } else if t == 24 {
        406737
    } else if t == 25 {
        422618
    } else if t == 26 {
        438371
    } else if t == 27 {
        453990
    } else if t == 28 {
        469472
    } else if t == 29 {
        484810
    } else if t == 30 {
        500000
    } else if t == 31 {
        515038
    } else if t == 32 {
        529919
    } else if t == 33 {
        544639
    } else if t == 34 {
        559193
    } else if t == 35 {
        573576
    } else if t == 36 {
        587785
    } else if t == 37 {
        601815
    } else if t == 38 {
        615661
    } else if t == 39 {
        629320
    } else if t == 40 {
        642788
    } else if t == 41 {
        656059
    } else if t == 42 {
        669131
    } else if t == 43 {
        681998
    } else if t == 44 {
        694658
    } else if t == 45 {
        707107
    } else if t == 46 {
        719340
    } else if t == 47 {
        731354
    } else if t == 48 {
        743145
    } else if t == 49 {
        754710
    } else if t == 50 {
        766044
    } else if t == 51 {
        777146
    } else if t == 52 {
        788011
    } else if t == 53 {
        798636
    } else if t == 54 {
        809017
    } else if t == 55 {
        819152
    } else if t == 56 {
        829038
    } else if t == 57 {
        838671
    } else if t == 58 {
        848048
    } else if t == 59 {
        857167
    } else if t == 60 {
        866025
    } else if t == 61 {
        874620
    } else if t == 62 {
        882948
    } else if t == 63 {
        891007
    } else if t == 64 {
        898794
    } else if t == 65 {
        906308
    } else if t == 66 {
        913545
    } else if t == 67 {
        920505
    } else if t == 68 {
        927184
    } else if t == 69 {
        933580
    } else if t == 70 {
        939693
    } else if t == 71 {
        945519
    } else if t == 72 {
        951057
    } else if t == 73 {
        956305
    } else if t == 74 {
        961262
    } else if t == 75 {
        965926
    } else if t == 76 {
        970296
    } else if t == 77 {
        974370
    } else if t == 78 {
        978148
    } else if t == 79 {
        981627
    } else if t == 80 {
        984808
    } else if t == 81 {
        987688
    } else if t == 82 {
        990268
    } else if t == 83 {
        992546
    } else if t == 84 {
        994522
    } else if t == 85 {
        996195
    } else if t == 86 {
        997564
    } else if t == 87 {
        998630
    } else if t == 88 {
        999391
    } else if t == 89 {
        999848
    } else {
        1000000
    }
}

fn sine_of(deg: u64) -> (r: i64)
    ensures
        r == sine_deg(deg as nat),
        -UNIT <= r <= UNIT,
{
    let d: u64 = deg % 360;
    if d <= 90 {
        quarter_sine_of(d)
    } else if d <= 180 {
        quarter_sine_of(180 - d)
    } else if d <= 270 {
        -quarter_sine_of(d - 180)
    } else {
        -quarter_sine_of(360 - d)
    }
}

proof fn lemma_sq_neg(v: int)
    ensures
        sq(-v) == sq(v),
{
    assert((-v) * (-v) == v * v) by (nonlinear_arith);
}

spec fn check_quarter(t: int) -> bool {
    let n = sq(quarter_sine(t)) + sq(quarter_sine(90 - t));
    UNIT * UNIT - 2 * UNIT <= n <= UNIT * UNIT + 2 * UNIT
}

proof fn lemma_quarter_pairs(t: int)
    requires
        0 <= t <= 90,
    ensures
        check_quarter(t),
{
    if t == 0 {
        assert(quarter_sine(0) == 0 && quarter_sine(90) == 1000000);
        assert(check_quarter(0));
    } else if t == 1 {
        assert(quarter_sine(1) == 17452 && quarter_sine(89) == 999848);
        assert(check_quarter(1));
    } else if t == 2 {
        assert(quarter_sine(2) == 34899 && quarter_sine(88) == 999391);
        assert(check_quarter(2));
    } else if t == 3 {
        assert(quarter_sine(3) == 52336 && quarter_sine(87) == 998630);
        assert(check_quarter(3));
    } else if t == 4 {
        assert(quarter_sine(4) == 69756 && quarter_sine(86) == 997564);
        assert(check_quarter(4));
    } else if t == 5 {
        assert(quarter_sine(5) == 87156 && quarter_sine(85) == 996195);
        assert(check_quarter(5));
    } else if t == 6 {
        assert(quarter_sine(6) == 104528 && quarter_sine(84) == 994522);
        assert(check_quarter(6));
    } else if t == 7 {
        assert(quarter_sine(7) == 121869 && quarter_sine(83) == 992546);
        assert(check_quarter(7));
    } else if t == 8 {
        assert(quarter_sine(8) == 139173 && quarter_sine(82) == 990268);
        assert(check_quarter(8));
    } else if t == 9 {
        assert(quarter_sine(9) == 156434 && quarter_sine(81) == 987688);
        assert(check_quarter(9));
    } else if t == 10 {
        assert(quarter_sine(10) == 173648 && quarter_sine(80) == 984808);
        assert(check_quarter(10));
    } else if t == 11 {
        assert(quarter_sine(11) == 190809 && quarter_sine(79) == 981627);
        assert(check_quarter(11));
    } else if t == 12 {
        assert(quarter_sine(12) == 207912 && quarter_sine(78) == 978148);
        assert(check_quarter(12));
    } else if t == 13 {
        assert(quarter_sine(13) == 224951 && quarter_sine(77) == 974370);
        assert(check_quarter(13));
    } else if t == 14 {
        assert(quarter_sine(14) == 241922 && quarter_sine(76) == 970296);
        assert(check_quarter(14));
    } else if t == 15 {
        assert(quarter_sine(15) == 258819 && quarter_sine(75) == 965926);
        assert(check_quarter(15));
    } else if t == 16 {
        assert(quarter_sine(16) == 275637 && quarter_sine(74) == 961262);
        assert(check_quarter(16));
    } else if t == 17 {
        assert(quarter_sine(17) == 292372 && quarter_sine(73) == 956305);
        assert(check_quarter(17));
    } else if t == 18 {
        assert(quarter_sine(18) == 309017 && quarter_sine(72) == 951057);
        assert(check_quarter(18));
    } else if t == 19 {
        assert(quarter_sine(19) == 325568 && quarter_sine(71) == 945519);
        assert(check_quarter(19));
    } else if t == 20 {
        assert(quarter_sine(20) == 342020 && quarter_sine(70) == 939693);
        assert(check_quarter(20));
    } else if t == 21 {
        assert(quarter_sine(21) == 358368 && quarter_sine(69) == 933580);
        assert(check_quarter(21));
    } else if t == 22 {
        assert(quarter_sine(22) == 374607 && quarter_sine(68) == 927184);
        assert(check_quarter(22));
    } else if t == 23 {
        assert(quarter_sine(23) == 390731 && quarter_sine(67) == 920505);
        assert(check_quarter(23));
    } else if t == 24 {
        assert(quarter_sine(24) == 406737 && quarter_sine(66) == 913545);
        assert(check_quarter(24));
    } else if t == 25 {
        assert(quarter_sine(25) == 422618 && quarter_sine(65) == 906308);
        assert(check_quarter(25));
    } else if t == 26 {
        assert(quarter_sine(26) == 438371 && quarter_sine(64) == 898794);
        assert(check_quarter(26));
    } else if t == 27 {
        assert(quarter_sine(27) == 453990 && quarter_sine(63) == 891007);
        assert(check_quarter(27));
    } else if t == 28 {
        assert(quarter_sine(28) == 469472 && quarter_sine(62) == 882948);
        assert(check_quarter(28));
    } else if t == 29 {
        assert(quarter_sine(29) == 484810 && quarter_sine(61) == 874620);
        assert(check_quarter(29));
    } else if t == 30 {
        assert(quarter_sine(30) == 500000 && quarter_sine(60) == 866025);
        assert(check_quarter(30));
    } else if t == 31 {
        assert(quarter_sine(31) == 515038 && quarter_sine(59) == 857167);
        assert(check_quarter(31));
    } else if t == 32 {
        assert(quarter_sine(32) == 529919 && quarter_sine(58) == 848048);
        assert(check_quarter(32));
    } else if t == 33 {
        assert(quarter_sine(33) == 544639 && quarter_sine(57) == 838671);
        assert(check_quarter(33));
    } else if t == 34 {
        assert(quarter_sine(34) == 559193 && quarter_sine(56) == 829038);
        assert(check_quarter(34));
    } else if t == 35 {
        assert(quarter_sine(35) == 573576 && quarter_sine(55) == 819152);
        assert(check_quarter(35));
    } else if t == 36 {
        assert(quarter_sine(36) == 587785 && quarter_sine(54) == 809017);
        assert(check_quarter(36));
    } else if t == 37 {
        assert(quarter_sine(37) == 601815 && quarter_sine(53) == 798636);
        assert(check_quarter(37));
    } else if t == 38 {
        assert(quarter_sine(38) == 615661 && quarter_sine(52) == 788011);
        assert(check_quarter(38));
    } else if t == 39 {
        assert(quarter_sine(39) == 629320 && quarter_sine(51) == 777146);
        assert(check_quarter(39));
    } else if t == 40 {
        assert(quarter_sine(40) == 642788 && quarter_sine(50) == 766044);
        assert(check_quarter(40));
    } else if t == 41 {
        assert(quarter_sine(41) == 656059 && quarter_sine(49) == 754710);
        assert(check_quarter(41));
    } else if t == 42 {
        assert(quarter_sine(42) == 669131 && quarter_sine(48) == 743145);
        assert(check_quarter(42));
    } else if t == 43 {
        assert(quarter_sine(43) == 681998 && quarter_sine(47) == 731354);
        assert(check_quarter(43));
    } else if t == 44 {
        assert(quarter_sine(44) == 694658 && quarter_sine(46) == 719340);
        assert(check_quarter(44));
    } else if t == 45 {
        assert(quarter_sine(45) == 707107 && quarter_sine(45) == 707107);
        assert(check_quarter(45));
    } else if t == 46 {
        assert(quarter_sine(46) == 719340 && quarter_sine(44) == 694658);
        assert(check_quarter(46));
    } else if t == 47 {
        assert(quarter_sine(47) == 731354 && quarter_sine(43) == 681998);
        assert(check_quarter(47));
    } else if t == 48 {
        assert(quarter_sine(48) == 743145 && quarter_sine(42) == 669131);
        assert(check_quarter(48));
    } else if t == 49 {
        assert(quarter_sine(49) == 754710 && quarter_sine(41) == 656059);
        assert(check_quarter(49));
    } else if t == 50 {
        assert(quarter_sine(50) == 766044 && quarter_sine(40) == 642788);
        assert(check_quarter(50));
    } else if t == 51 {
        assert(quarter_sine(51) == 777146 && quarter_sine(39) == 629320);
        assert(check_quarter(51));
    } else if t == 52 {
        assert(quarter_sine(52) == 788011 && quarter_sine(38) == 615661);
        assert(check_quarter(52));
    } else if t == 53 {
        assert(quarter_sine(53) == 798636 && quarter_sine(37) == 601815);
        assert(check_quarter(53));
    } else if t == 54 {
        assert(quarter_sine(54) == 809017 && quarter_sine(36) == 587785);
        assert(check_quarter(54));
    } else if t == 55 {
        assert(quarter_sine(55) == 819152 && quarter_sine(35) == 573576);
        assert(check_quarter(55));
    } else if t == 56 {
        assert(quarter_sine(56) == 829038 && quarter_sine(34) == 559193);
        assert(check_quarter(56));
    } else if t == 57 {
        assert(quarter_sine(57) == 838671 && quarter_sine(33) == 544639);
        assert(check_quarter(57));
    } else if t == 58 {
        assert(quarter_sine(58) == 848048 && quarter_sine(32) == 529919);
        assert(check_quarter(58));
    } else if t == 59 {
        assert(quarter_sine(59) == 857167 && quarter_sine(31) == 515038);
        assert(check_quarter(59));
    } else if t == 60 {
        assert(quarter_sine(60) == 866025 && quarter_sine(30) == 500000);
        assert(check_quarter(60));
    } else if t == 61 {
        assert(quarter_sine(61) == 874620 && quarter_sine(29) == 484810);
        assert(check_quarter(61));
    } else if t == 62 {
        assert(quarter_sine(62) == 882948 && quarter_sine(28) == 469472);
        assert(check_quarter(62));
    } else if t == 63 {
        assert(quarter_sine(63) == 891007 && quarter_sine(27) == 453990);
        assert(check_quarter(63));
    } else if t == 64 {
        assert(quarter_sine(64) == 898794 && quarter_sine(26) == 438371);
        assert(check_quarter(64));
    } else if t == 65 {
        assert(quarter_sine(65) == 906308 && quarter_sine(25) == 422618);
        assert(check_quarter(65));
    } else if t == 66 {
        assert(quarter_sine(66) == 913545 && quarter_sine(24) == 406737);
        assert(check_quarter(66));
    } else if t == 67 {
        assert(quarter_sine(67) == 920505 && quarter_sine(23) == 390731);
        assert(check_quarter(67));
    } else if t == 68 {
        assert(quarter_sine(68) == 927184 && quarter_sine(22) == 374607);
        assert(check_quarter(68));
    } else if t == 69 {
        assert(quarter_sine(69) == 933580 && quarter_sine(21) == 358368);
        assert(check_quarter(69));
    } else if t == 70 {
        assert(quarter_sine(70) == 939693 && quarter_sine(20) == 342020);
        assert(check_quarter(70));
    } else if t == 71 {
        assert(quarter_sine(71) == 945519 && quarter_sine(19) == 325568);
        assert(check_quarter(71));
    } else if t == 72 {
        assert(quarter_sine(72) == 951057 && quarter_sine(18) == 309017);
        assert(check_quarter(72));
    } else if t == 73 {
        assert(quarter_sine(73) == 956305 && quarter_sine(17) == 292372);
        assert(check_quarter(73));
    } else if t == 74 {
        assert(quarter_sine(74) == 961262 && quarter_sine(16) == 275637);
        assert(check_quarter(74));
    } else if t == 75 {
        assert(quarter_sine(75) == 965926 && quarter_sine(15) == 258819);
        assert(check_quarter(75));
    } else if t == 76 {
        assert(quarter_sine(76) == 970296 && quarter_sine(14) == 241922);
        assert(check_quarter(76));
    } else if t == 77 {
        assert(quarter_sine(77) == 974370 && quarter_sine(13) == 224951);
        assert(check_quarter(77));
    } else if t == 78 {
        assert(quarter_sine(78) == 978148 && quarter_sine(12) == 207912);
        assert(check_quarter(78));
    } else if t == 79 {
        assert(quarter_sine(79) == 981627 && quarter_sine(11) == 190809);
        assert(check_quarter(79));
    } else if t == 80 {
        assert(quarter_sine(80) == 984808 && quarter_sine(10) == 173648);
        assert(check_quarter(80));
    } else if t == 81 {
        assert(quarter_sine(81) == 987688 && quarter_sine(9) == 156434);
        assert(check_quarter(81));
    } else if t == 82 {
        assert(quarter_sine(82) == 990268 && quarter_sine(8) == 139173);
        assert(check_quarter(82));
    } else if t == 83 {
        assert(quarter_sine(83) == 992546 && quarter_sine(7) == 121869);
        assert(check_quarter(83));
    } else if t == 84 {
        assert(quarter_sine(84) == 994522 && quarter_sine(6) == 104528);
        assert(check_quarter(84));
    } else if t == 85 {
        assert(quarter_sine(85) == 996195 && quarter_sine(5) == 87156);
        assert(check_quarter(85));
    } else if t == 86 {
        assert(quarter_sine(86) == 997564 && quarter_sine(4) == 69756);
        assert(check_quarter(86));
    } else if t == 87 {
        assert(quarter_sine(87) == 998630 && quarter_sine(3) == 52336);
        assert(check_quarter(87));
    } else if t == 88 {
        assert(quarter_sine(88) == 999391 && quarter_sine(2) == 34899);
        assert(check_quarter(88));
    } else if t == 89 {
        assert(quarter_sine(89) == 999848 && quarter_sine(1) == 17452);
        assert(check_quarter(89));
    } else {
        assert(quarter_sine(90) == 1000000 && quarter_sine(0) == 0);
        assert(check_quarter(90));
    }
}

/// The ring direction at every whole degree has length `UNIT` up to
/// rounding: its squared length lies within `2 * UNIT` of `UNIT * UNIT`.
pub proof fn lemma_ring_direction_is_unit(deg: nat)
    ensures
        UNIT * UNIT - 2 * UNIT <= sq(cosine_deg(deg)) + sq(sine_deg(deg)) <= UNIT * UNIT + 2
            * UNIT,
{
    let d = (deg % 360) as int;
    let e = ((deg + 90) % 360) as int;
    assert(e == if d + 90 < 360 { d + 90 } else { d - 270 });
    if d <= 90 {
        lemma_quarter_pairs(d);
    } else if d <= 180 {
        lemma_quarter_pairs(180 - d);
        lemma_sq_neg(quarter_sine(d - 90));
    } else if d <= 270 {
        lemma_quarter_pairs(d - 180);
        lemma_sq_neg(quarter_sine(d - 180));
        lemma_sq_neg(quarter_sine(270 - d));
    } else {
        lemma_quarter_pairs(360 - d);
        lemma_sq_neg(quarter_sine(360 - d));
    }
}

} // verus!
