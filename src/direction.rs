//! Compass directions and the displacements they stand for.

use vstd::prelude::*;

verus! {

/// A compass index in `0..=0x3F`.
///
/// The low nibble is the angle (sixteen steps, clockwise, `0` pointing up the
/// screen); the high two bits are the speed level.
#[derive(Clone, Copy, Debug, Eq, Hash, PartialEq, PartialOrd, Ord, Structural)]
pub struct Direction(u8);

/// Rotates a displacement a quarter turn clockwise (screen `y` grows downward).
pub open spec fn rotate_quarter(v: (int, int)) -> (int, int) {
    (-v.1, v.0)
}

/// Rotates a displacement `q` quarter turns clockwise.
pub open spec fn rotate(v: (int, int), q: nat) -> (int, int)
    decreases q,
{
    if q == 0 {
        v
    } else {
        rotate_quarter(rotate(v, (q - 1) as nat))
    }
}

/// Movement of an object in the first quadrant, as (east, north) components,
/// for sub-angle `j` (`0..4`) and speed level `s` (`0..4`).
pub open spec fn object_quadrant(j: int, s: int) -> (int, int) {
    if j == 0 {
        (0, s + 1)
    } else if j == 1 {
        if s == 0 { (0, 1) } else if s == 1 { (1, 2) } else if s == 2 { (1, 3) } else { (2, 4) }
    } else if j == 2 {
        if s == 0 { (1, 1) } else if s == 1 { (1, 1) } else if s == 2 { (2, 2) } else { (3, 3) }
    } else {
        if s == 0 { (1, 0) } else if s == 1 { (2, 1) } else if s == 2 { (3, 1) } else { (4, 2) }
    }
}

/// Movement of a projectile in the first quadrant, as (east, north) components.
pub open spec fn bullet_quadrant(j: int, s: int) -> (int, int) {
    if j == 0 {
        (0, 2 * (s + 1))
    } else if j == 1 {
        if s == 0 { (1, 2) } else if s == 1 { (2, 4) } else if s == 2 { (2, 6) } else { (3, 7) }
    } else if j == 2 {
        if s == 0 { (1, 1) } else if s == 1 { (3, 3) } else if s == 2 { (4, 4) } else { (6, 6) }
    } else {
        if s == 0 { (2, 1) } else if s == 1 { (4, 2) } else if s == 2 { (6, 2) } else { (7, 3) }
    }
}

/// Turns an (east, north) first-quadrant pair into a screen displacement for
/// compass index `i`.
pub open spec fn compass(q: (int, int), i: int) -> (int, int) {
    rotate((q.0, -q.1), ((i % 16) / 4) as nat)
}

/// The displacement of an object moving in direction `i`.
pub open spec fn object_displacement(i: int) -> (int, int) {
    compass(object_quadrant(i % 4, i / 16), i)
}

/// The displacement of a projectile moving in direction `i`.
pub open spec fn bullet_displacement(i: int) -> (int, int) {
    compass(bullet_quadrant(i % 4, i / 16), i)
}

/// Sixteen times the sine of `j` sixteenths of a turn, for `j` in `0..=4`.
pub open spec fn sine16(j: int) -> int {
    if j == 0 { 0 } else if j == 1 { 6 } else if j == 2 { 11 } else if j == 3 { 15 } else { 16 }
}

/// A unit vector (scaled by sixteen) for angle `k` in `0..16`.
pub open spec fn unit16(k: int) -> (int, int) {
    rotate((sine16(k % 4), -sine16(4 - k % 4)), (k / 4) as nat)
}

/// How well angle `k` points along `(dx, dy)`: the scalar product with its unit vector.
pub open spec fn aim_score(dx: int, dy: int, k: int) -> int {
    dx * unit16(k).0 + dy * unit16(k).1
}

pub broadcast group group_direction {
    Direction::lemma_spec_new,
    Direction::lemma_from_idx,
}

/// Applies one clockwise quarter turn to an exec pair.
fn turn(v: (i8, i8)) -> (r: (i8, i8))
    requires
        -127 <= v.1,
    ensures
        (r.0 as int, r.1 as int) == rotate_quarter((v.0 as int, v.1 as int)),
{
    (-v.1, v.0)
}

/// Applies `q` clockwise quarter turns to an (east, north) pair.
fn orient(e: i8, n: i8, q: u8) -> (r: (i8, i8))
    requires
        -16 <= e <= 16,
        -16 <= n <= 16,
        q < 4,
    ensures
        (r.0 as int, r.1 as int) == rotate((e as int, -(n as int)), q as nat),
{
    let mut v: (i8, i8) = (e, -n);
    let mut i: u8 = 0;
    while i < q
        invariant
            i <= q < 4,
            -16 <= e <= 16,
            -16 <= n <= 16,
            (v.0 as int, v.1 as int) == rotate((e as int, -(n as int)), i as nat),
            -16 <= v.0 <= 16,
            -16 <= v.1 <= 16,
        decreases q - i,
    {
        v = turn(v);
        i = i + 1;
    }
    v
}

impl Direction {
    #[verifier::type_invariant]
    spec fn in_range(self) -> bool {
        self.0 <= 0x3F
    }

    /// The compass index.
    pub closed spec fn idx(self) -> u8 {
        self.0
    }

    /// The direction with compass index `idx`.
    pub closed spec fn spec_new(idx: u8) -> Direction {
        Direction(idx)
    }

    pub broadcast proof fn lemma_spec_new(idx: u8)
        ensures
            #[trigger] Direction::spec_new(idx).idx() == idx,
    {
    }

    /// A direction is determined by its index.
    pub broadcast proof fn lemma_from_idx(d: Direction)
        ensures
            #[trigger] Direction::spec_new(d.idx()) == d,
    {
    }

    pub fn new(idx: u8) -> (r: Self)
        requires
            idx <= 0x3F,
        ensures
            r.idx() == idx,
            r == Direction::spec_new(idx),
    {
        Direction(idx)
    }

    pub fn index(self) -> (r: u8)
        ensures
            r == self.idx(),
            r <= 0x3F,
    {
        proof {
            use_type_invariant(&self);
        }
        self.0
    }

    pub fn displacement_object(self) -> (r: (i8, i8))
        ensures
            (r.0 as int, r.1 as int) == object_displacement(self.idx() as int),
            -4 <= r.0 <= 4,
            -4 <= r.1 <= 4,
    {
        let i = self.index();
        let s = i / 16;
        let (e, n): (i8, i8) = match i % 4 {
            0 => (0, (s + 1) as i8),
            1 => if s == 0 { (0, 1) } else if s == 1 { (1, 2) } else if s == 2 { (1, 3) } else { (2, 4) },
            2 => if s == 0 { (1, 1) } else if s == 1 { (1, 1) } else if s == 2 { (2, 2) } else { (3, 3) },
            _ => if s == 0 { (1, 0) } else if s == 1 { (2, 1) } else if s == 2 { (3, 1) } else { (4, 2) },
        };
        let r = orient(e, n, (i % 16) / 4);
        proof {
            lemma_rotate_bounds((e as int, -(n as int)), ((i % 16) / 4) as nat, 4);
        }
        r
    }

    pub fn displacement_bullet(self) -> (r: (i8, i8))
        ensures
            (r.0 as int, r.1 as int) == bullet_displacement(self.idx() as int),
            -8 <= r.0 <= 8,
            -8 <= r.1 <= 8,
    {
        let i = self.index();
        let s = i / 16;
        let (e, n): (i8, i8) = match i % 4 {
            0 => (0, (2 * (s + 1)) as i8),
            1 => if s == 0 { (1, 2) } else if s == 1 { (2, 4) } else if s == 2 { (2, 6) } else { (3, 7) },
            2 => if s == 0 { (1, 1) } else if s == 1 { (3, 3) } else if s == 2 { (4, 4) } else { (6, 6) },
            _ => if s == 0 { (2, 1) } else if s == 1 { (4, 2) } else if s == 2 { (6, 2) } else { (7, 3) },
        };
        let r = orient(e, n, (i % 16) / 4);
        proof {
            lemma_rotate_bounds((e as int, -(n as int)), ((i % 16) / 4) as nat, 8);
        }
        r
    }

    /// The slowest direction whose angle points best from `src` toward `dst`:
    /// the first of the sixteen angles with the largest [`aim_score`].
    pub fn aim(src: (u8, u8), dst: (u8, u8)) -> (r: Self)
        ensures
            r.idx() < 16,
            forall|k: int|
                0 <= k < 16 ==> #[trigger] aim_score(dst.0 - src.0, dst.1 - src.1, k) <= aim_score(
                    dst.0 - src.0,
                    dst.1 - src.1,
                    r.idx() as int,
                ),
            forall|k: int|
                0 <= k < r.idx() ==> #[trigger] aim_score(dst.0 - src.0, dst.1 - src.1, k) < aim_score(
                    dst.0 - src.0,
                    dst.1 - src.1,
                    r.idx() as int,
                ),
    {
        let dx: i32 = dst.0 as i32 - src.0 as i32;
        let dy: i32 = dst.1 as i32 - src.1 as i32;
        let mut best: u8 = 0;
        assert(-255 <= dx <= 255 && -255 <= dy <= 255);
        let mut best_score: i32 = 0 - dy * 16;
        let mut k: u8 = 1;
        assert(unit16(0) == (0int, -16int)) by {
            assert(rotate((sine16(0), -sine16(4)), 0) == (sine16(0), -sine16(4)));
        }
        assert(best_score == aim_score(dx as int, dy as int, 0));
        while k < 16
            invariant
                1 <= k <= 16,
                best < k,
                -255 <= dx <= 255,
                -255 <= dy <= 255,
                best_score == aim_score(dx as int, dy as int, best as int),
                forall|j: int| 0 <= j < k ==> #[trigger] aim_score(dx as int, dy as int, j) <= best_score,
                forall|j: int| 0 <= j < best ==> #[trigger] aim_score(dx as int, dy as int, j) < best_score,
            decreases 16 - k,
        {
            let u = unit(k);
            proof {
                assert(-16 <= u.0 <= 16 && -16 <= u.1 <= 16);
                assert(-255 * 16 <= dx * u.0 <= 255 * 16) by (nonlinear_arith)
                    requires -255 <= dx <= 255, -16 <= u.0 <= 16;
                assert(-255 * 16 <= dy * u.1 <= 255 * 16) by (nonlinear_arith)
                    requires -255 <= dy <= 255, -16 <= u.1 <= 16;
            }
            let score = dx * (u.0 as i32) + dy * (u.1 as i32);
            if score > best_score {
                best = k;
                best_score = score;
            }
            k = k + 1;
        }
        Direction(best)
    }
}

/// The unit vector (scaled by sixteen) of angle `k`.
fn unit(k: u8) -> (r: (i8, i8))
    requires
        k < 16,
    ensures
        (r.0 as int, r.1 as int) == unit16(k as int),
        -16 <= r.0 <= 16,
        -16 <= r.1 <= 16,
{
    let j = k % 4;
    let s: i8 = if j == 0 { 0 } else if j == 1 { 6 } else if j == 2 { 11 } else { 15 };
    let c: i8 = if j == 0 { 16 } else if j == 1 { 15 } else if j == 2 { 11 } else { 6 };
    let r = orient(s, c, k / 4);
    proof {
        lemma_rotate_bounds((s as int, -(c as int)), (k / 4) as nat, 16);
    }
    r
}

/// Rotation keeps both components within the same bound.
proof fn lemma_rotate_bounds(v: (int, int), q: nat, b: int)
    requires
        -b <= v.0 <= b,
        -b <= v.1 <= b,
    ensures
        -b <= rotate(v, q).0 <= b,
        -b <= rotate(v, q).1 <= b,
    decreases q,
{
    if q > 0 {
        lemma_rotate_bounds(v, (q - 1) as nat, b);
    }
}

} // verus!
