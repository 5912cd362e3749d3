//! Tile numbers: the zoom levels one after the other, each along a Hilbert curve.
use vstd::arithmetic::power2::{
    lemma2_to64, lemma_pow2_pos, lemma_pow2_strictly_increases, lemma_pow2_unfold, pow2,
};
use vstd::bits::lemma_u64_shl_is_mul;
use vstd::prelude::*;

use crate::error::{invalid_input, refused, Error};

verus! {

/// Position of a quadrant along the curve: down the left column, then up the right one.
pub open spec fn quadrant(right: bool, lower: bool) -> nat {
    if right {
        if lower {
            2
        } else {
            3
        }
    } else if lower {
        1
    } else {
        0
    }
}

/// Turns coordinates inside an upper quadrant of side `s` so that the curve enters it in place.
pub open spec fn turned(s: nat, x: nat, y: nat, right: bool, lower: bool) -> (nat, nat) {
    if lower {
        (x, y)
    } else if right {
        ((s - 1 - y) as nat, (s - 1 - x) as nat)
    } else {
        (y, x)
    }
}

/// Position of the cell `(x, y)` along the Hilbert curve over a grid of `2^z` by `2^z` cells.
pub open spec fn hilbert(z: nat, x: nat, y: nat) -> nat
    decreases z,
{
    if z == 0 {
        0
    } else {
        let s = pow2((z - 1) as nat);
        let (right, lower) = (x >= s, y >= s);
        let (tx, ty) = turned(s, wrap(x, s), wrap(y, s), right, lower);
        quadrant(right, lower) * (s * s) + hilbert((z - 1) as nat, tx, ty)
    }
}

/// The coordinate inside its half of the grid.
pub open spec fn wrap(v: nat, s: nat) -> nat {
    if v >= s {
        (v - s) as nat
    } else {
        v
    }
}

/// Number of tiles on all zoom levels below `z`.
pub open spec fn zoom_base(z: nat) -> nat
    decreases z,
{
    if z == 0 {
        0
    } else {
        zoom_base((z - 1) as nat) + pow2((z - 1) as nat) * pow2((z - 1) as nat)
    }
}

/// The number of the tile in column `x` and row `y` of zoom level `z`.
pub open spec fn tile_id(z: nat, x: nat, y: nat) -> nat {
    zoom_base(z) + hilbert(z, x, y)
}

proof fn lemma_square_of_double(h: nat, p: nat)
    requires
        p == 2 * h,
    ensures
        p * p == 4 * (h * h),
{
    assert(p * p == 4 * (h * h)) by (nonlinear_arith)
        requires
            p == 2 * h,
    ;
}

pub(crate) proof fn lemma_zoom_base(z: nat)
    ensures
        3 * zoom_base(z) + 1 == pow2(z) * pow2(z),
    decreases z,
{
    lemma2_to64();
    if z > 0 {
        lemma_zoom_base((z - 1) as nat);
        lemma_pow2_unfold(z);
        lemma_square_of_double(pow2((z - 1) as nat), pow2(z));
    } else {
        vstd::arithmetic::mul::lemma_mul_basics(pow2(z) as int);
    }
}

pub(crate) proof fn lemma_hilbert_bound(z: nat, x: nat, y: nat)
    requires
        x < pow2(z),
        y < pow2(z),
    ensures
        hilbert(z, x, y) < pow2(z) * pow2(z),
    decreases z,
{
    lemma2_to64();
    if z > 0 {
        lemma_pow2_unfold(z);
        let s = pow2((z - 1) as nat);
        let (right, lower) = (x >= s, y >= s);
        let (tx, ty) = turned(s, wrap(x, s), wrap(y, s), right, lower);
        lemma_hilbert_bound((z - 1) as nat, tx, ty);
        lemma_square_of_double(s, pow2(z));
        let q = quadrant(right, lower);
        assert(q * (s * s) <= 3 * (s * s)) by (nonlinear_arith)
            requires
                q <= 3,
        ;
    } else {
        vstd::arithmetic::mul::lemma_mul_basics(pow2(z) as int);
    }
}

fn rotate(n: u64, x: u64, y: u64, right: bool, lower: bool) -> (r: (u64, u64))
    requires
        x < n,
        y < n,
    ensures
        (r.0 as nat, r.1 as nat) == turned(n as nat, x as nat, y as nat, right, lower),
        r.0 < n,
        r.1 < n,
{
    let mut x = x;
    let mut y = y;
    if !lower {
        if right {
            x = n - 1 - x;
            y = n - 1 - y;
        }
        std::mem::swap(&mut x, &mut y);
    }
    (x, y)
}

proof fn lemma_shl_pow2(a: u64)
    requires
        a < 63,
    ensures
        1u64 << a == pow2(a as nat),
        pow2(a as nat) <= 0x4000_0000_0000_0000,
{
    lemma2_to64();
    vstd::arithmetic::power2::lemma2_to64_rest();
    if a < 62 {
        lemma_pow2_strictly_increases(a as nat, 62);
    }
    lemma_u64_shl_is_mul(1, a);
}

/// The number of a tile. Zoom levels above 31 are refused; columns and rows count modulo the
/// side of the zoom level.
pub fn zxy_to_tile_id(z: u8, x: u32, y: u32) -> (r: Result<u64, Error>)
    ensures
        z > 31 ==> refused(r, "PMTiles tile ids support zoom levels 0..31"@),
        z <= 31 ==> (r matches Ok(id) && id == tile_id(
            z as nat,
            (x as nat) % pow2(z as nat),
            (y as nat) % pow2(z as nat),
        )),
{
    if z > 31 {
        return Err(invalid_input("PMTiles tile ids support zoom levels 0..31"));
    }
    proof {
        lemma_shl_pow2(z as u64);
        lemma_shl_pow2((2 * z) as u64);
        lemma_pow2_pos(z as nat);
        vstd::arithmetic::power2::lemma_pow2_adds(z as nat, z as nat);
        lemma_zoom_base(z as nat);
    }
    let side: u64 = 1u64 << (z as u64);
    let mut x: u64 = x as u64 % side;
    let mut y: u64 = y as u64 % side;
    let mut acc: u64 = ((1u64 << (z as u64 * 2)) - 1) / 3;
    let ghost total = tile_id(z as nat, x as nat, y as nat);
    let mut level: u8 = z;
    proof {
        lemma_hilbert_bound(z as nat, x as nat, y as nat);
    }
    while level > 0
        invariant
            level <= z <= 31,
            x < pow2(level as nat),
            y < pow2(level as nat),
            acc + hilbert(level as nat, x as nat, y as nat) == total,
            total <= u64::MAX,
        decreases level,
    {
        level = level - 1;
        proof {
            lemma_shl_pow2(level as u64);
            lemma_pow2_unfold((level + 1) as nat);
        }
        let s: u64 = 1u64 << (level as u64);
        let right: bool = x >= s;
        let lower: bool = y >= s;
        if right {
            x = x - s;
        }
        if lower {
            y = y - s;
        }
        let q: u64 = if right {
            if lower {
                2
            } else {
                3
            }
        } else if lower {
            1
        } else {
            0
        };
        let ghost before = acc;
        let rotated = rotate(s, x, y, right, lower);
        proof {
            assert(q * (s * s) <= total);
            assert(s * s >= 0 && (q > 0 ==> s * s <= q * (s * s))) by (nonlinear_arith)
                requires
                    s >= 0,
                    q >= 0,
            ;
        }
        if q > 0 {
            acc = acc + q * (s * s);
        }
        x = rotated.0;
        y = rotated.1;
    }
    Ok(acc)
}

/// A tile that exists on its zoom level.
pub open spec fn on_grid(z: nat, x: nat, y: nat) -> bool {
    x < pow2(z) && y < pow2(z)
}

/// The cell at position `d` of the Hilbert curve over a grid of `2^z` by `2^z` cells.
pub open spec fn cell_at(z: nat, d: nat) -> (nat, nat)
    decreases z,
{
    if z == 0 {
        (0, 0)
    } else {
        let s = pow2((z - 1) as nat);
        let q = d / (s * s);
        let (right, lower) = (q >= 2, q == 1 || q == 2);
        let (cx, cy) = cell_at((z - 1) as nat, d % (s * s));
        let (x, y) = turned(s, cx, cy, right, lower);
        (
            if right {
                x + s
            } else {
                x
            },
            if lower {
                y + s
            } else {
                y
            },
        )
    }
}

proof fn lemma_split(q: nat, rest: nat, n: nat)
    requires
        rest < n,
    ensures
        (q * n + rest) / n == q,
        (q * n + rest) % n == rest,
{
    vstd::arithmetic::div_mod::lemma_fundamental_div_mod_converse(
        (q * n + rest) as int,
        n as int,
        q as int,
        rest as int,
    );
}

proof fn lemma_cell_of_hilbert(z: nat, x: nat, y: nat)
    requires
        on_grid(z, x, y),
    ensures
        cell_at(z, hilbert(z, x, y)) == (x, y),
    decreases z,
{
    lemma2_to64();
    if z > 0 {
        lemma_pow2_unfold(z);
        let s = pow2((z - 1) as nat);
        let (right, lower) = (x >= s, y >= s);
        let (tx, ty) = turned(s, wrap(x, s), wrap(y, s), right, lower);
        lemma_cell_of_hilbert((z - 1) as nat, tx, ty);
        lemma_hilbert_bound((z - 1) as nat, tx, ty);
        lemma_split(quadrant(right, lower), hilbert((z - 1) as nat, tx, ty), s * s);
    }
}

proof fn lemma_hilbert_of_cell(z: nat, d: nat)
    requires
        d < pow2(z) * pow2(z),
    ensures
        on_grid(z, cell_at(z, d).0, cell_at(z, d).1),
        hilbert(z, cell_at(z, d).0, cell_at(z, d).1) == d,
    decreases z,
{
    lemma2_to64();
    if z > 0 {
        lemma_pow2_unfold(z);
        lemma_pow2_pos((z - 1) as nat);
        let s = pow2((z - 1) as nat);
        let n = s * s;
        lemma_square_of_double(s, pow2(z));
        vstd::arithmetic::mul::lemma_mul_strictly_positive(s as int, s as int);
        vstd::arithmetic::div_mod::lemma_fundamental_div_mod(d as int, n as int);
        vstd::arithmetic::div_mod::lemma_mod_bound(d as int, n as int);
        let q = d / n;
        assert(q <= 3) by (nonlinear_arith)
            requires
                d < 4 * n,
                q == d / n,
                n > 0,
        ;
        lemma_hilbert_of_cell((z - 1) as nat, d % n);
        assert(n * q == q * n) by (nonlinear_arith);
    } else {
        vstd::arithmetic::mul::lemma_mul_basics(pow2(z) as int);
    }
}

proof fn lemma_zoom_base_grows(a: nat, b: nat)
    requires
        a <= b,
    ensures
        zoom_base(a) <= zoom_base(b),
    decreases b,
{
    if a < b {
        lemma_zoom_base_grows(a, (b - 1) as nat);
        assert(pow2((b - 1) as nat) * pow2((b - 1) as nat) >= 0) by (nonlinear_arith);
    }
}

/// The tiles of a zoom level take exactly the numbers from `zoom_base(z)` up to
/// `zoom_base(z + 1)`: every tile has one of them.
pub proof fn law_tile_id_in_zoom(z: nat, x: nat, y: nat)
    requires
        on_grid(z, x, y),
    ensures
        zoom_base(z) <= tile_id(z, x, y) < zoom_base(z + 1),
{
    lemma_hilbert_bound(z, x, y);
}

/// The tiles of a zoom level take exactly the numbers from `zoom_base(z)` up to
/// `zoom_base(z + 1)`: every number is that of a tile.
pub proof fn law_every_tile_id_is_taken(z: nat, id: nat)
    requires
        zoom_base(z) <= id < zoom_base(z + 1),
    ensures
        exists|x: nat, y: nat| on_grid(z, x, y) && #[trigger] tile_id(z, x, y) == id,
{
    let d = (id - zoom_base(z)) as nat;
    lemma_hilbert_of_cell(z, d);
    let (x, y) = cell_at(z, d);
    assert(tile_id(z, x, y) == id);
}

/// Tiles of a lower zoom level come before tiles of a higher one.
pub proof fn law_tile_ids_follow_zoom(z1: nat, x1: nat, y1: nat, z2: nat, x2: nat, y2: nat)
    requires
        on_grid(z1, x1, y1),
        on_grid(z2, x2, y2),
        z1 < z2,
    ensures
        tile_id(z1, x1, y1) < tile_id(z2, x2, y2),
{
    law_tile_id_in_zoom(z1, x1, y1);
    law_tile_id_in_zoom(z2, x2, y2);
    lemma_zoom_base_grows(z1 + 1, z2);
}

/// No two tiles share a number.
pub proof fn law_tile_ids_are_distinct(z1: nat, x1: nat, y1: nat, z2: nat, x2: nat, y2: nat)
    requires
        on_grid(z1, x1, y1),
        on_grid(z2, x2, y2),
        tile_id(z1, x1, y1) == tile_id(z2, x2, y2),
    ensures
        z1 == z2,
        x1 == x2,
        y1 == y2,
{
    if z1 < z2 {
        law_tile_ids_follow_zoom(z1, x1, y1, z2, x2, y2);
    } else if z2 < z1 {
        law_tile_ids_follow_zoom(z2, x2, y2, z1, x1, y1);
    } else {
        lemma_cell_of_hilbert(z1, x1, y1);
        lemma_cell_of_hilbert(z2, x2, y2);
    }
}

/// The curve starts in the upper left cell and ends in the upper right one.
proof fn lemma_curve_ends(z: nat)
    ensures
        cell_at(z, 0) == (0nat, 0nat),
        pow2(z) * pow2(z) >= 1,
        cell_at(z, (pow2(z) * pow2(z) - 1) as nat) == ((pow2(z) - 1) as nat, 0nat),
    decreases z,
{
    lemma2_to64();
    lemma_pow2_pos(z);
    vstd::arithmetic::mul::lemma_mul_strictly_positive(pow2(z) as int, pow2(z) as int);
    if z > 0 {
        lemma_pow2_unfold(z);
        lemma_pow2_pos((z - 1) as nat);
        let s = pow2((z - 1) as nat);
        lemma_curve_ends((z - 1) as nat);
        lemma_square_of_double(s, pow2(z));
        lemma_split(0, 0, s * s);
        lemma_split(3, (s * s - 1) as nat, s * s);
    } else {
        vstd::arithmetic::mul::lemma_mul_basics(pow2(z) as int);
    }
}

/// Two cells share an edge.
pub open spec fn adjacent(a: (nat, nat), b: (nat, nat)) -> bool {
    ||| a.0 == b.0 && (a.1 == b.1 + 1 || b.1 == a.1 + 1)
    ||| a.1 == b.1 && (a.0 == b.0 + 1 || b.0 == a.0 + 1)
}

proof fn lemma_curve_is_connected(z: nat, d: nat)
    requires
        d + 1 < pow2(z) * pow2(z),
    ensures
        adjacent(cell_at(z, d), cell_at(z, d + 1)),
    decreases z,
{
    lemma2_to64();
    if z > 0 {
        lemma_pow2_unfold(z);
        lemma_pow2_pos((z - 1) as nat);
        let s = pow2((z - 1) as nat);
        let n = s * s;
        lemma_square_of_double(s, pow2(z));
        lemma_curve_ends((z - 1) as nat);
        vstd::arithmetic::div_mod::lemma_fundamental_div_mod(d as int, n as int);
        vstd::arithmetic::div_mod::lemma_mod_bound(d as int, n as int);
        let q = d / n;
        let rest = d % n;
        assert(q <= 3) by (nonlinear_arith)
            requires
                d < 4 * n,
                q == d / n,
                n > 0,
        ;
        assert(n * q == q * n) by (nonlinear_arith);
        if rest + 1 < n {
            lemma_split(q, rest + 1, n);
            lemma_curve_is_connected((z - 1) as nat, rest);
            lemma_hilbert_of_cell((z - 1) as nat, rest);
            lemma_hilbert_of_cell((z - 1) as nat, rest + 1);
        } else {
            assert((q + 1) * n == q * n + n) by (nonlinear_arith);
            lemma_split(q + 1, 0, n);
        }
    } else {
        vstd::arithmetic::mul::lemma_mul_basics(pow2(z) as int);
    }
}

/// Tiles with consecutive numbers on one zoom level share an edge.
pub proof fn law_consecutive_tiles_are_neighbours(z: nat, x1: nat, y1: nat, x2: nat, y2: nat)
    requires
        on_grid(z, x1, y1),
        on_grid(z, x2, y2),
        tile_id(z, x2, y2) == tile_id(z, x1, y1) + 1,
    ensures
        adjacent((x1, y1), (x2, y2)),
{
    lemma_cell_of_hilbert(z, x1, y1);
    lemma_cell_of_hilbert(z, x2, y2);
    lemma_hilbert_bound(z, x2, y2);
    lemma_curve_is_connected(z, hilbert(z, x1, y1));
}

/// A quarter of the position of a cell is the position of the cell twice as large around it.
proof fn lemma_hilbert_nests(z: nat, x: nat, y: nat)
    requires
        z >= 1,
        on_grid(z, x, y),
    ensures
        on_grid((z - 1) as nat, x / 2, y / 2),
        hilbert(z, x, y) / 4 == hilbert((z - 1) as nat, x / 2, y / 2),
    decreases z,
{
    lemma2_to64();
    lemma_pow2_unfold(z);
    let s = pow2((z - 1) as nat);
    let (right, lower) = (x >= s, y >= s);
    let (tx, ty) = turned(s, wrap(x, s), wrap(y, s), right, lower);
    let q = quadrant(right, lower);
    if z == 1 {
        assert(s * s == 1) by (nonlinear_arith)
            requires
                s == 1,
        ;
        assert(q * (s * s) == q) by (nonlinear_arith)
            requires
                s * s == 1,
        ;
        assert(hilbert(0, tx, ty) == 0);
    } else {
        lemma_pow2_unfold((z - 1) as nat);
        let h = pow2((z - 2) as nat);
        lemma_square_of_double(h, s);
        lemma_hilbert_nests((z - 1) as nat, tx, ty);
        let (right2, lower2) = (x / 2 >= h, y / 2 >= h);
        assert(right2 == right && lower2 == lower);
        assert(turned(h, wrap(x / 2, h), wrap(y / 2, h), right, lower) == (tx / 2, ty / 2));
        assert(q * (s * s) == 4 * (q * (h * h))) by (nonlinear_arith)
            requires
                s * s == 4 * (h * h),
        ;
    }
}

/// The four tiles that a tile is cut into on the next zoom level have consecutive numbers, and
/// they come in the order of the tiles that they are cut from.
pub proof fn law_tile_ids_nest(z: nat, x: nat, y: nat)
    requires
        z >= 1,
        on_grid(z, x, y),
    ensures
        tile_id(z, x, y) >= 1,
        (tile_id(z, x, y) - 1) / 4 == tile_id((z - 1) as nat, x / 2, y / 2),
{
    lemma_zoom_base(z);
    lemma_zoom_base((z - 1) as nat);
    lemma_pow2_unfold(z);
    lemma_square_of_double(pow2((z - 1) as nat), pow2(z));
    lemma_hilbert_nests(z, x, y);
    assert(zoom_base(z) == 4 * zoom_base((z - 1) as nat) + 1);
}

/// The first tile of a zoom level is the upper left one and the last is the upper right one, and
/// the levels below `z` have `(4^z - 1) / 3` tiles.
pub proof fn law_zoom_levels_start_and_end(z: nat)
    ensures
        3 * tile_id(z, 0, 0) + 1 == pow2(z) * pow2(z),
        tile_id(z, (pow2(z) - 1) as nat, 0) + 1 == tile_id(z + 1, 0, 0),
        forall|x: nat, y: nat|
            on_grid(z, x, y) ==> tile_id(z, 0, 0) <= #[trigger] tile_id(z, x, y) <= tile_id(
                z,
                (pow2(z) - 1) as nat,
                0,
            ),
{
    lemma_pow2_pos(z);
    lemma_zoom_base(z);
    lemma_zoom_base(z + 1);
    lemma_curve_ends(z);
    lemma_curve_ends(z + 1);
    let last = (pow2(z) * pow2(z) - 1) as nat;
    vstd::arithmetic::mul::lemma_mul_strictly_positive(pow2(z + 1) as int, pow2(z + 1) as int);
    lemma_pow2_pos(z + 1);
    lemma_hilbert_of_cell(z, 0);
    lemma_hilbert_of_cell(z, last);
    lemma_hilbert_of_cell(z + 1, 0);
    assert forall|x: nat, y: nat| on_grid(z, x, y) implies tile_id(z, 0, 0) <= #[trigger] tile_id(
        z,
        x,
        y,
    ) <= tile_id(z, (pow2(z) - 1) as nat, 0) by {
        lemma_hilbert_bound(z, x, y);
    }
}

/// On each zoom level the tiles of the left half come before those of the right half; in the
/// left half the upper ones come first, and in the right half the lower ones.
pub proof fn law_left_half_comes_first(z: nat, x1: nat, y1: nat, x2: nat, y2: nat)
    requires
        z >= 1,
        on_grid(z, x1, y1),
        on_grid(z, x2, y2),
    ensures
        ({
            let half = pow2((z - 1) as nat);
            let (a, b) = (tile_id(z, x1, y1), tile_id(z, x2, y2));
            &&& x1 < half <= x2 ==> a < b
            &&& x1 < half && x2 < half && y1 < half <= y2 ==> a < b
            &&& half <= x1 && half <= x2 && y2 < half <= y1 ==> a < b
        }),
{
    lemma_pow2_unfold(z);
    let s = pow2((z - 1) as nat);
    let n = s * s;
    let (r1, l1, r2, l2) = (x1 >= s, y1 >= s, x2 >= s, y2 >= s);
    let (u1, v1) = turned(s, wrap(x1, s), wrap(y1, s), r1, l1);
    let (u2, v2) = turned(s, wrap(x2, s), wrap(y2, s), r2, l2);
    lemma_hilbert_bound((z - 1) as nat, u1, v1);
    lemma_hilbert_bound((z - 1) as nat, u2, v2);
    let (q1, q2) = (quadrant(r1, l1), quadrant(r2, l2));
    if q1 < q2 {
        assert(q1 * n + n <= q2 * n) by (nonlinear_arith)
            requires
                q1 + 1 <= q2,
                n >= 0,
        ;
    }
}

/// A zoom level has `2^z` columns and as many rows, counted from zero.
pub proof fn law_grid(z: nat, x: nat, y: nat)
    ensures
        on_grid(z, x, y) <==> x < pow2(z) && y < pow2(z),
{
}

} // verus!
