use vstd::prelude::*;
use vstd::arithmetic::div_mod::{
    lemma_fundamental_div_mod, lemma_fundamental_div_mod_converse,
    lemma_mod_division_less_than_divisor, lemma_mod_multiples_vanish, lemma_small_mod,
};

verus! {

/// The monochrome bitmap: 64 columns by 32 rows of on/off pixels,
/// row-major, pixel (px, py) stored at flat index py * 64 + px.
/// Sprite draws wrap around both edges.
pub struct Display {
    pub pixels: Vec<bool>,
}

/// Sprite bit at column `c` (0..8, counted from the most-significant
/// bit) of the row byte `b`.
pub open spec fn sprite_bit(b: u8, c: int) -> bool {
    ((b >> ((7 - c) as u8)) & 1) == 1
}

/// Flat index of the pixel hit by sprite cell (r, c) drawn at (x, y);
/// both coordinates wrap.
pub open spec fn target(x: int, y: int, r: int, c: int) -> int {
    ((y + r) % 32) * 64 + ((x + c) % 64)
}

/// The sprite row that hits the pixel row of flat index `t` for a draw
/// at vertical position `y` (inverts the wrap in `target`).
pub open spec fn hit_row(y: int, t: int) -> int {
    (t / 64 - y) % 32
}

/// The sprite column that hits the pixel column of flat index `t` for
/// a draw at horizontal position `x`.
pub open spec fn hit_col(x: int, t: int) -> int {
    (t % 64 - x) % 64
}

/// Value of the pixel at flat index `t` after drawing `sprite` at
/// (x, y) over `p`: if some sprite cell hits `t`, the pixel is XOR-ed
/// with that cell's bit, otherwise it is unchanged. A sprite of at
/// most 32 rows hits each pixel at most once, so this is exact.
pub open spec fn draw_pixel(p: Seq<bool>, x: int, y: int, sprite: Seq<u8>, t: int) -> bool {
    let r = hit_row(y, t);
    let c = hit_col(x, t);
    if r < sprite.len() && c < 8 {
        p[t] != sprite_bit(sprite[r], c)
    } else {
        p[t]
    }
}

/// The whole bitmap after drawing `sprite` at (x, y) over `p`.
pub open spec fn draw_result(p: Seq<bool>, x: int, y: int, sprite: Seq<u8>) -> Seq<bool> {
    Seq::new(2048, |t: int| draw_pixel(p, x, y, sprite, t))
}

/// Whether drawing `sprite` at (x, y) over `p` turns some pixel from
/// on to off, that is, some set sprite bit lands on a lit pixel.
pub open spec fn draw_collision(p: Seq<bool>, x: int, y: int, sprite: Seq<u8>) -> bool {
    exists|r: int, c: int|
        0 <= r < sprite.len() && 0 <= c < 8 && #[trigger] sprite_bit(sprite[r], c)
            && p[target(x, y, r, c)]
}

/// `draw_pixel` restricted to the sprite cells before row `r`, plus
/// the cells of row `r` before column `c`: the state of the bitmap
/// midway through a draw.
spec fn drawn_up_to(
    p: Seq<bool>, x: int, y: int, sprite: Seq<u8>, r: int, c: int, t: int,
) -> bool {
    let tr = hit_row(y, t);
    let tc = hit_col(x, t);
    if tr < sprite.len() && tc < 8 && (tr < r || (tr == r && tc < c)) {
        p[t] != sprite_bit(sprite[tr], tc)
    } else {
        p[t]
    }
}

/// `draw_collision` restricted to the sprite cells before (r, c).
spec fn collision_up_to(p: Seq<bool>, x: int, y: int, sprite: Seq<u8>, r: int, c: int) -> bool {
    exists|r2: int, c2: int|
        0 <= r2 < sprite.len() && 0 <= c2 < 8 && (r2 < r || (r2 == r && c2 < c))
            && #[trigger] sprite_bit(sprite[r2], c2) && p[target(x, y, r2, c2)]
}

/// Adding a multiple of `m` before taking the remainder changes
/// nothing: reduces the left summand of a wrapped addition.
proof fn lemma_mod_shift_add(a: int, b: int, m: int)
    requires
        0 < m,
    ensures
        (a % m + b) % m == (a + b) % m,
{
    let q = a / m;
    lemma_fundamental_div_mod(a, m);
    assert(m * (-q) == -(m * q)) by (nonlinear_arith);
    lemma_mod_multiples_vanish(-q, a + b, m);
    assert(m * (-q) + (a + b) == a % m + b);
}

/// Wrapping an offset `r < m` onto `y` and removing `y` again gives
/// back `r`.
proof fn lemma_wrap_inverse(y: int, r: int, m: int)
    requires
        0 < m,
        0 <= r < m,
    ensures
        ((y + r) % m - y) % m == r,
{
    let q = (y + r) / m;
    lemma_fundamental_div_mod(y + r, m);
    assert(m * (-q) == -(m * q)) by (nonlinear_arith);
    lemma_mod_multiples_vanish(-q, r, m);
    assert(m * (-q) + r == (y + r) % m - y);
    lemma_small_mod(r as nat, m as nat);
}

/// Removing `y` from a position `p < m` and wrapping it back onto `y`
/// gives back `p`.
proof fn lemma_wrap_forward(y: int, p: int, m: int)
    requires
        0 < m,
        0 <= p < m,
    ensures
        (y + (p - y) % m) % m == p,
{
    let q = (p - y) / m;
    lemma_fundamental_div_mod(p - y, m);
    assert(m * (-q) == -(m * q)) by (nonlinear_arith);
    lemma_mod_multiples_vanish(-q, p, m);
    assert(m * (-q) + p == y + (p - y) % m);
    lemma_small_mod(p as nat, m as nat);
}

/// A target index is a valid flat index, and its row and column parts
/// are the wrapped coordinates.
proof fn lemma_target_bounds(x: int, y: int, r: int, c: int)
    ensures
        0 <= target(x, y, r, c) < 2048,
        target(x, y, r, c) / 64 == (y + r) % 32,
        target(x, y, r, c) % 64 == (x + c) % 64,
{
    lemma_mod_division_less_than_divisor(y + r, 32);
    lemma_mod_division_less_than_divisor(x + c, 64);
    lemma_fundamental_div_mod_converse(target(x, y, r, c), 64, (y + r) % 32, (x + c) % 64);
}

/// The sprite cell recovered from a flat index hits exactly that index.
proof fn lemma_hit_roundtrip(x: int, y: int, t: int)
    requires
        0 <= t < 2048,
    ensures
        0 <= hit_row(y, t) < 32,
        0 <= hit_col(x, t) < 64,
        target(x, y, hit_row(y, t), hit_col(x, t)) == t,
{
    lemma_fundamental_div_mod(t, 64);
    lemma_mod_division_less_than_divisor(t, 64);
    lemma_mod_division_less_than_divisor(t / 64 - y, 32);
    lemma_mod_division_less_than_divisor(t % 64 - x, 64);
    lemma_wrap_forward(y, t / 64, 32);
    lemma_wrap_forward(x, t % 64, 64);
}

/// Recovering the sprite cell from a target index gives back the cell
/// that was drawn: each cell hits its own pixel and no other.
proof fn lemma_target_inverse(x: int, y: int, r: int, c: int)
    requires
        0 <= r < 32,
        0 <= c < 8,
    ensures
        hit_row(y, target(x, y, r, c)) == r,
        hit_col(x, target(x, y, r, c)) == c,
{
    lemma_target_bounds(x, y, r, c);
    lemma_wrap_inverse(y, r, 32);
    lemma_wrap_inverse(x, c, 64);
}

/// Drawing the same sprite at the same coordinates twice in
/// succession toggles every touched pixel back, restoring the
/// original bitmap; and the second draw reports a collision exactly
/// when some set sprite bit fell on a pixel that was dark before the
/// first draw (the first draw lit it, so the second turns it off).
pub proof fn lemma_draw_twice(p: Seq<bool>, x: int, y: int, sprite: Seq<u8>)
    requires
        p.len() == 2048,
        sprite.len() <= 32,
    ensures
        draw_result(draw_result(p, x, y, sprite), x, y, sprite) == p,
        draw_collision(draw_result(p, x, y, sprite), x, y, sprite) == (exists|r: int, c: int|
            0 <= r < sprite.len() && 0 <= c < 8 && #[trigger] sprite_bit(sprite[r], c)
                && !p[target(x, y, r, c)]),
{
    let d1 = draw_result(p, x, y, sprite);
    assert forall|t: int| 0 <= t < 2048 implies draw_result(d1, x, y, sprite)[t] == p[t] by {}
    assert(draw_result(d1, x, y, sprite) =~= p);
    assert forall|r: int, c: int|
        0 <= r < sprite.len() && 0 <= c < 8 && #[trigger] sprite_bit(sprite[r], c) implies d1[
        target(x, y, r, c)] == !p[target(x, y, r, c)] by {
        lemma_target_bounds(x, y, r, c);
        lemma_target_inverse(x, y, r, c);
    }
}

impl Display {
    /// Well-formed: one flag per pixel of the 64 x 32 grid.
    pub open spec fn wf(&self) -> bool {
        self.pixels@.len() == 2048
    }

    /// A display with every pixel off.
    pub fn new() -> (d: Display)
        ensures
            d.wf(),
            forall|t: int| 0 <= t < 2048 ==> !d.pixels@[t],
    {
        Display { pixels: crate::filled_vec(false, 2048) }
    }

    /// Clears the screen: every pixel off.
    pub fn cls(&mut self)
        requires
            old(self).wf(),
        ensures
            final(self).wf(),
            forall|t: int| 0 <= t < 2048 ==> !final(self).pixels@[t],
    {
        self.pixels = crate::filled_vec(false, 2048);
    }

    /// Draws `sprite` at pixel coordinates (x, y), wrapping both
    /// coordinates, by XOR-ing each sprite bit into the bitmap.
    /// Returns true exactly when some pixel went from on to off.
    /// Sprites are at most 32 rows tall (the draw opcode supplies at
    /// most 15), so no pixel is visited twice within one call.
    #[verifier::loop_isolation(false)]
    pub fn draw(&mut self, x: usize, y: usize, sprite: &Vec<u8>) -> (collision: bool)
        requires
            old(self).wf(),
            sprite@.len() <= 32,
        ensures
            final(self).wf(),
            final(self).pixels@ == draw_result(old(self).pixels@, x as int, y as int, sprite@),
            collision == draw_collision(old(self).pixels@, x as int, y as int, sprite@),
    {
        let ghost orig = self.pixels@;
        let ghost xi = x as int;
        let ghost yi = y as int;
        let n = sprite.len();
        let mut collision = false;
        let mut r: usize = 0;
        while r < n
            invariant
                self.pixels@.len() == 2048,
                r <= n,
                forall|t: int|
                    0 <= t < 2048 ==> self.pixels@[t] == drawn_up_to(
                        orig, xi, yi, sprite@, r as int, 0, t,
                    ),
                collision == collision_up_to(orig, xi, yi, sprite@, r as int, 0),
            decreases n - r,
        {
            let byte = sprite[r];
            let mut c: usize = 0;
            while c < 8
                invariant
                    self.pixels@.len() == 2048,
                    c <= 8,
                    forall|t: int|
                        0 <= t < 2048 ==> self.pixels@[t] == drawn_up_to(
                            orig, xi, yi, sprite@, r as int, c as int, t,
                        ),
                    collision == collision_up_to(orig, xi, yi, sprite@, r as int, c as int),
                decreases 8 - c,
            {
                let tx = (x % 64 + c) % 64;
                let ty = (y % 32 + r) % 32;
                let t = ty * 64 + tx;
                proof {
                    lemma_mod_shift_add(xi, c as int, 64);
                    lemma_mod_shift_add(yi, r as int, 32);
                    lemma_target_bounds(xi, yi, r as int, c as int);
                    lemma_target_inverse(xi, yi, r as int, c as int);
                    assert(t == target(xi, yi, r as int, c as int));
                }
                let sh = (7 - c) as u8;
                let bit = ((byte >> sh) & 1) == 1;
                proof {
                    assert(bit == sprite_bit(sprite@[r as int], c as int));
                }
                let prev = self.pixels[t];
                if bit && prev {
                    collision = true;
                }
                self.pixels[t] = prev != bit;
                proof {
                    assert forall|t2: int| 0 <= t2 < 2048 implies self.pixels@[t2]
                        == drawn_up_to(orig, xi, yi, sprite@, r as int, c as int + 1, t2) by {
                        lemma_hit_roundtrip(xi, yi, t2);
                    }
                    assert(collision == collision_up_to(
                        orig, xi, yi, sprite@, r as int, c as int + 1,
                    ));
                }
                c = c + 1;
            }
            proof {
                assert forall|t2: int| 0 <= t2 < 2048 implies self.pixels@[t2]
                    == drawn_up_to(orig, xi, yi, sprite@, r as int + 1, 0, t2) by {
                }
                assert(collision == collision_up_to(orig, xi, yi, sprite@, r as int + 1, 0));
            }
            r = r + 1;
        }
        proof {
            assert(self.pixels@ =~= draw_result(orig, xi, yi, sprite@));
            assert(collision == draw_collision(orig, xi, yi, sprite@));
        }
        collision
    }
}

} // verus!
