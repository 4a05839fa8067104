//! The icon of the program: a gold diamond on a dark tile with round corners.
use vstd::prelude::*;

verus! {

/// `v` held between the insets of a tile, in parts of which 32 make a pixel.
pub open spec fn inset(v: int, size: int) -> int {
    if v < 5 * size {
        5 * size
    } else if v > 27 * size {
        27 * size
    } else {
        v
    }
}

/// The square of the distance of a pixel's middle from the inset tile, in parts
/// of which 32 make a pixel.
pub open spec fn corner_distance(size: int, x: int, y: int) -> int {
    let (fx, fy) = (32 * x + 16, 32 * y + 16);
    let (dx, dy) = (fx - inset(fx, size), fy - inset(fy, size));
    dx * dx + dy * dy
}

/// Whether a pixel lies on the tile: its middle is no further from the inset
/// tile than the radius of the corners, five parts in 32 of the size.
pub open spec fn on_tile(size: int, x: int, y: int) -> bool {
    corner_distance(size, x, y) <= (5 * size) * (5 * size)
}

pub open spec fn gap(a: int, b: int) -> int {
    if a < b {
        b - a
    } else {
        a - b
    }
}

/// Whether a pixel lies on the diamond: its middle is no further from the
/// center, across and down together, than 41 parts in 128 of the size.
pub open spec fn on_diamond(size: int, x: int, y: int) -> bool {
    gap(128 * x + 64, 64 * size) + gap(128 * y + 64, 64 * size) <= 41 * size
}

/// The red, green, blue and alpha of a pixel.
pub open spec fn pixel(size: int, x: int, y: int) -> Seq<u8> {
    if !on_tile(size, x, y) {
        seq![0u8, 0u8, 0u8, 0u8]
    } else if on_diamond(size, x, y) {
        seq![0xE7u8, 0xB1u8, 0x3Bu8, 255u8]
    } else {
        seq![0x16u8, 0x13u8, 0x20u8, 255u8]
    }
}

fn inset_of(v: u128, size: u128) -> (r: u128)
    requires
        size <= 0xffff_ffff,
    ensures
        r == inset(v as int, size as int),
{
    if v < 5 * size {
        5 * size
    } else if v > 27 * size {
        27 * size
    } else {
        v
    }
}

fn gap_of(a: u128, b: u128) -> (r: u128)
    ensures
        r == gap(a as int, b as int),
{
    if a < b {
        b - a
    } else {
        a - b
    }
}

proof fn lemma_square_of_gap(a: int, b: int)
    ensures
        gap(a, b) * gap(a, b) == (a - b) * (a - b),
{
    assert((b - a) * (b - a) == (a - b) * (a - b)) by (nonlinear_arith);
}

fn tile_has(size: u128, x: u128, y: u128) -> (r: bool)
    requires
        size <= 0xffff_ffff,
        x < size,
        y < size,
    ensures
        r == on_tile(size as int, x as int, y as int),
{
    let fx: u128 = 32 * x + 16;
    let fy: u128 = 32 * y + 16;
    let dx: u128 = gap_of(fx, inset_of(fx, size));
    let dy: u128 = gap_of(fy, inset_of(fy, size));
    let radius: u128 = 5 * size;
    proof {
        lemma_square_of_gap(fx as int, inset(fx as int, size as int));
        lemma_square_of_gap(fy as int, inset(fy as int, size as int));
    }
    assert(dx <= 0x1f_ffff_ffff && dy <= 0x1f_ffff_ffff && radius <= 0x1f_ffff_ffff);
    assert(dx * dx <= 0x1f_ffff_ffff * 0x1f_ffff_ffff) by (nonlinear_arith)
        requires
            dx <= 0x1f_ffff_ffff,
    ;
    assert(dy * dy <= 0x1f_ffff_ffff * 0x1f_ffff_ffff) by (nonlinear_arith)
        requires
            dy <= 0x1f_ffff_ffff,
    ;
    assert(radius * radius <= 0x1f_ffff_ffff * 0x1f_ffff_ffff) by (nonlinear_arith)
        requires
            radius <= 0x1f_ffff_ffff,
    ;
    dx * dx + dy * dy <= radius * radius
}

fn diamond_has(size: u128, x: u128, y: u128) -> (r: bool)
    requires
        size <= 0xffff_ffff,
        x < size,
        y < size,
    ensures
        r == on_diamond(size as int, x as int, y as int),
{
    gap_of(128 * x + 64, 64 * size) + gap_of(128 * y + 64, 64 * size) <= 41 * size
}

/// The pixels of the rows before `y`, row by row, and in row `y` of those
/// before `x`.
pub open spec fn pixels_before(size: int, y: int, x: int) -> Seq<u8>
    decreases y, x,
{
    if x > 0 {
        pixels_before(size, y, x - 1) + pixel(size, x - 1, y)
    } else if y > 0 && size > 0 {
        pixels_before(size, y - 1, size)
    } else {
        seq![]
    }
}

/// The icon at `size` by `size` pixels, four bytes to a pixel.
pub fn diamond_rgba(size: usize) -> (rgba: Vec<u8>)
    requires
        size <= 0xffff_ffff,
    ensures
        rgba@ == pixels_before(size as int, size as int, 0),
{
    let mut rgba: Vec<u8> = Vec::new();
    let mut y: usize = 0;
    while y < size
        invariant
            y <= size,
            size <= 0xffff_ffff,
            rgba@ == pixels_before(size as int, y as int, 0),
        decreases size - y,
    {
        let mut x: usize = 0;
        while x < size
            invariant
                x <= size,
                y < size,
                size <= 0xffff_ffff,
                rgba@ == pixels_before(size as int, y as int, x as int),
            decreases size - x,
        {
            let ghost before = rgba@;
            if !tile_has(size as u128, x as u128, y as u128) {
                rgba.push(0);
                rgba.push(0);
                rgba.push(0);
                rgba.push(0);
            } else if diamond_has(size as u128, x as u128, y as u128) {
                rgba.push(0xE7);
                rgba.push(0xB1);
                rgba.push(0x3B);
                rgba.push(255);
            } else {
                rgba.push(0x16);
                rgba.push(0x13);
                rgba.push(0x20);
                rgba.push(255);
            }
            assert(rgba@ =~= before + pixel(size as int, x as int, y as int));
            x += 1;
        }
        y += 1;
    }
    rgba
}

proof fn lemma_pixel_count(size: int, y: int, x: int)
    requires
        0 <= x <= size,
        0 <= y,
    ensures
        pixels_before(size, y, x).len() == 4 * (y * size + x),
    decreases y, x,
{
    if x > 0 {
        lemma_pixel_count(size, y, x - 1);
        assert(4 * (y * size + x) == 4 * (y * size + (x - 1)) + 4) by (nonlinear_arith);
    } else if y > 0 && size > 0 {
        lemma_pixel_count(size, y - 1, size);
        assert((y - 1) * size + size == y * size) by (nonlinear_arith);
    } else {
        assert(y * size + x == 0) by (nonlinear_arith)
            requires
                x == 0,
                y == 0 || size == 0,
        ;
    }
}

/// An icon has four bytes for each of its pixels.
pub proof fn icon_has_four_bytes_to_a_pixel(size: int)
    requires
        0 <= size,
    ensures
        pixels_before(size, size, 0).len() == 4 * size * size,
{
    lemma_pixel_count(size, size, 0);
    assert(4 * (size * size + 0) == 4 * size * size) by (nonlinear_arith);
}

/// The icon is the same from the left and from the right, from above and from
/// below.
pub proof fn icon_is_symmetric(size: int, x: int, y: int)
    requires
        0 <= x < size,
        0 <= y < size,
    ensures
        pixel(size, size - 1 - x, y) == pixel(size, x, y),
        pixel(size, x, size - 1 - y) == pixel(size, x, y),
{
    let f = |v: int| 32 * v + 16;
    let (ax, bx) = (f(x), f(size - 1 - x));
    let (ay, by) = (f(y), f(size - 1 - y));
    assert(bx - inset(bx, size) == -(ax - inset(ax, size)));
    assert(by - inset(by, size) == -(ay - inset(ay, size)));
    let (dx, ex) = (ax - inset(ax, size), bx - inset(bx, size));
    let (dy, ey) = (ay - inset(ay, size), by - inset(by, size));
    assert(dx * dx == ex * ex) by (nonlinear_arith)
        requires
            ex == -dx,
    ;
    assert(dy * dy == ey * ey) by (nonlinear_arith)
        requires
            ey == -dy,
    ;
}

proof fn lemma_pixel_at(size: int, y: int, x: int, v: int, u: int)
    requires
        0 < size,
        0 <= y <= size,
        0 <= x <= size,
        0 <= u < size,
        0 <= v,
        v < y || (v == y && u < x),
    ensures
        0 <= 4 * (v * size + u),
        4 * (v * size + u) + 4 <= pixels_before(size, y, x).len(),
        pixels_before(size, y, x).subrange(4 * (v * size + u), 4 * (v * size + u) + 4) == pixel(
            size,
            u,
            v,
        ),
    decreases y, x,
{
    let at = 4 * (v * size + u);
    assert(0 <= v * size) by (nonlinear_arith)
        requires
            0 <= v,
            0 < size,
    ;
    lemma_pixel_count(size, y, x);
    if x > 0 {
        lemma_pixel_count(size, y, x - 1);
        let before = pixels_before(size, y, x - 1);
        let all = pixels_before(size, y, x);
        if v == y && u == x - 1 {
            assert(all.subrange(at, at + 4) =~= pixel(size, u, v));
        } else {
            lemma_pixel_at(size, y, x - 1, v, u);
            assert(all.subrange(at, at + 4) =~= before.subrange(at, at + 4));
        }
    } else {
        lemma_pixel_at(size, y - 1, size, v, u);
    }
}

/// The icon holds its pixels row by row, from the top, and in each row from the
/// left.
pub proof fn icon_holds_its_pixels_in_order(size: int, x: int, y: int)
    requires
        0 <= x < size,
        0 <= y < size,
    ensures
        pixels_before(size, size, 0).subrange(4 * (y * size + x), 4 * (y * size + x) + 4) == pixel(
            size,
            x,
            y,
        ),
{
    lemma_pixel_at(size, size, 0, y, x);
}

/// A pixel is clear, or gold, or dark; a pixel that is not clear is whole.
pub proof fn pixels_have_three_colors(size: int, x: int, y: int)
    ensures
        pixel(size, x, y).len() == 4,
        pixel(size, x, y)[3] == 0 || pixel(size, x, y)[3] == 255,
        pixel(size, x, y)[3] == 0 <==> !on_tile(size, x, y),
        pixel(size, x, y)[3] == 0 ==> pixel(size, x, y) == seq![0u8, 0u8, 0u8, 0u8],
{
}

/// Away from its corners the tile reaches to the edges of the icon; from a size
/// of eleven pixels on its corners are clear.
pub proof fn tiles_have_round_corners(size: int, x: int, y: int)
    requires
        0 <= x < size,
        0 <= y < size,
    ensures
        5 * size <= 32 * x + 16 <= 27 * size ==> on_tile(size, x, y),
        5 * size <= 32 * y + 16 <= 27 * size ==> on_tile(size, x, y),
        size >= 11 ==> !on_tile(size, 0, 0),
{
    let (fx, fy) = (32 * x + 16, 32 * y + 16);
    let (dx, dy) = (fx - inset(fx, size), fy - inset(fy, size));
    let r = 5 * size;
    assert(-r <= dx <= r && -r <= dy <= r);
    assert(dx * dx <= r * r) by (nonlinear_arith)
        requires
            -r <= dx <= r,
    ;
    assert(dy * dy <= r * r) by (nonlinear_arith)
        requires
            -r <= dy <= r,
    ;
    assert(dx == 0 ==> dx * dx == 0) by (nonlinear_arith);
    assert(dy == 0 ==> dy * dy == 0) by (nonlinear_arith);
    assert(corner_distance(size, x, y) == dx * dx + dy * dy);
    if size >= 11 {
        let c = 16 - r;
        assert(inset(16, size) == r);
        assert(c * c + c * c > r * r) by (nonlinear_arith)
            requires
                c == 16 - r,
                r >= 55,
        ;
    }
}

/// The diamond has its middle in the middle of the icon: a pixel that lies
/// nearer to it, across and down, than one on the diamond lies on it too.
pub proof fn diamonds_are_whole(size: int, x: int, y: int, u: int, v: int)
    requires
        on_diamond(size, x, y),
        gap(2 * u + 1, size) <= gap(2 * x + 1, size),
        gap(2 * v + 1, size) <= gap(2 * y + 1, size),
    ensures
        on_diamond(size, u, v),
{
}

} // verus!
