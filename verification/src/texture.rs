//! Planet textures: the palette, the random look of a new planet, and the
//! RGBA pixel buffer of a planet disc.
//!
//! Colours are held as the bytes they are written to the texture with. A
//! planet's two colours are named by their place in the palette, whose
//! colours are pairwise distinct, so two colours are the same exactly when
//! they sit at the same place. The
//! noise that chooses between a planet's two colours is computed outside the
//! library; it arrives here as one flag per pixel, set where the noise value
//! scaled to a byte is 0.

use vstd::prelude::*;
use rand::Rng;

verus! {

/// A colour as the three bytes written to a texture.
#[derive(PartialEq, Eq, Structural, Clone, Copy, Debug)]
pub struct Rgb8 {
    pub r: u8,
    pub g: u8,
    pub b: u8,
}

/// Number of colours in the planet palette.
pub const PALETTE_LEN: usize = 3;

/// The planet palette: green, blue and orange.
pub open spec fn palette(i: int) -> Rgb8 {
    if i == 0 {
        Rgb8 { r: 48, g: 160, b: 96 }
    } else if i == 1 {
        Rgb8 { r: 40, g: 73, b: 201 }
    } else {
        Rgb8 { r: 178, g: 104, b: 56 }
    }
}

/// The `i`-th colour of the palette.
pub fn palette_color(i: usize) -> (c: Rgb8)
    requires
        i < PALETTE_LEN,
    ensures
        c == palette(i as int),
        i == 0 ==> c == (Rgb8 { r: 48, g: 160, b: 96 }),
        i == 1 ==> c == (Rgb8 { r: 40, g: 73, b: 201 }),
        i == 2 ==> c == (Rgb8 { r: 178, g: 104, b: 56 }),
{
    if i == 0 {
        Rgb8 { r: 48, g: 160, b: 96 }
    } else if i == 1 {
        Rgb8 { r: 40, g: 73, b: 201 }
    } else {
        Rgb8 { r: 178, g: 104, b: 56 }
    }
}

/// `v` saturated to the range of a byte.
pub open spec fn clamp_byte(v: int) -> u8 {
    if v < 0 {
        0
    } else if v > 255 {
        255
    } else {
        v as u8
    }
}

/// A byte moved by `delta`, saturating at 0 and 255.
pub fn perturb_channel(c: u8, delta: i32) -> (r: u8)
    ensures
        r == clamp_byte(c + delta),
        c + delta < 0 ==> r == 0,
        c + delta > 255 ==> r == 255,
        0 <= c + delta <= 255 ==> r == c + delta,
{
    let v: i64 = c as i64 + delta as i64;
    if v < 0 {
        0
    } else if v > 255 {
        255
    } else {
        v as u8
    }
}

/// A colour with each channel moved by its own delta, saturating.
pub open spec fn perturbed(c: Rgb8, dr: int, dg: int, db: int) -> Rgb8 {
    Rgb8 { r: clamp_byte(c.r + dr), g: clamp_byte(c.g + dg), b: clamp_byte(c.b + db) }
}

/// Moves each channel of `c` by its delta, saturating at 0 and 255.
pub fn perturb_color(c: Rgb8, dr: i32, dg: i32, db: i32) -> (p: Rgb8)
    ensures
        p == perturbed(c, dr as int, dg as int, db as int),
{
    Rgb8 { r: perturb_channel(c.r, dr), g: perturb_channel(c.g, dg), b: perturb_channel(c.b, db) }
}

/// Largest distance, exclusive, by which a channel of a repeated colour is
/// moved.
pub const ACCENT_SHIFT: i32 = 25;

/// `result` is an admissible second colour for a planet whose colours are
/// palette entries `base` and `accent`: palette colour `accent` when the two
/// entries differ, and otherwise that colour with each channel moved by less
/// than `ACCENT_SHIFT`.
pub open spec fn accent_for(base: int, accent: int, result: Rgb8) -> bool {
    if base != accent {
        result == palette(accent)
    } else {
        exists|dr: int, dg: int, db: int|
            -ACCENT_SHIFT <= dr < ACCENT_SHIFT && -ACCENT_SHIFT <= dg < ACCENT_SHIFT
                && -ACCENT_SHIFT <= db < ACCENT_SHIFT && result == #[trigger] perturbed(
                palette(accent),
                dr,
                dg,
                db,
            )
    }
}

#[verifier::external_type_specification]
#[verifier::external_body]
pub struct ExThreadRng(rand::rngs::ThreadRng);

/// `rand::rng()`: a handle on the thread's random generator. Nothing is
/// promised of what it will produce.
#[verifier::external_body]
fn thread_rng() -> rand::rngs::ThreadRng {
    rand::rng()
}

/// `Rng::random_range` on the half-open range `lo..hi` of `i32`: a value in
/// the range. Which value comes out depends on chance and is not stated; the
/// range must not be empty, else the call panics.
#[verifier::external_body]
fn random_between(rng: &mut rand::rngs::ThreadRng, lo: i32, hi: i32) -> (v: i32)
    requires
        lo < hi,
    ensures
        lo <= v < hi,
{
    rng.random_range(lo..hi)
}

/// The second colour of a planet whose colours are palette entries `base`
/// and `accent`: when both name the same colour, it is moved channel by
/// channel by random amounts in `-ACCENT_SHIFT..ACCENT_SHIFT`; otherwise it
/// is kept.
pub fn contrast_accent(base: usize, accent: usize) -> (result: Rgb8)
    requires
        base < PALETTE_LEN,
        accent < PALETTE_LEN,
    ensures
        accent_for(base as int, accent as int, result),
{
    let color = palette_color(accent);
    if base == accent {
        let mut rng = thread_rng();
        let dr = random_between(&mut rng, -ACCENT_SHIFT, ACCENT_SHIFT);
        let dg = random_between(&mut rng, -ACCENT_SHIFT, ACCENT_SHIFT);
        let db = random_between(&mut rng, -ACCENT_SHIFT, ACCENT_SHIFT);
        let p = perturb_color(color, dr, dg, db);
        assert(perturbed(palette(accent as int), dr as int, dg as int, db as int) == p);
        p
    } else {
        color
    }
}

/// Bound, exclusive, of the noise seed of a new planet.
pub const SEED_RANGE: i32 = 1000;

/// The random look of a new planet.
#[derive(PartialEq, Eq, Structural, Clone, Copy, Debug)]
pub struct PlanetStyle {
    /// Palette entry of the colour where the noise is low.
    pub base: usize,
    /// Palette entry of the colour elsewhere on the disc.
    pub accent: usize,
    /// The seed of the noise.
    pub seed: i32,
}

/// Draws a new planet's look: two palette entries, drawn independently, and
/// a seed in `-SEED_RANGE..SEED_RANGE`.
pub fn random_planet_style(rng: &mut rand::rngs::ThreadRng) -> (style: PlanetStyle)
    ensures
        style.base < PALETTE_LEN,
        style.accent < PALETTE_LEN,
        -SEED_RANGE <= style.seed < SEED_RANGE,
{
    let i = random_between(rng, 0, 3);
    let j = random_between(rng, 0, 3);
    let seed = random_between(rng, -SEED_RANGE, SEED_RANGE);
    PlanetStyle { base: i as usize, accent: j as usize, seed }
}

/// The disc of a planet texture, in whole pixels.
#[derive(PartialEq, Eq, Structural, Clone, Copy, Debug)]
pub struct Disc {
    pub cx: u32,
    pub cy: u32,
    pub radius: u32,
}

/// Pixel `(x, y)` lies on the disc, its rim included.
pub open spec fn on_disc(x: int, y: int, d: Disc) -> bool {
    (x - d.cx) * (x - d.cx) + (y - d.cy) * (y - d.cy) <= d.radius * d.radius
}

/// Whether pixel `(x, y)` lies on the disc, its rim included.
pub fn in_disc(x: u32, y: u32, d: Disc) -> (inside: bool)
    ensures
        inside == on_disc(x as int, y as int, d),
        inside == ((x - d.cx) * (x - d.cx) + (y - d.cy) * (y - d.cy) <= d.radius * d.radius),
{
    let dx: u64 = if x >= d.cx { (x - d.cx) as u64 } else { (d.cx - x) as u64 };
    let dy: u64 = if y >= d.cy { (y - d.cy) as u64 } else { (d.cy - y) as u64 };
    let r: u64 = d.radius as u64;
    assert((dx as int) * (dx as int) < 0x1_0000_0000_0000_0000) by (nonlinear_arith)
        requires
            dx < 0x1_0000_0000,
    ;
    assert((dy as int) * (dy as int) < 0x1_0000_0000_0000_0000) by (nonlinear_arith)
        requires
            dy < 0x1_0000_0000,
    ;
    assert((r as int) * (r as int) < 0x1_0000_0000_0000_0000) by (nonlinear_arith)
        requires
            r < 0x1_0000_0000,
    ;
    let dx2: u128 = (dx as u128) * (dx as u128);
    let dy2: u128 = (dy as u128) * (dy as u128);
    let r2: u128 = (r as u128) * (r as u128);
    assert((x - d.cx) * (x - d.cx) == dx * dx) by (nonlinear_arith)
        requires
            dx == x - d.cx || dx == d.cx - x,
    ;
    assert((y - d.cy) * (y - d.cy) == dy * dy) by (nonlinear_arith)
        requires
            dy == y - d.cy || dy == d.cy - y,
    ;
    dx2 + dy2 <= r2
}

/// The four bytes of pixel `(x, y)` of a texture `height` pixels high: on
/// the disc, the opaque base colour where the noise flag is set and the
/// opaque accent colour elsewhere; off the disc, transparent black.
pub open spec fn texel(
    x: int,
    y: int,
    height: int,
    d: Disc,
    low_noise: Seq<bool>,
    base: Rgb8,
    accent: Rgb8,
) -> Seq<u8> {
    if on_disc(x, y, d) {
        let c = if low_noise[x * height + y] {
            base
        } else {
            accent
        };
        seq![c.r, c.g, c.b, 255u8]
    } else {
        seq![0u8, 0u8, 0u8, 0u8]
    }
}

/// The bytes of the first `rows` pixels of column `x`, top to bottom.
pub open spec fn column_bytes(
    x: int,
    rows: nat,
    height: int,
    d: Disc,
    low_noise: Seq<bool>,
    base: Rgb8,
    accent: Rgb8,
) -> Seq<u8>
    decreases rows,
{
    if rows == 0 {
        Seq::empty()
    } else {
        column_bytes(x, (rows - 1) as nat, height, d, low_noise, base, accent) + texel(
            x,
            rows - 1,
            height,
            d,
            low_noise,
            base,
            accent,
        )
    }
}

/// The bytes of the first `cols` columns of a texture `height` pixels high,
/// column after column.
pub open spec fn raster_bytes(
    cols: nat,
    height: nat,
    d: Disc,
    low_noise: Seq<bool>,
    base: Rgb8,
    accent: Rgb8,
) -> Seq<u8>
    decreases cols,
{
    if cols == 0 {
        Seq::empty()
    } else {
        raster_bytes((cols - 1) as nat, height, d, low_noise, base, accent) + column_bytes(
            cols - 1,
            height,
            height as int,
            d,
            low_noise,
            base,
            accent,
        )
    }
}

proof fn lemma_column_layout(
    x: int,
    rows: nat,
    height: int,
    d: Disc,
    low_noise: Seq<bool>,
    base: Rgb8,
    accent: Rgb8,
)
    ensures
        column_bytes(x, rows, height, d, low_noise, base, accent).len() == 4 * rows,
        forall|y: int, k: int|
            0 <= y < rows && 0 <= k < 4 ==> #[trigger] column_bytes(
                x,
                rows,
                height,
                d,
                low_noise,
                base,
                accent,
            )[4 * y + k] == texel(x, y, height, d, low_noise, base, accent)[k],
    decreases rows,
{
    if rows > 0 {
        lemma_column_layout(x, (rows - 1) as nat, height, d, low_noise, base, accent);
    }
}

/// Law: the pixel buffer of a `width` by `height` texture holds four bytes
/// per pixel, and pixel `(x, y)` occupies bytes `4 * (x * height + y)` to
/// `4 * (x * height + y) + 3`.
pub proof fn lemma_raster_layout(
    width: nat,
    height: nat,
    d: Disc,
    low_noise: Seq<bool>,
    base: Rgb8,
    accent: Rgb8,
)
    ensures
        raster_bytes(width, height, d, low_noise, base, accent).len() == 4 * width * height,
        forall|x: int, y: int, k: int|
            0 <= x < width && 0 <= y < height && 0 <= k < 4 ==> #[trigger] raster_bytes(
                width,
                height,
                d,
                low_noise,
                base,
                accent,
            )[4 * (x * height + y) + k] == texel(x, y, height as int, d, low_noise, base, accent)[k],
    decreases width,
{
    if width > 0 {
        let w1 = (width - 1) as nat;
        lemma_raster_layout(w1, height, d, low_noise, base, accent);
        lemma_column_layout(w1 as int, height, height as int, d, low_noise, base, accent);
        let prev = raster_bytes(w1, height, d, low_noise, base, accent);
        let col = column_bytes(w1 as int, height, height as int, d, low_noise, base, accent);
        assert(4 * width * height == 4 * w1 * height + 4 * height) by (nonlinear_arith)
            requires
                width == w1 + 1,
        ;
        assert forall|x: int, y: int, k: int|
            0 <= x < width && 0 <= y < height && 0 <= k < 4 implies #[trigger] raster_bytes(
                width,
                height,
                d,
                low_noise,
                base,
                accent,
            )[4 * (x * height + y) + k] == texel(x, y, height as int, d, low_noise, base, accent)[k] by {
            let i = 4 * (x * height + y) + k;
            if x < w1 {
                assert(i < 4 * w1 * height) by (nonlinear_arith)
                    requires
                        0 <= x < w1,
                        0 <= y < height,
                        0 <= k < 4,
                        i == 4 * (x * height + y) + k,
                ;
                assert(0 <= i) by (nonlinear_arith)
                    requires
                        0 <= x,
                        0 <= y,
                        0 <= k,
                        0 <= height,
                        i == 4 * (x * height + y) + k,
                ;
                assert(prev[i] == texel(x, y, height as int, d, low_noise, base, accent)[k]);
            } else {
                assert(i - 4 * w1 * height == 4 * y + k) by (nonlinear_arith)
                    requires
                        x == w1,
                        i == 4 * (x * height + y) + k,
                ;
                assert(col[4 * y + k] == texel(x, y, height as int, d, low_noise, base, accent)[k]);
            }
        }
    } else {
        assert(4 * width * height == 0) by (nonlinear_arith)
            requires
                width == 0,
        ;
    }
}

/// The RGBA bytes of a `width` by `height` planet texture, column after
/// column: pixel `(x, y)` is the base colour where `low_noise[x * height + y]`
/// is set and the accent colour elsewhere on the disc, opaque, and
/// transparent black off the disc.
pub fn planet_pixels(
    width: u32,
    height: u32,
    d: Disc,
    low_noise: &Vec<bool>,
    base: Rgb8,
    accent: Rgb8,
) -> (pixels: Vec<u8>)
    requires
        low_noise@.len() == width * height,
    ensures
        pixels@ == raster_bytes(width as nat, height as nat, d, low_noise@, base, accent),
        pixels@.len() == 4 * width * height,
        forall|x: int, y: int|
            #![trigger pixels@[4 * (x * height + y)]]
            0 <= x < width && 0 <= y < height ==> {
                if (x - d.cx) * (x - d.cx) + (y - d.cy) * (y - d.cy) <= d.radius * d.radius {
                    let c = if low_noise@[x * height + y] {
                        base
                    } else {
                        accent
                    };
                    &&& pixels@[4 * (x * height + y)] == c.r
                    &&& pixels@[4 * (x * height + y) + 1] == c.g
                    &&& pixels@[4 * (x * height + y) + 2] == c.b
                    &&& pixels@[4 * (x * height + y) + 3] == 255
                } else {
                    &&& pixels@[4 * (x * height + y)] == 0
                    &&& pixels@[4 * (x * height + y) + 1] == 0
                    &&& pixels@[4 * (x * height + y) + 2] == 0
                    &&& pixels@[4 * (x * height + y) + 3] == 0
                }
            },
{
    let mut pixels: Vec<u8> = Vec::new();
    let total: usize = low_noise.len();
    let mut x: u32 = 0;
    while x < width
        invariant
            x <= width,
            total == low_noise@.len(),
            low_noise@.len() == width * height,
            pixels@ == raster_bytes(x as nat, height as nat, d, low_noise@, base, accent),
        decreases width - x,
    {
        let mut y: u32 = 0;
        while y < height
            invariant
                x < width,
                y <= height,
                total == low_noise@.len(),
                low_noise@.len() == width * height,
                pixels@ == raster_bytes(x as nat, height as nat, d, low_noise@, base, accent)
                    + column_bytes(x as int, y as nat, height as int, d, low_noise@, base, accent),
            decreases height - y,
        {
            assert((x as int) * (height as int) + (y as int) < (width as int) * (height as int))
                by (nonlinear_arith)
                requires
                    x < width,
                    y < height,
            ;
            assert(0 <= (x as int) * (height as int)) by (nonlinear_arith);
            let idx: usize = (x as usize) * (height as usize) + (y as usize);
            let before = Ghost(pixels@);
            if in_disc(x, y, d) {
                let c = if low_noise[idx] {
                    base
                } else {
                    accent
                };
                pixels.push(c.r);
                pixels.push(c.g);
                pixels.push(c.b);
                pixels.push(255u8);
            } else {
                pixels.push(0u8);
                pixels.push(0u8);
                pixels.push(0u8);
                pixels.push(0u8);
            }
            assert(pixels@ == before@ + texel(
                x as int,
                y as int,
                height as int,
                d,
                low_noise@,
                base,
                accent,
            ));
            y = y + 1;
        }
        x = x + 1;
    }
    proof {
        lemma_raster_layout(width as nat, height as nat, d, low_noise@, base, accent);
        assert forall|x: int, y: int|
            #![trigger pixels@[4 * (x * height + y)]]
            0 <= x < width && 0 <= y < height implies {
            if (x - d.cx) * (x - d.cx) + (y - d.cy) * (y - d.cy) <= d.radius * d.radius {
                let c = if low_noise@[x * height + y] {
                    base
                } else {
                    accent
                };
                &&& pixels@[4 * (x * height + y)] == c.r
                &&& pixels@[4 * (x * height + y) + 1] == c.g
                &&& pixels@[4 * (x * height + y) + 2] == c.b
                &&& pixels@[4 * (x * height + y) + 3] == 255
            } else {
                &&& pixels@[4 * (x * height + y)] == 0
                &&& pixels@[4 * (x * height + y) + 1] == 0
                &&& pixels@[4 * (x * height + y) + 2] == 0
                &&& pixels@[4 * (x * height + y) + 3] == 0
            }
        } by {
            let t = texel(x, y, height as int, d, low_noise@, base, accent);
            assert(pixels@[4 * (x * height + y) + 0] == t[0]);
            assert(pixels@[4 * (x * height + y) + 1] == t[1]);
            assert(pixels@[4 * (x * height + y) + 2] == t[2]);
            assert(pixels@[4 * (x * height + y) + 3] == t[3]);
        }
    }
    pixels
}

/// The bytes of a new planet's texture, whose colours are palette entries
/// `color1` and `color2`: its second colour is first made to
/// differ from the first (see `contrast_accent`), then the disc is painted
/// (see `planet_pixels`).
pub fn generate_planet_texture(
    width: u32,
    height: u32,
    d: Disc,
    color1: usize,
    color2: usize,
    low_noise: &Vec<bool>,
) -> (pixels: Vec<u8>)
    requires
        color1 < PALETTE_LEN,
        color2 < PALETTE_LEN,
        low_noise@.len() == width * height,
    ensures
        exists|accent: Rgb8|
            accent_for(color1 as int, color2 as int, accent) && pixels@ == raster_bytes(
                width as nat,
                height as nat,
                d,
                low_noise@,
                palette(color1 as int),
                accent,
            ),
{
    let accent = contrast_accent(color1, color2);
    let base = palette_color(color1);
    planet_pixels(width, height, d, low_noise, base, accent)
}

} // verus!
