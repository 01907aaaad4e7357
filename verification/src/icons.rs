//! Icons of twelve by twelve pixels, one bit for each.

use vstd::prelude::*;

use crate::color::Color;
#[allow(unused_imports)]
use crate::color::white_color;

verus! {

/// The rows and the columns of an icon.
pub const ICON_SIZE: usize = 12;

/// The pixels of an icon.
pub const ICON_PIXELS: usize = 144;

/// A thermometer. Row by row; the highest bit is the leftmost pixel.
pub const THERMOMETER: [u16; 12] = [
    0b0001100000000000,
    0b0010010000000000,
    0b0010010000000000,
    0b0010110000000000,
    0b0010110000000000,
    0b0010110000000000,
    0b0010110000000000,
    0b0100111000000000,
    0b0101111000000000,
    0b0100111000000000,
    0b0011110000000000,
    0b0000000000000000,
];

/// A drop of water.
pub const DROP: [u16; 12] = [
    0b0001000000000000,
    0b0001000000000000,
    0b0011100000000000,
    0b0011100000000000,
    0b0111110000000000,
    0b0111110000000000,
    0b1111111000000000,
    0b1111111000000000,
    0b1111111000000000,
    0b0111110000000000,
    0b0011100000000000,
    0b0000000000000000,
];

/// A clock.
pub const CLOCK: [u16; 12] = [
    0b0001110000000000,
    0b0110001100000000,
    0b0100000100000000,
    0b1000100010000000,
    0b1000100010000000,
    0b1000111010000000,
    0b1000000010000000,
    0b1000000010000000,
    0b0100000100000000,
    0b0110001100000000,
    0b0001110000000000,
    0b0000000000000000,
];

/// A pixel to be painted.
#[derive(Clone, Copy, Debug, PartialEq, Eq, Structural)]
pub struct Pixel {
    pub x: i32,
    pub y: i32,
    pub color: Color,
}

/// The pixels of an icon, in the order in which they are painted.
#[derive(Clone, Copy, Debug)]
pub struct IconPixels {
    pixels: [Pixel; ICON_PIXELS],
    len: usize,
}

/// The icon has a pixel in column `x` of row `y`.
pub open spec fn lit(icon: Seq<u16>, x: int, y: int) -> bool {
    icon[y] & (1u16 << (15 - x) as u16) != 0
}

/// Pixel `n` of an icon, counted along the rows.
pub open spec fn lit_at(icon: Seq<u16>, n: int) -> bool {
    lit(icon, n % 12, n / 12)
}

/// Where pixel `n` of an icon goes, counted along the rows.
pub open spec fn pixel_at(x_off: int, y_off: int, n: int) -> Pixel {
    Pixel { x: (x_off + n % 12) as i32, y: (y_off + n / 12) as i32, color: white_color() }
}

/// The pixels among the first `n` of an icon, each painted white, row by row.
pub open spec fn icon_pixels(icon: Seq<u16>, x_off: int, y_off: int, n: int) -> Seq<Pixel>
    decreases n,
{
    if n <= 0 {
        seq![]
    } else if lit_at(icon, n - 1) {
        icon_pixels(icon, x_off, y_off, n - 1).push(pixel_at(x_off, y_off, n - 1))
    } else {
        icon_pixels(icon, x_off, y_off, n - 1)
    }
}

/// Every pixel of the icon has coordinates at this offset.
pub open spec fn icon_fits(icon: Seq<u16>, x_off: int, y_off: int) -> bool {
    forall|x: int, y: int|
        0 <= x < ICON_SIZE && 0 <= y < ICON_SIZE && #[trigger] lit(icon, x, y) ==> x_off + x
            <= i32::MAX && y_off + y <= i32::MAX
}

impl View for IconPixels {
    type V = Seq<Pixel>;

    closed spec fn view(&self) -> Seq<Pixel> {
        self.pixels@.take(self.len as int)
    }
}

impl IconPixels {
    /// The count of pixels is within the storage.
    #[verifier::type_invariant]
    spec fn wf(self) -> bool {
        self.len <= ICON_PIXELS
    }

    /// How many pixels there are.
    pub fn count(&self) -> (count: usize)
        ensures
            count == self@.len(),
    {
        proof {
            use_type_invariant(self);
        }
        self.len
    }

    /// Pixel `n` in the order of painting.
    pub fn pixel(&self, n: usize) -> (pixel: Pixel)
        requires
            n < self@.len(),
        ensures
            pixel == self@[n as int],
    {
        proof {
            use_type_invariant(self);
        }
        self.pixels[n]
    }
}

/// Paints an icon in white with its upper left corner at the given offset: a pixel
/// for each bit that is set, row by row.
pub fn draw_icon(icon: &[u16; 12], x_off: i32, y_off: i32) -> (pixels: IconPixels)
    requires
        icon_fits(icon@, x_off as int, y_off as int),
    ensures
        pixels@ == icon_pixels(icon@, x_off as int, y_off as int, ICON_PIXELS as int),
{
    let white = Color::white();
    let mut pixels: [Pixel; ICON_PIXELS] = [Pixel { x: 0, y: 0, color: white }; ICON_PIXELS];
    let mut len: usize = 0;
    for y in 0..ICON_SIZE
        invariant
            white == white_color(),
            icon_fits(icon@, x_off as int, y_off as int),
            len <= 12 * y,
            pixels@.take(len as int) == icon_pixels(icon@, x_off as int, y_off as int, 12 * y),
    {
        let row: u16 = icon[y];
        for x in 0..ICON_SIZE
            invariant
                y < ICON_SIZE,
                white == white_color(),
                row == icon@[y as int],
                icon_fits(icon@, x_off as int, y_off as int),
                len <= 12 * y + x,
                pixels@.take(len as int) == icon_pixels(
                    icon@,
                    x_off as int,
                    y_off as int,
                    12 * y + x,
                ),
        {
            let ghost n = 12 * y + x;
            assert(n % 12 == x && n / 12 == y as int);
            assert(lit_at(icon@, n) == lit(icon@, x as int, y as int));
            if row & (1u16 << (15 - x) as u16) != 0 {
                let ghost before = pixels@.take(len as int);
                pixels[len] = Pixel { x: x_off + x as i32, y: y_off + y as i32, color: white };
                len = len + 1;
                assert(pixels@.take(len as int) =~= before.push(
                    pixel_at(x_off as int, y_off as int, n),
                ));
            }
        }
    }
    IconPixels { pixels, len }
}

/// A pixel is painted exactly where the icon has one, and lies in the square of
/// twelve by twelve at the offset.
pub proof fn lemma_icon_pixels_exact(icon: Seq<u16>, x_off: int, y_off: int, pixel: Pixel)
    requires
        i32::MIN <= x_off <= i32::MAX,
        i32::MIN <= y_off <= i32::MAX,
        icon_fits(icon, x_off, y_off),
    ensures
        icon_pixels(icon, x_off, y_off, ICON_PIXELS as int).contains(pixel) <==> {
            &&& 0 <= pixel.x - x_off < ICON_SIZE
            &&& 0 <= pixel.y - y_off < ICON_SIZE
            &&& lit(icon, pixel.x - x_off, pixel.y - y_off)
            &&& pixel.color == white_color()
        },
{
    let all = icon_pixels(icon, x_off, y_off, ICON_PIXELS as int);
    if all.contains(pixel) {
        let m = lemma_icon_pixel_has_source(icon, x_off, y_off, ICON_PIXELS as int, pixel);
        assert(lit(icon, m % 12, m / 12));
    }
    let x = pixel.x - x_off;
    let y = pixel.y - y_off;
    if 0 <= x < ICON_SIZE && 0 <= y < ICON_SIZE && lit(icon, x, y) && pixel.color
        == white_color() {
        let m = 12 * y + x;
        assert(m % 12 == x && m / 12 == y);
        lemma_icon_pixel_listed(icon, x_off, y_off, ICON_PIXELS as int, m);
        assert(pixel_at(x_off, y_off, m) == pixel);
    }
}

/// No pixel of an icon is painted twice.
pub proof fn lemma_icon_pixels_distinct(icon: Seq<u16>, x_off: int, y_off: int, n: int)
    requires
        i32::MIN <= x_off <= i32::MAX,
        i32::MIN <= y_off <= i32::MAX,
        icon_fits(icon, x_off, y_off),
        0 <= n <= ICON_PIXELS,
    ensures
        icon_pixels(icon, x_off, y_off, n).no_duplicates(),
    decreases n,
{
    if n > 0 {
        lemma_icon_pixels_distinct(icon, x_off, y_off, n - 1);
        let before = icon_pixels(icon, x_off, y_off, n - 1);
        let last = pixel_at(x_off, y_off, n - 1);
        if lit_at(icon, n - 1) && before.contains(last) {
            let m = lemma_icon_pixel_has_source(icon, x_off, y_off, n - 1, last);
            assert(lit(icon, m % 12, m / 12));
            assert(lit(icon, (n - 1) % 12, (n - 1) / 12));
            assert(m == n - 1);
        }
    }
}

/// The pixels of an icon come row by row, each row from left to right.
pub proof fn lemma_icon_pixels_ordered(
    icon: Seq<u16>,
    x_off: int,
    y_off: int,
    n: int,
    a: int,
    b: int,
)
    requires
        i32::MIN <= x_off <= i32::MAX,
        i32::MIN <= y_off <= i32::MAX,
        icon_fits(icon, x_off, y_off),
        0 <= n <= ICON_PIXELS,
        0 <= a < b < icon_pixels(icon, x_off, y_off, n).len(),
    ensures
        ({
            let pixels = icon_pixels(icon, x_off, y_off, n);
            pixels[a].y < pixels[b].y || (pixels[a].y == pixels[b].y && pixels[a].x < pixels[b].x)
        }),
    decreases n,
{
    let before = icon_pixels(icon, x_off, y_off, n - 1);
    if b < before.len() {
        lemma_icon_pixels_ordered(icon, x_off, y_off, n - 1, a, b);
    } else {
        assert(before.contains(before[a]));
        let m = lemma_icon_pixel_has_source(icon, x_off, y_off, n - 1, before[a]);
        assert(lit(icon, m % 12, m / 12));
        assert(lit(icon, (n - 1) % 12, (n - 1) / 12));
    }
}

proof fn lemma_icon_pixel_has_source(
    icon: Seq<u16>,
    x_off: int,
    y_off: int,
    n: int,
    pixel: Pixel,
) -> (m: int)
    requires
        icon_pixels(icon, x_off, y_off, n).contains(pixel),
    ensures
        0 <= m < n,
        lit_at(icon, m),
        pixel == pixel_at(x_off, y_off, m),
    decreases n,
{
    let all = icon_pixels(icon, x_off, y_off, n);
    let k = choose|k: int| 0 <= k < all.len() && all[k] == pixel;
    let before = icon_pixels(icon, x_off, y_off, n - 1);
    if lit_at(icon, n - 1) && k == before.len() {
        n - 1
    } else {
        assert(before[k] == pixel);
        lemma_icon_pixel_has_source(icon, x_off, y_off, n - 1, pixel)
    }
}

proof fn lemma_icon_pixel_listed(icon: Seq<u16>, x_off: int, y_off: int, n: int, m: int)
    requires
        0 <= m < n,
        lit_at(icon, m),
    ensures
        icon_pixels(icon, x_off, y_off, n).contains(pixel_at(x_off, y_off, m)),
    decreases n,
{
    let all = icon_pixels(icon, x_off, y_off, n);
    let before = icon_pixels(icon, x_off, y_off, n - 1);
    if m == n - 1 {
        assert(all.last() == pixel_at(x_off, y_off, m));
    } else {
        lemma_icon_pixel_listed(icon, x_off, y_off, n - 1, m);
        let k = choose|k: int| 0 <= k < before.len() && before[k] == pixel_at(x_off, y_off, m);
        assert(all[k] == before[k]);
    }
}

} // verus!
