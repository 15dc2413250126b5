//! Pixel work on decoded RGBA images: narrowing 16-bit channels, clearing a
//! flat logo background, and cropping to the visible part.

use vstd::prelude::*;
use crate::text::{dec, owned, push_str, u64_to_string};

verus! {

/// Pixels at least this far from the background colour keep their alpha.
pub const BANNER_LOGO_BACKGROUND_ALPHA_THRESHOLD: u8 = 42;

/// Pixels with alpha at most this are treated as transparent when cropping.
pub const BANNER_LOGO_ALPHA_THRESHOLD: u8 = 8;

/// The margin kept around the visible part when cropping.
pub const BANNER_LOGO_CROP_PADDING: usize = 32;

/// The 8-bit value of the little-endian 16-bit channel at `2 * k`.
pub open spec fn narrowed_channel(bytes: Seq<u8>, k: int) -> u8 {
    ((bytes[2 * k] + 256 * bytes[2 * k + 1]) / 257) as u8
}

/// Each little-endian 16-bit channel of `bytes` scaled down to 8 bits.
pub fn narrow_channels(bytes: &Vec<u8>) -> (out: Vec<u8>)
    requires
        bytes@.len() % 2 == 0,
    ensures
        out@.len() == bytes@.len() / 2,
        forall|k: int| 0 <= k < out@.len() ==> out@[k] == narrowed_channel(bytes@, k),
{
    let len = bytes.len();
    let n = len / 2;
    let mut out: Vec<u8> = Vec::new();
    let mut k: usize = 0;
    while k < n
        invariant
            len == bytes@.len(),
            n == bytes@.len() / 2,
            bytes@.len() % 2 == 0,
            k <= n,
            out@.len() == k,
            forall|j: int| 0 <= j < k ==> out@[j] == narrowed_channel(bytes@, j),
        decreases n - k,
    {
        let lo = bytes[2 * k] as u32;
        let hi = bytes[2 * k + 1] as u32;
        let value: u32 = lo + 256 * hi;
        out.push((value / 257) as u8);
        k = k + 1;
    }
    out
}

/// The message for a 16-bit logo buffer whose length is not a whole number
/// of pixels.
pub open spec fn rgba16_length_message(len: nat) -> Seq<char> {
    "16-bit RGBA logo buffer length must be divisible by 8, got "@ + dec(len)
}

/// A 16-bit RGBA buffer narrowed to 8 bits per channel; refused when its
/// length is not a multiple of 8 bytes.
pub fn rgba16_to_rgba8(bytes: &Vec<u8>) -> (r: Result<Vec<u8>, String>)
    ensures
        match r {
            Ok(out) => bytes@.len() % 8 == 0 && out@.len() == bytes@.len() / 2 && forall|k: int|
                0 <= k < out@.len() ==> out@[k] == narrowed_channel(bytes@, k),
            Err(e) => bytes@.len() % 8 != 0 && e@ == rgba16_length_message(bytes@.len()),
        },
{
    if bytes.len() % 8 != 0 {
        let mut e = owned("16-bit RGBA logo buffer length must be divisible by 8, got ");
        let n = u64_to_string(bytes.len() as u64);
        push_str(&mut e, n.as_str());
        return Err(e);
    }
    Ok(narrow_channels(bytes))
}

/// The largest per-channel difference of two colours.
pub open spec fn colour_distance(a: [u8; 3], b: [u8; 3]) -> int {
    let d0 = if a[0] >= b[0] { a[0] - b[0] } else { b[0] - a[0] };
    let d1 = if a[1] >= b[1] { a[1] - b[1] } else { b[1] - a[1] };
    let d2 = if a[2] >= b[2] { a[2] - b[2] } else { b[2] - a[2] };
    if d0 >= d1 && d0 >= d2 {
        d0
    } else if d1 >= d2 {
        d1
    } else {
        d2
    }
}

fn abs_diff(a: u8, b: u8) -> (d: u8)
    ensures
        d == if a >= b { a - b } else { b - a },
{
    if a >= b {
        a - b
    } else {
        b - a
    }
}

/// The largest per-channel difference of two colours.
pub fn color_distance(a: [u8; 3], b: [u8; 3]) -> (d: u8)
    ensures
        d == colour_distance(a, b),
{
    let d0 = abs_diff(a[0], b[0]);
    let d1 = abs_diff(a[1], b[1]);
    let d2 = abs_diff(a[2], b[2]);
    let m = if d0 >= d1 { d0 } else { d1 };
    if m >= d2 {
        m
    } else {
        d2
    }
}

/// The index of channel `c` of pixel `(x, y)` in a buffer `w` pixels wide.
pub open spec fn channel_index(w: int, x: int, y: int, c: int) -> int {
    (y * w + x) * 4 + c
}

proof fn lemma_channel_index(w: int, h: int, x: int, y: int, c: int)
    requires
        0 <= x < w,
        0 <= y < h,
        0 <= c < 4,
    ensures
        0 <= channel_index(w, x, y, c) < w * h * 4,
        channel_index(w, x, y, c) == (y * w + x) * 4 + c,
{
    assert(0 <= y * w) by (nonlinear_arith)
        requires 0 <= y, 0 <= w;
    assert(y * w + x < w * h) by (nonlinear_arith)
        requires 0 <= x < w, 0 <= y < h;
}

/// Running sums of colour channels over sampled pixels.
#[derive(Clone, Copy, Debug, PartialEq, Eq, Structural)]
pub struct RgbSample {
    pub red: u64,
    pub green: u64,
    pub blue: u64,
    pub count: u64,
}

impl RgbSample {
    /// Adds pixel `(x, y)` of a buffer `width` pixels wide.
    pub fn add(&mut self, rgba: &Vec<u8>, width: usize, x: usize, y: usize)
        requires
            channel_index(width as int, x as int, y as int, 2) < rgba@.len(),
            (y * width + x) * 4 + 3 <= usize::MAX,
            old(self).red + 255 <= u64::MAX,
            old(self).green + 255 <= u64::MAX,
            old(self).blue + 255 <= u64::MAX,
            old(self).count < u64::MAX,
        ensures
            final(self).red == old(self).red + rgba@[channel_index(width as int, x as int, y as int, 0)],
            final(self).green == old(self).green + rgba@[channel_index(width as int, x as int, y as int, 1)],
            final(self).blue == old(self).blue + rgba@[channel_index(width as int, x as int, y as int, 2)],
            final(self).count == old(self).count + 1,
    {
        let offset = (y * width + x) * 4;
        self.red = self.red + rgba[offset] as u64;
        self.green = self.green + rgba[offset + 1] as u64;
        self.blue = self.blue + rgba[offset + 2] as u64;
        self.count = self.count + 1;
    }
}

/// Channel `c` summed over the top and bottom rows of the first `n` columns.
pub open spec fn rows_sum(rgba: Seq<u8>, w: int, h: int, c: int, n: int) -> int
    decreases n,
{
    if n <= 0 {
        0
    } else {
        rows_sum(rgba, w, h, c, n - 1) + rgba[channel_index(w, n - 1, 0, c)] + rgba[channel_index(w, n - 1, h - 1, c)]
    }
}

/// Channel `c` summed over the left and right columns of rows `1..m`.
pub open spec fn sides_sum(rgba: Seq<u8>, w: int, c: int, m: int) -> int
    decreases m,
{
    if m <= 1 {
        0
    } else {
        sides_sum(rgba, w, c, m - 1) + rgba[channel_index(w, 0, m - 1, c)] + rgba[channel_index(w, w - 1, m - 1, c)]
    }
}

/// The number of edge samples of a `w` by `h` image: both full rows, and both
/// ends of every row between them.
pub open spec fn edge_count(w: int, h: int) -> int {
    2 * w + if h >= 2 { 2 * (h - 2) } else { 0 }
}

/// The average of channel `c` over the edge samples.
pub open spec fn edge_average(rgba: Seq<u8>, w: int, h: int, c: int) -> int {
    (rows_sum(rgba, w, h, c, w) + sides_sum(rgba, w, c, if h >= 1 { h - 1 } else { 0 })) / edge_count(w, h)
}

/// The sizes under which edge sums fit their counters.
pub open spec fn edge_sums_fit(w: int, h: int) -> bool {
    (w + h) * 510 <= u64::MAX
}

proof fn lemma_rows_sum_bound(rgba: Seq<u8>, w: int, h: int, c: int, n: int)
    requires
        0 <= n,
    ensures
        0 <= rows_sum(rgba, w, h, c, n) <= 510 * n,
    decreases n,
{
    if n > 0 {
        lemma_rows_sum_bound(rgba, w, h, c, n - 1);
    }
}

proof fn lemma_sides_sum_bound(rgba: Seq<u8>, w: int, c: int, m: int)
    requires
        0 <= m,
    ensures
        0 <= sides_sum(rgba, w, c, m) <= 510 * (if m >= 1 { m - 1 } else { 0 }),
    decreases m,
{
    if m > 1 {
        lemma_sides_sum_bound(rgba, w, c, m - 1);
    }
}

/// The colour of a flat background: the average over the image's edge.
pub fn estimate_edge_background_color(rgba: &Vec<u8>, width: usize, height: usize) -> (bg: [u8; 3])
    requires
        (width > 0 && height > 0) || (width == 0 && height <= 2),
        rgba@.len() >= width * height * 4,
        edge_sums_fit(width as int, height as int),
    ensures
        width > 0 ==> bg[0] == edge_average(rgba@, width as int, height as int, 0),
        width > 0 ==> bg[1] == edge_average(rgba@, width as int, height as int, 1),
        width > 0 ==> bg[2] == edge_average(rgba@, width as int, height as int, 2),
        width == 0 ==> bg[0] == 0 && bg[1] == 0 && bg[2] == 0,
{
    if width == 0 {
        return [0, 0, 0];
    }
    let ghost w = width as int;
    let ghost h = height as int;
    let len = rgba.len();
    let mut sample = RgbSample { red: 0, green: 0, blue: 0, count: 0 };
    let mut x: usize = 0;
    while x < width
        invariant
            w == width,
            h == height,
            width > 0,
            height > 0,
            rgba@.len() >= width * height * 4,
            len == rgba@.len(),
            edge_sums_fit(w, h),
            x <= width,
            sample.red == rows_sum(rgba@, w, h, 0, x as int),
            sample.green == rows_sum(rgba@, w, h, 1, x as int),
            sample.blue == rows_sum(rgba@, w, h, 2, x as int),
            sample.count == 2 * x,
        decreases width - x,
    {
        proof {
            lemma_channel_index(w, h, x as int, 0, 3);
            lemma_channel_index(w, h, x as int, h - 1, 3);
            lemma_channel_index(w, h, x as int, h - 1, 2);
            lemma_rows_sum_bound(rgba@, w, h, 0, x as int);
            lemma_rows_sum_bound(rgba@, w, h, 1, x as int);
            lemma_rows_sum_bound(rgba@, w, h, 2, x as int);
            assert(w * h * 4 <= usize::MAX);
        }
        sample.add(rgba, width, x, 0);
        sample.add(rgba, width, x, height - 1);
        x = x + 1;
    }
    let last_row = if height >= 1 { height - 1 } else { 0 };
    let mut y: usize = 1;
    while y < last_row
        invariant
            w == width,
            h == height,
            width > 0,
            height > 0,
            rgba@.len() >= width * height * 4,
            len == rgba@.len(),
            edge_sums_fit(w, h),
            last_row == h - 1,
            1 <= y,
            last_row == 0 ==> y == 1,
            y <= last_row || last_row == 0,
            sample.red == rows_sum(rgba@, w, h, 0, w) + sides_sum(rgba@, w, 0, y as int),
            sample.green == rows_sum(rgba@, w, h, 1, w) + sides_sum(rgba@, w, 1, y as int),
            sample.blue == rows_sum(rgba@, w, h, 2, w) + sides_sum(rgba@, w, 2, y as int),
            sample.count == 2 * w + 2 * (y - 1),
        decreases last_row - y,
    {
        proof {
            lemma_channel_index(w, h, 0, y as int, 3);
            lemma_channel_index(w, h, w - 1, y as int, 3);
            lemma_channel_index(w, h, w - 1, y as int, 2);
            lemma_rows_sum_bound(rgba@, w, h, 0, w);
            lemma_rows_sum_bound(rgba@, w, h, 1, w);
            lemma_rows_sum_bound(rgba@, w, h, 2, w);
            lemma_sides_sum_bound(rgba@, w, 0, y as int);
            lemma_sides_sum_bound(rgba@, w, 1, y as int);
            lemma_sides_sum_bound(rgba@, w, 2, y as int);
            assert(w * h * 4 <= usize::MAX);
        }
        sample.add(rgba, width, 0, y);
        sample.add(rgba, width, width - 1, y);
        y = y + 1;
    }
    proof {
        if height >= 2 {
            assert(y == last_row);
        } else {
            assert(sides_sum(rgba@, w, 0, y as int) == sides_sum(rgba@, w, 0, 0));
            assert(sides_sum(rgba@, w, 1, y as int) == sides_sum(rgba@, w, 1, 0));
            assert(sides_sum(rgba@, w, 2, y as int) == sides_sum(rgba@, w, 2, 0));
        }
        lemma_rows_sum_bound(rgba@, w, h, 0, w);
        lemma_rows_sum_bound(rgba@, w, h, 1, w);
        lemma_rows_sum_bound(rgba@, w, h, 2, w);
        lemma_sides_sum_bound(rgba@, w, 0, y as int);
        lemma_sides_sum_bound(rgba@, w, 1, y as int);
        lemma_sides_sum_bound(rgba@, w, 2, y as int);
        assert(sample.count == edge_count(w, h));
        assert(sample.red <= 255 * sample.count);
        assert(sample.green <= 255 * sample.count);
        assert(sample.blue <= 255 * sample.count);
        assert(sample.red / sample.count <= 255) by (nonlinear_arith)
            requires sample.red <= 255 * sample.count, sample.count > 0;
        assert(sample.green / sample.count <= 255) by (nonlinear_arith)
            requires sample.green <= 255 * sample.count, sample.count > 0;
        assert(sample.blue / sample.count <= 255) by (nonlinear_arith)
            requires sample.blue <= 255 * sample.count, sample.count > 0;
    }
    [
        (sample.red / sample.count) as u8,
        (sample.green / sample.count) as u8,
        (sample.blue / sample.count) as u8,
    ]
}

/// The alpha a pixel at colour distance `d` from the background is limited
/// to: fully transparent on the background, fading in up to the threshold.
pub open spec fn background_alpha(d: int) -> int {
    d * 255 / (BANNER_LOGO_BACKGROUND_ALPHA_THRESHOLD as int)
}

/// The colour of the pixel whose channels start at `4 * p`.
pub open spec fn pixel_colour(rgba: Seq<u8>, p: int) -> [u8; 3] {
    [rgba[4 * p], rgba[4 * p + 1], rgba[4 * p + 2]]
}

/// The alpha of the pixel that starts at `4 * p` once pixels close to
/// background colour `bg` are faded out.
pub open spec fn faded_alpha(rgba: Seq<u8>, p: int, bg: [u8; 3]) -> u8 {
    let d = colour_distance(pixel_colour(rgba, p), bg);
    if d >= BANNER_LOGO_BACKGROUND_ALPHA_THRESHOLD {
        rgba[4 * p + 3]
    } else if rgba[4 * p + 3] <= background_alpha(d) {
        rgba[4 * p + 3]
    } else {
        background_alpha(d) as u8
    }
}

/// Fades out the pixels whose colour is close to the background colour of
/// the image's edge: each whole pixel's alpha is limited by its distance
/// from that colour; colour channels and a trailing partial pixel stay.
pub fn remove_flat_logo_background(rgba: &mut Vec<u8>, width: usize, height: usize)
    requires
        old(rgba)@.len() >= width * height * 4,
        edge_sums_fit(width as int, height as int),
    ensures
        final(rgba)@.len() == old(rgba)@.len(),
        width == 0 || height == 0 ==> final(rgba)@ == old(rgba)@,
        width > 0 && height > 0 ==> forall|i: int| 0 <= i < old(rgba)@.len() ==> #[trigger] final(rgba)@[i] == if i % 4 == 3 {
            faded_alpha(old(rgba)@, i / 4, [
                edge_average(old(rgba)@, width as int, height as int, 0) as u8,
                edge_average(old(rgba)@, width as int, height as int, 1) as u8,
                edge_average(old(rgba)@, width as int, height as int, 2) as u8,
            ])
        } else {
            old(rgba)@[i]
        },
{
    if width == 0 || height == 0 {
        return;
    }
    let background = estimate_edge_background_color(rgba, width, height);
    let ghost orig = rgba@;
    let len = rgba.len();
    let pixels = len / 4;
    let mut p: usize = 0;
    while p < pixels
        invariant
            len == orig.len(),
            pixels == orig.len() / 4,
            rgba@.len() == orig.len(),
            p <= pixels,
            forall|i: int| 0 <= i < orig.len() && i / 4 >= p ==> #[trigger] rgba@[i] == orig[i],
            forall|i: int| 0 <= i < orig.len() && i / 4 < p ==> #[trigger] rgba@[i] == if i % 4 == 3 {
                faded_alpha(orig, i / 4, background)
            } else {
                orig[i]
            },
        decreases pixels - p,
    {
        let base = 4 * p;
        assert(rgba@[base as int] == orig[base as int]);
        assert(rgba@[base + 1] == orig[base + 1]);
        assert(rgba@[base + 2] == orig[base + 2]);
        assert(rgba@[base + 3] == orig[base + 3]);
        let colour = [rgba[base], rgba[base + 1], rgba[base + 2]];
        let distance = color_distance(colour, background);
        assert(colour == pixel_colour(orig, p as int));
        if distance < BANNER_LOGO_BACKGROUND_ALPHA_THRESHOLD {
            let limit = ((distance as u16 * 255) / BANNER_LOGO_BACKGROUND_ALPHA_THRESHOLD as u16) as u8;
            assert(limit == background_alpha(distance as int));
            let current = rgba[base + 3];
            if limit < current {
                rgba.set(base + 3, limit);
            }
        }
        p = p + 1;
    }
    proof {
        assert forall|i: int| 0 <= i < orig.len() && i / 4 >= pixels implies #[trigger] rgba@[i] == orig[i] && i % 4 != 3 by {}
    }
}

/// Whether pixel `(x, y)` is visible for cropping.
pub open spec fn visible_pixel(rgba: Seq<u8>, w: int, x: int, y: int) -> bool {
    rgba[channel_index(w, x, y, 3)] > BANNER_LOGO_ALPHA_THRESHOLD
}

/// Whether some pixel of the `w` by `h` image is visible.
pub open spec fn has_visible_pixel(rgba: Seq<u8>, w: int, h: int) -> bool {
    exists|x: int, y: int| 0 <= x < w && 0 <= y < h && #[trigger] visible_pixel(rgba, w, x, y)
}

/// The visible extent `(min_x, min_y, max_x, max_y)` of the image.
pub open spec fn is_visible_extent(rgba: Seq<u8>, w: int, h: int, e: (int, int, int, int)) -> bool {
    &&& exists|x: int, y: int| 0 <= x < w && 0 <= y < h && #[trigger] visible_pixel(rgba, w, x, y) && x == e.0
    &&& exists|x: int, y: int| 0 <= x < w && 0 <= y < h && #[trigger] visible_pixel(rgba, w, x, y) && y == e.1
    &&& exists|x: int, y: int| 0 <= x < w && 0 <= y < h && #[trigger] visible_pixel(rgba, w, x, y) && x == e.2
    &&& exists|x: int, y: int| 0 <= x < w && 0 <= y < h && #[trigger] visible_pixel(rgba, w, x, y) && y == e.3
    &&& forall|x: int, y: int| 0 <= x < w && 0 <= y < h && #[trigger] visible_pixel(rgba, w, x, y) ==> e.0 <= x <= e.2
        && e.1 <= y <= e.3
}

/// The crop of an extent: widened by the padding on every side, and kept
/// inside the image.
pub open spec fn padded_crop(e: (int, int, int, int), w: int, h: int) -> (int, int, int, int) {
    let p = BANNER_LOGO_CROP_PADDING as int;
    (
        if e.0 >= p { e.0 - p } else { 0 },
        if e.1 >= p { e.1 - p } else { 0 },
        if e.2 + p <= w - 1 { e.2 + p } else { w - 1 },
        if e.3 + p <= h - 1 { e.3 + p } else { h - 1 },
    )
}

/// The part of the image worth showing: the visible pixels' extent with a
/// margin, or `None` when no pixel is visible.
pub fn alpha_crop_bounds(rgba: &Vec<u8>, width: usize, height: usize) -> (r: Option<(usize, usize, usize, usize)>)
    requires
        width == 0 || height == 0 || rgba@.len() >= width * height * 4,
    ensures
        match r {
            Some(c) => exists|e: (int, int, int, int)| #[trigger] is_visible_extent(rgba@, width as int, height as int, e)
                && (c.0 as int, c.1 as int, c.2 as int, c.3 as int) == padded_crop(e, width as int, height as int),
            None => !has_visible_pixel(rgba@, width as int, height as int),
        },
{
    let ghost w = width as int;
    let ghost h = height as int;
    let len = rgba.len();
    let mut min_x: usize = width;
    let mut min_y: usize = height;
    let mut max_x: usize = 0;
    let mut max_y: usize = 0;
    let mut found = false;
    let mut y: usize = 0;
    while y < height
        invariant
            w == width,
            h == height,
            width == 0 || height == 0 || rgba@.len() >= width * height * 4,
            len == rgba@.len(),
            y <= height,
            !found ==> min_x == width && min_y == height && max_x == 0 && max_y == 0,
            found ==> min_x < width && min_y < height && max_x < width && max_y < height,
            found ==> exists|x: int, yy: int| 0 <= x < w && 0 <= yy < h && #[trigger] visible_pixel(rgba@, w, x, yy) && x == min_x,
            found ==> exists|x: int, yy: int| 0 <= x < w && 0 <= yy < h && #[trigger] visible_pixel(rgba@, w, x, yy) && yy == min_y,
            found ==> exists|x: int, yy: int| 0 <= x < w && 0 <= yy < h && #[trigger] visible_pixel(rgba@, w, x, yy) && x == max_x,
            found ==> exists|x: int, yy: int| 0 <= x < w && 0 <= yy < h && #[trigger] visible_pixel(rgba@, w, x, yy) && yy == max_y,
            forall|x: int, yy: int| 0 <= x < w && 0 <= yy < y && #[trigger] visible_pixel(rgba@, w, x, yy) ==> found && min_x <= x
                <= max_x && min_y <= yy <= max_y,
        decreases height - y,
    {
        let mut x: usize = 0;
        while x < width
            invariant
                w == width,
                h == height,
                width == 0 || height == 0 || rgba@.len() >= width * height * 4,
                len == rgba@.len(),
                y < height,
                x <= width,
                !found ==> min_x == width && min_y == height && max_x == 0 && max_y == 0,
                found ==> min_x < width && min_y < height && max_x < width && max_y < height,
                found ==> exists|x: int, yy: int| 0 <= x < w && 0 <= yy < h && #[trigger] visible_pixel(rgba@, w, x, yy) && x == min_x,
                found ==> exists|x: int, yy: int| 0 <= x < w && 0 <= yy < h && #[trigger] visible_pixel(rgba@, w, x, yy) && yy == min_y,
                found ==> exists|x: int, yy: int| 0 <= x < w && 0 <= yy < h && #[trigger] visible_pixel(rgba@, w, x, yy) && x == max_x,
                found ==> exists|x: int, yy: int| 0 <= x < w && 0 <= yy < h && #[trigger] visible_pixel(rgba@, w, x, yy) && yy == max_y,
                forall|xx: int, yy: int| 0 <= xx < w && 0 <= yy < y && #[trigger] visible_pixel(rgba@, w, xx, yy) ==> found && min_x
                    <= xx <= max_x && min_y <= yy <= max_y,
                forall|xx: int| 0 <= xx < x && #[trigger] visible_pixel(rgba@, w, xx, y as int) ==> found && min_x <= xx <= max_x
                    && min_y <= y <= max_y,
            decreases width - x,
        {
            proof {
                lemma_channel_index(w, h, x as int, y as int, 3);
                assert(w * h * 4 <= usize::MAX);
            }
            let alpha = rgba[(y * width + x) * 4 + 3];
            if alpha > BANNER_LOGO_ALPHA_THRESHOLD {
                assert(visible_pixel(rgba@, w, x as int, y as int));
                found = true;
                if x < min_x {
                    min_x = x;
                }
                if y < min_y {
                    min_y = y;
                }
                if x > max_x {
                    max_x = x;
                }
                if y > max_y {
                    max_y = y;
                }
                assert(visible_pixel(rgba@, w, x as int, y as int) && x as int == x as int);
            }
            x = x + 1;
        }
        y = y + 1;
    }
    if !found {
        return None;
    }
    proof {
        assert(width <= width * height && height <= width * height) by (nonlinear_arith)
            requires width >= 1, height >= 1;
    }
    let left = if min_x >= BANNER_LOGO_CROP_PADDING { min_x - BANNER_LOGO_CROP_PADDING } else { 0 };
    let top = if min_y >= BANNER_LOGO_CROP_PADDING { min_y - BANNER_LOGO_CROP_PADDING } else { 0 };
    let right = if max_x + BANNER_LOGO_CROP_PADDING <= width - 1 { max_x + BANNER_LOGO_CROP_PADDING } else { width - 1 };
    let bottom = if max_y + BANNER_LOGO_CROP_PADDING <= height - 1 { max_y + BANNER_LOGO_CROP_PADDING } else { height - 1 };
    let ghost e = (min_x as int, min_y as int, max_x as int, max_y as int);
    assert(is_visible_extent(rgba@, w, h, e));
    assert((left as int, top as int, right as int, bottom as int) == padded_crop(e, w, h));
    Some((left, top, right, bottom))
}

/// The rows `y0..y0 + rows` of the crop: each row's pixels from `x0` to `x1`.
pub open spec fn cropped_rows(rgba: Seq<u8>, w: int, x0: int, x1: int, y0: int, rows: int) -> Seq<u8>
    decreases rows,
{
    if rows <= 0 {
        Seq::empty()
    } else {
        cropped_rows(rgba, w, x0, x1, y0, rows - 1) + rgba.subrange(
            channel_index(w, x0, y0 + rows - 1, 0),
            channel_index(w, x1 + 1, y0 + rows - 1, 0),
        )
    }
}

/// The pixels of the rectangle `crop = (x0, y0, x1, y1)`, bounds included,
/// row by row.
pub fn crop_rgba(rgba: &Vec<u8>, width: usize, crop: (usize, usize, usize, usize)) -> (out: Vec<u8>)
    requires
        crop.0 <= crop.2 < width,
        crop.1 <= crop.3,
        channel_index(width as int, crop.2 as int + 1, crop.3 as int, 0) <= rgba@.len(),
    ensures
        out@ == cropped_rows(rgba@, width as int, crop.0 as int, crop.2 as int, crop.1 as int, crop.3 - crop.1 + 1),
{
    let crop_width = crop.2 - crop.0 + 1;
    let len = rgba.len();
    let mut out: Vec<u8> = Vec::new();
    let mut y: usize = crop.1;
    while y <= crop.3
        invariant
            len == rgba@.len(),
            crop.0 <= crop.2 < width,
            crop.1 <= y <= crop.3 + 1,
            crop_width == crop.2 - crop.0 + 1,
            channel_index(width as int, crop.2 as int + 1, crop.3 as int, 0) <= rgba@.len(),
            out@ == cropped_rows(rgba@, width as int, crop.0 as int, crop.2 as int, crop.1 as int, y - crop.1),
        decreases crop.3 + 1 - y,
    {
        proof {
            assert(y * width <= crop.3 * width) by (nonlinear_arith)
                requires y <= crop.3;
            assert((y * width + crop.2 + 1) * 4 <= (crop.3 * width + crop.2 + 1) * 4) by (nonlinear_arith)
                requires y * width <= crop.3 * width;
        }
        let start = (y * width + crop.0) * 4;
        let end = start + crop_width * 4;
        assert(end as int == channel_index(width as int, crop.2 as int + 1, y as int, 0));
        let mut i: usize = start;
        let ghost before = out@;
        while i < end
            invariant
                start <= i <= end,
                end <= rgba@.len(),
                out@ == before + rgba@.subrange(start as int, i as int),
            decreases end - i,
        {
            out.push(rgba[i]);
            i = i + 1;
            assert(out@ =~= before + rgba@.subrange(start as int, i as int));
        }
        if y == crop.3 {
            assert(out@ == cropped_rows(rgba@, width as int, crop.0 as int, crop.2 as int, crop.1 as int, y - crop.1 + 1));
            return out;
        }
        y = y + 1;
    }
    out
}

} // verus!
