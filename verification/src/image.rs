//! Encoding a whole image: checking its dimensions, cutting it into 4x4
//! blocks row by row, and laying the packed blocks out as bytes.

use vstd::prelude::*;
use vstd::arithmetic::div_mod::{lemma_div_denominator, lemma_fundamental_div_mod_converse};
use vstd::arithmetic::power2::{lemma2_to64, lemma_pow2_adds, lemma_pow2_pos, pow2};
use crate::block::{
    encode_block, lemma_block_quality_saturates, lemma_encode_block_bounds, lemma_flat_block,
    lemma_flat_block_exact, spec_encode_block, spec_selected,
};
use crate::candidates::spec_is_flat;
use crate::color::{spec_is_565, Block, Color};
use crate::table::MAX_BLOCK_DIST;

verus! {

/// Why an image was not encoded.
#[derive(Clone, Copy, Debug, PartialEq, Eq, Structural)]
pub enum EncodeError {
    /// Width or height is not a multiple of 4.
    InvalidDimensions,
}

/// What an image is: its width, its height, and its pixels row by row.
pub struct ImageView {
    pub width: nat,
    pub height: nat,
    pub pixels: Seq<Color>,
}

impl ImageView {
    /// The image has one pixel for every place of its grid.
    pub open spec fn wf(self) -> bool {
        self.pixels.len() == self.width * self.height
    }

    /// Width and height are multiples of 4.
    pub open spec fn aligned(self) -> bool {
        self.width % 4 == 0 && self.height % 4 == 0
    }

    /// The pixel in column `x` of row `y`.
    pub open spec fn pixel(self, x: int, y: int) -> Color {
        self.pixels[y * self.width + x]
    }

    /// The number of 4x4 blocks in the image.
    pub open spec fn block_count(self) -> int {
        ((self.width / 4) * (self.height / 4)) as int
    }

    /// The block whose left column is `4 * bx` and whose top row is
    /// `4 * by`, its pixels row by row.
    pub open spec fn block(self, bx: int, by: int) -> Block {
        [
            self.pixel(4 * bx, 4 * by),
            self.pixel(4 * bx + 1, 4 * by),
            self.pixel(4 * bx + 2, 4 * by),
            self.pixel(4 * bx + 3, 4 * by),
            self.pixel(4 * bx, 4 * by + 1),
            self.pixel(4 * bx + 1, 4 * by + 1),
            self.pixel(4 * bx + 2, 4 * by + 1),
            self.pixel(4 * bx + 3, 4 * by + 1),
            self.pixel(4 * bx, 4 * by + 2),
            self.pixel(4 * bx + 1, 4 * by + 2),
            self.pixel(4 * bx + 2, 4 * by + 2),
            self.pixel(4 * bx + 3, 4 * by + 2),
            self.pixel(4 * bx, 4 * by + 3),
            self.pixel(4 * bx + 1, 4 * by + 3),
            self.pixel(4 * bx + 2, 4 * by + 3),
            self.pixel(4 * bx + 3, 4 * by + 3),
        ]
    }

    /// The `n`-th block of the image, counting along each row of blocks
    /// from the left, the rows from the top.
    pub open spec fn nth_block(self, n: int) -> Block {
        self.block(n % (self.width as int / 4), n / (self.width as int / 4))
    }
}

/// Byte `i` of a value, counting from the least significant.
pub open spec fn spec_byte(value: int, i: int) -> u8 {
    ((value / pow2((8 * i) as nat) as int) % 256) as u8
}

/// The eight bytes of a packed value, the least significant first.
pub open spec fn spec_le_bytes(value: int) -> Seq<u8> {
    Seq::new(8, |i: int| spec_byte(value, i))
}

/// The bytes of the first `n` blocks of an image: eight for each block in
/// turn, its packed value with the least significant byte first.
pub open spec fn spec_encode_blocks(image: ImageView, quality: u8, n: int) -> Seq<u8> {
    Seq::new(
        (8 * n) as nat,
        |t: int| spec_byte(spec_encode_block(image.nth_block(t / 8), quality).0, t % 8),
    )
}

/// The distortion scores of the first `n` blocks of an image, summed.
pub open spec fn spec_total_dist(image: ImageView, quality: u8, n: int) -> int
    decreases n,
{
    if n <= 0 {
        0
    } else {
        spec_total_dist(image, quality, n - 1) + spec_encode_block(
            image.nth_block(n - 1),
            quality,
        ).1
    }
}

/// What encoding an image gives: the bytes of all its blocks together with
/// their summed distortion, or the error for dimensions that are not
/// multiples of 4.
pub open spec fn spec_encode_measured(image: ImageView, quality: u8) -> Result<
    (Seq<u8>, int),
    EncodeError,
> {
    if image.aligned() {
        Ok(
            (
                spec_encode_blocks(image, quality, image.block_count()),
                spec_total_dist(image, quality, image.block_count()),
            ),
        )
    } else {
        Err(EncodeError::InvalidDimensions)
    }
}

/// The byte stream of an image, or the error for dimensions that are not
/// multiples of 4.
pub open spec fn spec_encode(image: ImageView, quality: u8) -> Result<Seq<u8>, EncodeError> {
    match spec_encode_measured(image, quality) {
        Ok(out) => Ok(out.0),
        Err(e) => Err(e),
    }
}

/// The total distortion divided by the number of pixels, the fraction
/// dropped; nothing for an image without pixels.
pub open spec fn spec_per_pixel_dist(total: int, pixel_count: int) -> Option<int> {
    if pixel_count == 0 {
        None
    } else {
        Some(total / pixel_count)
    }
}

/// A place inside the grid of an image is a place inside its pixels.
pub proof fn lemma_pixel_index(width: int, height: int, x: int, y: int)
    requires
        0 <= x < width,
        0 <= y < height,
    ensures
        0 <= y * width + x < width * height,
{
    assert(0 <= y * width && y * width + width <= height * width && height * width == width
        * height) by (nonlinear_arith)
        requires
            0 <= y < height,
            0 < width,
    ;
}

/// The `n`-th block lies inside the image: it is the block in column
/// `n % (width / 4)` of row `n / (width / 4)` of the grid of blocks and
/// reaches neither beyond the right nor beyond the lower edge. The image
/// has 16 pixels for each of its blocks.
pub proof fn lemma_nth_block(image: ImageView, n: int)
    requires
        image.wf(),
        0 <= n < image.block_count(),
    ensures
        ({
            let bw = image.width as int / 4;
            let bh = image.height as int / 4;
            &&& 0 <= n % bw < bw
            &&& 0 <= n / bw < bh
            &&& 4 * (n % bw) + 4 <= image.width
            &&& 4 * (n / bw) + 4 <= image.height
            &&& 16 * image.block_count() <= image.pixels.len()
        }),
{
    let bw = image.width as int / 4;
    let bh = image.height as int / 4;
    assert(bw > 0 && bh > 0 && n / bw < bh && 0 <= n / bw && 0 <= n % bw < bw) by (nonlinear_arith)
        requires
            0 <= n < bw * bh,
            0 <= bw,
            0 <= bh,
    ;
    assert(16 * (bw * bh) <= image.width * image.height) by (nonlinear_arith)
        requires
            0 <= 4 * bw <= image.width,
            0 <= 4 * bh <= image.height,
    ;
}

/// Entry `4 * dy + dx` of a block is the pixel `dx` columns to the right of
/// and `dy` rows below its upper left corner.
pub proof fn lemma_block_entry(image: ImageView, bx: int, by: int, dx: int, dy: int)
    requires
        0 <= dx < 4,
        0 <= dy < 4,
    ensures
        image.block(bx, by)[4 * dy + dx] == image.pixel(4 * bx + dx, 4 * by + dy),
{
    let block = image.block(bx, by);
    assert(block[0] == image.pixel(4 * bx, 4 * by));
    assert(block[1] == image.pixel(4 * bx + 1, 4 * by));
    assert(block[2] == image.pixel(4 * bx + 2, 4 * by));
    assert(block[3] == image.pixel(4 * bx + 3, 4 * by));
    assert(block[4] == image.pixel(4 * bx, 4 * by + 1));
    assert(block[5] == image.pixel(4 * bx + 1, 4 * by + 1));
    assert(block[6] == image.pixel(4 * bx + 2, 4 * by + 1));
    assert(block[7] == image.pixel(4 * bx + 3, 4 * by + 1));
    assert(block[8] == image.pixel(4 * bx, 4 * by + 2));
    assert(block[9] == image.pixel(4 * bx + 1, 4 * by + 2));
    assert(block[10] == image.pixel(4 * bx + 2, 4 * by + 2));
    assert(block[11] == image.pixel(4 * bx + 3, 4 * by + 2));
    assert(block[12] == image.pixel(4 * bx, 4 * by + 3));
    assert(block[13] == image.pixel(4 * bx + 1, 4 * by + 3));
    assert(block[14] == image.pixel(4 * bx + 2, 4 * by + 3));
    assert(block[15] == image.pixel(4 * bx + 3, 4 * by + 3));
}

/// Every pixel of an aligned image lies in one of its blocks: the pixel in
/// column `x` of row `y` is entry `4 * (y % 4) + x % 4` of the block in
/// column `x / 4` of row `y / 4` of the grid of blocks, which is block
/// number `(y / 4) * (width / 4) + x / 4`.
pub proof fn lemma_block_of_pixel(image: ImageView, x: int, y: int)
    requires
        image.wf(),
        image.aligned(),
        0 <= x < image.width,
        0 <= y < image.height,
    ensures
        ({
            let n = (y / 4) * (image.width as int / 4) + x / 4;
            &&& 0 <= n < image.block_count()
            &&& image.nth_block(n) == image.block(x / 4, y / 4)
            &&& image.nth_block(n)[4 * (y % 4) + x % 4] == image.pixel(x, y)
        }),
{
    let bw = image.width as int / 4;
    let bh = image.height as int / 4;
    let bx = x / 4;
    let by = y / 4;
    let n = by * bw + bx;
    assert(0 <= by * bw && by * bw + bw <= bh * bw && bh * bw == bw * bh) by (nonlinear_arith)
        requires
            0 <= by < bh,
            0 < bw,
    ;
    lemma_fundamental_div_mod_converse(n, bw, by, bx);
    lemma_block_entry(image, bx, by, x % 4, y % 4);
}

/// The bytes of one more block are the bytes so far followed by the eight
/// bytes of that block.
pub proof fn lemma_encode_blocks_step(image: ImageView, quality: u8, n: int)
    requires
        0 <= n,
    ensures
        spec_encode_blocks(image, quality, n + 1) == spec_encode_blocks(image, quality, n)
            + spec_le_bytes(spec_encode_block(image.nth_block(n), quality).0),
{
    let next = spec_le_bytes(spec_encode_block(image.nth_block(n), quality).0);
    let joined = spec_encode_blocks(image, quality, n) + next;
    let whole = spec_encode_blocks(image, quality, n + 1);
    assert(joined.len() == whole.len());
    assert forall|t: int| 0 <= t < whole.len() implies joined[t] == whole[t] by {
        if t >= 8 * n {
            assert(t / 8 == n && t % 8 == t - 8 * n);
            assert(joined[t] == next[t - 8 * n]);
        }
    }
    assert(joined =~= whole);
}

/// The output of an aligned image is 8 bytes for each of its blocks,
/// `(width / 4) * (height / 4) * 8` in all, and the bytes of one block
/// depend on that block alone.
pub proof fn lemma_encode_layout(image: ImageView, quality: u8, n: int, i: int)
    requires
        image.aligned(),
        0 <= n < image.block_count(),
        0 <= i < 8,
    ensures
        spec_encode(image, quality) is Ok,
        spec_encode(image, quality)->Ok_0.len() == (image.width / 4) * (image.height / 4) * 8,
        spec_encode(image, quality)->Ok_0[8 * n + i] == spec_byte(
            spec_encode_block(image.nth_block(n), quality).0,
            i,
        ),
{
    let bw = image.width as int / 4;
    let bh = image.height as int / 4;
    assert((bw * bh) * 8 == 8 * (bw * bh)) by (nonlinear_arith);
}

/// Encoding depends on nothing but the width, the height and the pixels of
/// the image and the quality: equal inputs give equal outputs.
pub proof fn lemma_encode_deterministic(a: ImageView, b: ImageView, quality: u8)
    requires
        a.width == b.width,
        a.height == b.height,
        a.pixels.len() == b.pixels.len(),
        forall|i: int| 0 <= i < a.pixels.len() ==> a.pixels[i] == b.pixels[i],
    ensures
        spec_encode_measured(a, quality) == spec_encode_measured(b, quality),
        spec_encode(a, quality) == spec_encode(b, quality),
{
    assert(a.pixels =~= b.pixels);
}

/// Every quality above 2 encodes as quality 2 does.
pub proof fn lemma_quality_saturates(image: ImageView, quality: u8)
    requires
        quality >= 2,
    ensures
        spec_encode_measured(image, quality) == spec_encode_measured(image, 2),
        spec_encode(image, quality) == spec_encode(image, 2),
{
    let count = image.block_count();
    assert forall|n: int|
        spec_encode_block(#[trigger] image.nth_block(n), quality) == spec_encode_block(
            image.nth_block(n),
            2,
        ) by {
        lemma_block_quality_saturates(image.nth_block(n), quality);
    }
    assert(spec_encode_blocks(image, quality, count) =~= spec_encode_blocks(image, 2, count));
    lemma_total_dist_same(image, quality, 2, count);
}

proof fn lemma_total_dist_same(image: ImageView, p: u8, q: u8, n: int)
    requires
        forall|k: int|
            spec_encode_block(#[trigger] image.nth_block(k), p) == spec_encode_block(
                image.nth_block(k),
                q,
            ),
    ensures
        spec_total_dist(image, p, n) == spec_total_dist(image, q, n),
    decreases n,
{
    if n > 0 {
        lemma_total_dist_same(image, p, q, n - 1);
    }
}

/// The summed distortion of the first `n` blocks is at most `n` times the
/// largest score of a block.
pub proof fn lemma_total_dist_bounds(image: ImageView, quality: u8, n: int)
    requires
        0 <= n,
    ensures
        0 <= spec_total_dist(image, quality, n) <= n * MAX_BLOCK_DIST,
    decreases n,
{
    if n > 0 {
        lemma_total_dist_bounds(image, quality, n - 1);
        lemma_encode_block_bounds(image.nth_block(n - 1), quality);
    }
}

/// In an aligned image of one color every block is flat, at every quality:
/// each block is encoded with the quantized color as both endpoints. Where
/// the color is representable in 5:6:5, the distortion of the whole image
/// is 0.
pub proof fn lemma_flat_image(image: ImageView, quality: u8, color: Color)
    requires
        image.wf(),
        image.aligned(),
        forall|i: int| 0 <= i < image.pixels.len() ==> image.pixels[i] == color,
    ensures
        forall|k: int|
            0 <= k < image.block_count() ==> spec_is_flat(#[trigger] image.nth_block(k))
                && image.nth_block(k)[0] == color,
        forall|k: int|
            0 <= k < image.block_count() ==> (#[trigger] spec_selected(
                image.nth_block(k),
                quality,
            )).low == spec_selected(image.nth_block(k), quality).high,
        spec_is_565(color) ==> spec_total_dist(image, quality, image.block_count()) == 0,
{
    assert forall|k: int| 0 <= k < image.block_count() implies spec_is_flat(
        #[trigger] image.nth_block(k),
    ) && image.nth_block(k)[0] == color by {
        lemma_flat_nth_block(image, color, k);
    }
    assert forall|k: int| 0 <= k < image.block_count() implies (#[trigger] spec_selected(
        image.nth_block(k),
        quality,
    )).low == spec_selected(image.nth_block(k), quality).high by {
        lemma_flat_nth_block(image, color, k);
        lemma_flat_block(image.nth_block(k), quality);
    }
    if spec_is_565(color) {
        lemma_flat_total_dist(image, quality, color, image.block_count());
    }
}

proof fn lemma_flat_total_dist(image: ImageView, quality: u8, color: Color, n: int)
    requires
        image.wf(),
        image.aligned(),
        forall|i: int| 0 <= i < image.pixels.len() ==> image.pixels[i] == color,
        spec_is_565(color),
        0 <= n <= image.block_count(),
    ensures
        spec_total_dist(image, quality, n) == 0,
    decreases n,
{
    if n > 0 {
        lemma_flat_total_dist(image, quality, color, n - 1);
        lemma_flat_nth_block(image, color, n - 1);
        lemma_flat_block_exact(image.nth_block(n - 1), quality);
    }
}

proof fn lemma_flat_nth_block(image: ImageView, color: Color, n: int)
    requires
        image.wf(),
        image.aligned(),
        forall|i: int| 0 <= i < image.pixels.len() ==> image.pixels[i] == color,
        0 <= n < image.block_count(),
    ensures
        forall|i: int| 0 <= i < 16 ==> #[trigger] image.nth_block(n)[i] == color,
{
    let bw = image.width as int / 4;
    let bx = n % bw;
    let by = n / bw;
    lemma_nth_block(image, n);
    let w = image.width as int;
    let h = image.height as int;
    assert forall|x: int, y: int| 0 <= x < w && 0 <= y < h implies #[trigger] image.pixel(x, y)
        == color by {
        lemma_pixel_index(w, h, x, y);
    }
    assert forall|i: int| 0 <= i < 16 implies #[trigger] image.nth_block(n)[i] == color by {
        lemma_block_entry(image, bx, by, i % 4, i / 4);
    }
}

/// A grid of pixels, row by row. Every image has exactly
/// `width * height` pixels.
pub struct Image {
    width: usize,
    height: usize,
    pixels: Vec<Color>,
}

impl View for Image {
    type V = ImageView;

    closed spec fn view(&self) -> ImageView {
        ImageView {
            width: self.width as nat,
            height: self.height as nat,
            pixels: self.pixels@,
        }
    }
}

impl Image {
    #[verifier::type_invariant]
    spec fn grid_is_filled(self) -> bool {
        self.pixels.len() == self.width * self.height
    }

    /// Makes an image of the pixels of its rows, top row first. There is
    /// no image unless the number of pixels is `width * height`.
    pub fn new(width: usize, height: usize, pixels: Vec<Color>) -> (out: Option<Image>)
        ensures
            out is Some <==> pixels.len() == width * height,
            out matches Some(image) ==> image@ == (ImageView {
                width: width as nat,
                height: height as nat,
                pixels: pixels@,
            }) && image@.wf(),
    {
        match width.checked_mul(height) {
            Some(count) => {
                if pixels.len() == count {
                    Some(Image { width, height, pixels })
                } else {
                    None
                }
            },
            None => None,
        }
    }

    /// The number of pixels in a row.
    pub fn width(&self) -> (w: usize)
        ensures
            w == self@.width,
            self@.wf(),
    {
        proof {
            use_type_invariant(self);
        }
        self.width
    }

    /// The number of rows.
    pub fn height(&self) -> (h: usize)
        ensures
            h == self@.height,
            self@.wf(),
    {
        proof {
            use_type_invariant(self);
        }
        self.height
    }

    /// The number of pixels.
    pub fn pixel_count(&self) -> (n: usize)
        ensures
            n == self@.pixels.len(),
            n == self@.width * self@.height,
    {
        proof {
            use_type_invariant(self);
        }
        self.pixels.len()
    }

    fn pixel(&self, x: usize, y: usize) -> (p: Color)
        requires
            x < self@.width,
            y < self@.height,
        ensures
            p == self@.pixel(x as int, y as int),
    {
        proof {
            use_type_invariant(self);
            lemma_pixel_index(self.width as int, self.height as int, x as int, y as int);
            assert(0 <= y * self.width) by (nonlinear_arith);
        }
        self.pixels[y * self.width + x]
    }

    fn tile(&self, bx: usize, by: usize) -> (out: Block)
        requires
            4 * bx + 4 <= self@.width,
            4 * by + 4 <= self@.height,
        ensures
            out == self@.block(bx as int, by as int),
    {
        let x: usize = 4 * bx;
        let y: usize = 4 * by;
        let out: Block = [
            self.pixel(x, y),
            self.pixel(x + 1, y),
            self.pixel(x + 2, y),
            self.pixel(x + 3, y),
            self.pixel(x, y + 1),
            self.pixel(x + 1, y + 1),
            self.pixel(x + 2, y + 1),
            self.pixel(x + 3, y + 1),
            self.pixel(x, y + 2),
            self.pixel(x + 1, y + 2),
            self.pixel(x + 2, y + 2),
            self.pixel(x + 3, y + 2),
            self.pixel(x, y + 3),
            self.pixel(x + 1, y + 3),
            self.pixel(x + 2, y + 3),
            self.pixel(x + 3, y + 3),
        ];
        assert(out =~= self@.block(bx as int, by as int));
        out
    }

    /// Cuts the block in column `bx` and row `by` of the grid of blocks out
    /// of the image. There is none where that block would reach beyond the
    /// right or the lower edge.
    pub fn block(&self, bx: usize, by: usize) -> (out: Option<Block>)
        ensures
            out is Some <==> 4 * bx + 4 <= self@.width && 4 * by + 4 <= self@.height,
            out matches Some(block) ==> block == self@.block(bx as int, by as int),
    {
        if bx < self.width / 4 && by < self.height / 4 {
            Some(self.tile(bx, by))
        } else {
            None
        }
    }
}

fn push_bytes(out: &mut Vec<u8>, value: u64)
    ensures
        final(out)@ == old(out)@ + spec_le_bytes(value as int),
{
    let mut rest: u64 = value;
    let ghost before = out@;
    proof {
        lemma2_to64();
    }
    for i in 0..8usize
        invariant
            rest as int == (value as int) / (pow2((8 * i) as nat) as int),
            out@ == before + Seq::new(i as nat, |t: int| spec_byte(value as int, t)),
    {
        proof {
            let low = pow2((8 * i) as nat) as int;
            lemma2_to64();
            lemma_pow2_pos((8 * i) as nat);
            lemma_pow2_adds((8 * i) as nat, 8);
            lemma_div_denominator(value as int, low, 256);
            assert(pow2((8 * (i + 1)) as nat) == low * 256);
            assert(rest & 0xFF == rest % 256) by (bit_vector);
            assert(rest >> 8 == rest / 256) by (bit_vector);
        }
        out.push((rest & 0xFF) as u8);
        rest = rest >> 8;
        assert(out@ =~= before + Seq::new((i + 1) as nat, |t: int| spec_byte(value as int, t)));
    }
}

/// Encodes an image and measures the result: returns the byte stream and
/// the distortion scores of all blocks summed.
pub fn encode_measured(image: &Image, quality: u8) -> (out: Result<(Vec<u8>, u128), EncodeError>)
    ensures
        out is Ok <==> image@.aligned(),
        out matches Err(e) ==> e == EncodeError::InvalidDimensions,
        out matches Ok(done) ==> spec_encode_measured(image@, quality) == Ok::<
            (Seq<u8>, int),
            EncodeError,
        >((done.0@, done.1 as int)),
        out matches Ok(done) ==> done.0@.len() == (image@.width / 4) * (image@.height / 4) * 8,
{
    let width = image.width();
    let height = image.height();
    let pixel_count = image.pixel_count();
    if width % 4 != 0 || height % 4 != 0 {
        return Err(EncodeError::InvalidDimensions);
    }
    let bw: usize = width / 4;
    let bh: usize = height / 4;
    proof {
        assert(0 <= bw * bh && 16 * (bw * bh) == width * height) by (nonlinear_arith)
            requires
                width == 4 * bw,
                height == 4 * bh,
        ;
        assert(bw * bh <= pixel_count);
    }
    let count: usize = bw * bh;
    let mut bytes: Vec<u8> = Vec::new();
    let mut total: u128 = 0;
    let mut n: usize = 0;
    assert(bytes@ =~= spec_encode_blocks(image@, quality, 0));
    while n < count
        invariant
            n <= count,
            count == image@.block_count(),
            bw == image@.width / 4,
            image@.wf(),
            bytes@ == spec_encode_blocks(image@, quality, n as int),
            total == spec_total_dist(image@, quality, n as int),
        decreases count - n,
    {
        proof {
            lemma_nth_block(image@, n as int);
            lemma_total_dist_bounds(image@, quality, n as int);
        }
        let block = image.tile(n % bw, n / bw);
        let (packed, dist) = encode_block(&block, quality);
        total += dist as u128;
        push_bytes(&mut bytes, packed);
        proof {
            lemma_encode_blocks_step(image@, quality, n as int);
        }
        n += 1;
    }
    proof {
        assert((bw * bh) * 8 == 8 * (bw * bh)) by (nonlinear_arith);
    }
    Ok((bytes, total))
}

/// Encodes an image into BC1: 8 bytes for every 4x4 block, the blocks row
/// by row. Fails for a width or height that is not a multiple of 4.
pub fn encode(image: &Image, quality: u8) -> (out: Result<Vec<u8>, EncodeError>)
    ensures
        out is Ok <==> image@.width % 4 == 0 && image@.height % 4 == 0,
        out matches Err(e) ==> e == EncodeError::InvalidDimensions,
        out matches Ok(bytes) ==> spec_encode(image@, quality) == Ok::<Seq<u8>, EncodeError>(
            bytes@,
        ),
        out matches Ok(bytes) ==> bytes@.len() == (image@.width / 4) * (image@.height / 4) * 8,
{
    match encode_measured(image, quality) {
        Ok(done) => Ok(done.0),
        Err(e) => Err(e),
    }
}

/// The distortion per pixel: the total divided by the number of pixels,
/// the fraction dropped. There is none for an image without pixels.
pub fn per_pixel_dist(total: u128, pixel_count: usize) -> (out: Option<u128>)
    ensures
        out is Some <==> pixel_count != 0,
        out matches Some(mean) ==> spec_per_pixel_dist(total as int, pixel_count as int) == Some(
            mean as int,
        ),
{
    if pixel_count == 0 {
        None
    } else {
        Some(total / (pixel_count as u128))
    }
}

} // verus!
