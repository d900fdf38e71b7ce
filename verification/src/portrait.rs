//! Persistent skit portrait canvases, rebuilt from a block map before filtering.
//!
//! A portrait is a grid of 8×8 blocks, each copied from a block of one of its
//! lossless RGBA source images. The canvas keeps a one-texel border that repeats
//! the portrait's edge, so linear filtering clamps to the portrait even when the
//! canvas is larger; the rest of the canvas is transparent black.
use vstd::prelude::*;
use vstd::arithmetic::div_mod::lemma_fundamental_div_mod_converse;

verus! {

/// The side of a portrait block, in texels.
pub const TILE_SIZE: u32 = 8;

/// One block of the portrait: a block of source image `image`, counted in rows
/// of that image's blocks.
#[derive(Clone, Copy, Debug, PartialEq, Eq)]
pub struct PortraitTile {
    pub image: u16,
    pub block: u32,
}

/// A decoded source image of a portrait.
#[derive(Clone, Debug)]
pub struct SourceImage {
    /// The texels are 8-bit RGBA.
    pub rgba8: bool,
    pub width: u32,
    pub height: u32,
    /// Row-major RGBA bytes, when the image data is resident.
    pub data: Option<Vec<u8>>,
}

/// Why a portrait canvas cannot be composed.
#[derive(Clone, Copy, Debug, PartialEq, Eq)]
pub enum CanvasError {
    /// The portrait is empty, does not fit inside the canvas border, or its image
    /// list differs from the sources given.
    InvalidCanvas,
    /// A source is not 8-bit RGBA of its recorded size.
    SourceFormat,
    /// A source's texels are not resident.
    SourceUnavailable,
    /// The block map does not cover the portrait exactly.
    IncompleteBlockMap,
    /// A block names an image the portrait does not have.
    MissingImage,
    /// A block reaches beyond its source image.
    SourcePadding,
}

/// Number of blocks covering `n` texels.
pub open spec fn blocks(n: int) -> int {
    (n + 7) / 8
}

/// The first problem of source `image`, recorded with size `size`.
pub open spec fn source_error(image: SourceImage, size: (u32, u32)) -> Option<CanvasError> {
    if !(image.rgba8 && image.width == size.0 && image.height == size.1) {
        Some(CanvasError::SourceFormat)
    } else if !(image.data matches Some(d) && d@.len() >= size.0 * size.1 * 4) {
        Some(CanvasError::SourceUnavailable)
    } else {
        None
    }
}

/// The problem of the first of the first `n` sources that has one.
pub open spec fn first_source_error(images: Seq<SourceImage>, sizes: Seq<(u32, u32)>, n: int) -> Option<CanvasError>
    decreases n,
{
    if n <= 0 {
        None
    } else {
        match first_source_error(images, sizes, n - 1) {
            Some(e) => Some(e),
            None => source_error(images[n - 1], sizes[n - 1]),
        }
    }
}

/// Left texel column, in its image, of the block that `tile` copies.
pub open spec fn source_x(sizes: Seq<(u32, u32)>, tile: PortraitTile) -> int {
    (tile.block as int % blocks(sizes[tile.image as int].0 as int)) * 8
}

/// Top texel row, in its image, of the block that `tile` copies.
pub open spec fn source_y(sizes: Seq<(u32, u32)>, tile: PortraitTile) -> int {
    (tile.block as int / blocks(sizes[tile.image as int].0 as int)) * 8
}

pub open spec fn min8(n: int) -> int {
    if n < 8 { n } else { 8 }
}

/// The problem of block `t` of a portrait of `width`×`height` texels.
pub open spec fn tile_error(width: int, height: int, sizes: Seq<(u32, u32)>, tiles: Seq<PortraitTile>, t: int) -> Option<CanvasError> {
    let tile = tiles[t];
    if tile.image >= sizes.len() {
        Some(CanvasError::MissingImage)
    } else {
        let columns = blocks(width);
        let w = min8(width - (t % columns) * 8);
        let h = min8(height - (t / columns) * 8);
        if source_x(sizes, tile) + w <= sizes[tile.image as int].0 && source_y(sizes, tile) + h <= sizes[tile.image as int].1 {
            None
        } else {
            Some(CanvasError::SourcePadding)
        }
    }
}

/// The problem of the first of the first `n` blocks that has one.
pub open spec fn first_tile_error(width: int, height: int, sizes: Seq<(u32, u32)>, tiles: Seq<PortraitTile>, n: int) -> Option<CanvasError>
    decreases n,
{
    if n <= 0 {
        None
    } else {
        match first_tile_error(width, height, sizes, tiles, n - 1) {
            Some(e) => Some(e),
            None => tile_error(width, height, sizes, tiles, n - 1),
        }
    }
}

/// Whether the portrait fits inside the canvas with its border and has a
/// recorded size for each source.
pub open spec fn canvas_fits(size: (u32, u32), sizes: Seq<(u32, u32)>, images: Seq<SourceImage>, canvas: (u32, u32)) -> bool {
    size.0 > 0 && size.1 > 0 && size.0 + 2 <= canvas.0 && size.1 + 2 <= canvas.1 && images.len() == sizes.len()
}

/// Why `compose` refuses its inputs, if it does.
pub open spec fn compose_error(
    size: (u32, u32),
    sizes: Seq<(u32, u32)>,
    tiles: Seq<PortraitTile>,
    images: Seq<SourceImage>,
    canvas: (u32, u32),
) -> Option<CanvasError> {
    if !canvas_fits(size, sizes, images, canvas) {
        Some(CanvasError::InvalidCanvas)
    } else if first_source_error(images, sizes, images.len() as int) is Some {
        first_source_error(images, sizes, images.len() as int)
    } else if tiles.len() != blocks(size.0 as int) * blocks(size.1 as int) {
        Some(CanvasError::IncompleteBlockMap)
    } else {
        first_tile_error(size.0 as int, size.1 as int, sizes, tiles, tiles.len() as int)
    }
}

/// Whether composing reaches the texels of source `i`: the canvas fits, every
/// earlier source was accepted and this one has its recorded format.
pub open spec fn reaches_source(
    size: (u32, u32),
    sizes: Seq<(u32, u32)>,
    images: Seq<SourceImage>,
    canvas: (u32, u32),
    i: int,
) -> bool {
    &&& canvas_fits(size, sizes, images, canvas)
    &&& first_source_error(images, sizes, i) is None
    &&& images[i].rgba8
    &&& images[i].width == sizes[i].0
    &&& images[i].height == sizes[i].1
}

/// Whether composing reaches the source block of block `t`: the canvas, the
/// sources and the block map were accepted, every earlier block too, and the
/// block names a source.
pub open spec fn reaches_tile(
    size: (u32, u32),
    sizes: Seq<(u32, u32)>,
    tiles: Seq<PortraitTile>,
    images: Seq<SourceImage>,
    canvas: (u32, u32),
    t: int,
) -> bool {
    &&& canvas_fits(size, sizes, images, canvas)
    &&& first_source_error(images, sizes, images.len() as int) is None
    &&& tiles.len() == blocks(size.0 as int) * blocks(size.1 as int)
    &&& first_tile_error(size.0 as int, size.1 as int, sizes, tiles, t) is None
    &&& tiles[t].image < sizes.len()
}

/// Index of byte `c` of texel (`x`, `y`) in a canvas `cw` texels wide.
pub open spec fn texel(cw: int, x: int, y: int, c: int) -> int {
    (y * cw + x) * 4 + c
}

/// The block that covers portrait texel (`x`, `y`), counting the border.
pub open spec fn tile_of(width: int, x: int, y: int) -> int {
    ((y - 1) / 8) * blocks(width) + (x - 1) / 8
}

/// Byte `c` of portrait texel (`x`, `y`) (1-based, inside the border): the
/// corresponding texel of the block that covers it.
pub open spec fn portrait_byte(
    width: int,
    sizes: Seq<(u32, u32)>,
    tiles: Seq<PortraitTile>,
    images: Seq<SourceImage>,
    x: int,
    y: int,
    c: int,
) -> u8 {
    let tile = tiles[tile_of(width, x, y)];
    let sw = sizes[tile.image as int].0 as int;
    images[tile.image as int].data.unwrap()@[((source_y(sizes, tile) + (y - 1) % 8) * sw + source_x(sizes, tile) + (x - 1) % 8) * 4 + c]
}

pub open spec fn clamp(v: int, low: int, high: int) -> int {
    if v < low { low } else if v > high { high } else { v }
}

/// Byte `c` of canvas texel (`x`, `y`): the portrait inside its border, the
/// border repeating the nearest edge texel, transparent black beyond.
pub open spec fn canvas_byte(
    size: (u32, u32),
    sizes: Seq<(u32, u32)>,
    tiles: Seq<PortraitTile>,
    images: Seq<SourceImage>,
    x: int,
    y: int,
    c: int,
) -> u8 {
    if x <= size.0 + 1 && y <= size.1 + 1 {
        portrait_byte(size.0 as int, sizes, tiles, images, clamp(x, 1, size.0 as int), clamp(y, 1, size.1 as int), c)
    } else {
        0
    }
}

proof fn lemma_texel(cw: int, ch: int, x: int, y: int, c: int)
    requires
        0 <= x < cw,
        0 <= y < ch,
        0 <= c < 4,
    ensures
        0 <= texel(cw, x, y, c) < cw * ch * 4,
        texel(cw, x, y, c) % 4 == c,
        texel(cw, x, y, c) / 4 == y * cw + x,
        (y * cw + x) % cw == x,
        (y * cw + x) / cw == y,
{
    assert(0 <= y * cw) by (nonlinear_arith)
        requires
            0 <= y,
            0 <= cw,
    ;
    assert(y * cw + x < cw * ch) by (nonlinear_arith)
        requires
            0 <= x < cw,
            0 <= y < ch,
    ;
    lemma_fundamental_div_mod_converse(texel(cw, x, y, c), 4, y * cw + x, c);
    lemma_fundamental_div_mod_converse(y * cw + x, cw, y, x);
}

proof fn lemma_texel_injective(cw: int, ch: int, x: int, y: int, c: int, x2: int, y2: int, c2: int)
    requires
        0 <= x < cw,
        0 <= y < ch,
        0 <= c < 4,
        0 <= x2 < cw,
        0 <= y2 < ch,
        0 <= c2 < 4,
        texel(cw, x, y, c) == texel(cw, x2, y2, c2),
    ensures
        x == x2 && y == y2 && c == c2,
{
    lemma_texel(cw, ch, x, y, c);
    lemma_texel(cw, ch, x2, y2, c2);
}

/// A texel of block `t` lies in that block.
proof fn lemma_tile_texel(width: int, height: int, t: int, k: int, r: int)
    requires
        width > 0,
        height > 0,
        0 <= t < blocks(width) * blocks(height),
        0 <= k < min8(width - (t % blocks(width)) * 8),
        0 <= r < min8(height - (t / blocks(width)) * 8),
    ensures
        ({
            let x = (t % blocks(width)) * 8 + 1 + k;
            let y = (t / blocks(width)) * 8 + 1 + r;
            &&& 1 <= x <= width
            &&& 1 <= y <= height
            &&& tile_of(width, x, y) == t
            &&& (x - 1) % 8 == k
            &&& (y - 1) % 8 == r
        }),
{
    let columns = blocks(width);
    assert(columns > 0);
    let a = t / columns;
    let b = t % columns;
    lemma_fundamental_div_mod_converse(b * 8 + k, 8, b, k);
    lemma_fundamental_div_mod_converse(a * 8 + r, 8, a, r);
    vstd::arithmetic::div_mod::lemma_fundamental_div_mod(t, columns);
    assert(0 <= b < columns);
    assert(0 <= a) by {
        vstd::arithmetic::div_mod::lemma_div_pos_is_pos(t, columns);
    }
    assert(a * columns + b == t) by (nonlinear_arith)
        requires
            t == columns * a + b,
    ;
}

/// The block of a portrait texel is one of the blocks, and the texel lies in the
/// part of the block inside the portrait.
proof fn lemma_texel_tile(width: int, height: int, x: int, y: int)
    requires
        1 <= x <= width,
        1 <= y <= height,
    ensures
        0 <= tile_of(width, x, y) < blocks(width) * blocks(height),
        tile_of(width, x, y) % blocks(width) == (x - 1) / 8,
        tile_of(width, x, y) / blocks(width) == (y - 1) / 8,
        (x - 1) % 8 < min8(width - ((x - 1) / 8) * 8),
        (y - 1) % 8 < min8(height - ((y - 1) / 8) * 8),
        x == ((x - 1) / 8) * 8 + 1 + (x - 1) % 8,
        y == ((y - 1) / 8) * 8 + 1 + (y - 1) % 8,
{
    let columns = blocks(width);
    let rows = blocks(height);
    vstd::arithmetic::div_mod::lemma_fundamental_div_mod(x - 1, 8);
    vstd::arithmetic::div_mod::lemma_fundamental_div_mod(y - 1, 8);
    let a = (y - 1) / 8;
    let b = (x - 1) / 8;
    assert(0 <= b < columns);
    assert(0 <= a < rows);
    lemma_fundamental_div_mod_converse(a * columns + b, columns, a, b);
    assert(a * columns + b < rows * columns) by (nonlinear_arith)
        requires
            0 <= a < rows,
            0 <= b < columns,
    ;
    assert(0 <= a * columns) by (nonlinear_arith)
        requires
            0 <= a,
            0 <= columns,
    ;
    assert(rows * columns == columns * rows) by (nonlinear_arith);
}


proof fn lemma_first_source_error_stable(images: Seq<SourceImage>, sizes: Seq<(u32, u32)>, m: int, n: int)
    requires
        0 <= m <= n,
        first_source_error(images, sizes, m) is Some,
    ensures
        first_source_error(images, sizes, n) == first_source_error(images, sizes, m),
    decreases n - m,
{
    if n > m {
        lemma_first_source_error_stable(images, sizes, m, n - 1);
    }
}

proof fn lemma_no_source_error(images: Seq<SourceImage>, sizes: Seq<(u32, u32)>, n: int, i: int)
    requires
        0 <= i < n,
        first_source_error(images, sizes, n) is None,
    ensures
        source_error(images[i], sizes[i]) is None,
    decreases n,
{
    if i < n - 1 {
        lemma_no_source_error(images, sizes, n - 1, i);
    }
}

proof fn lemma_first_tile_error_stable(width: int, height: int, sizes: Seq<(u32, u32)>, tiles: Seq<PortraitTile>, m: int, n: int)
    requires
        0 <= m <= n,
        first_tile_error(width, height, sizes, tiles, m) is Some,
    ensures
        first_tile_error(width, height, sizes, tiles, n) == first_tile_error(width, height, sizes, tiles, m),
    decreases n - m,
{
    if n > m {
        lemma_first_tile_error_stable(width, height, sizes, tiles, m, n - 1);
    }
}

/// Whether texel byte (`x`, `y`, `c`) of block `t` was already copied when the
/// copy of block `t` reached row `r`, column `k` and byte `c0`.
pub open spec fn copied(width: int, x: int, y: int, c: int, t: int, r: int, k: int, c0: int) -> bool {
    ||| tile_of(width, x, y) < t
    ||| tile_of(width, x, y) == t && (y - 1) % 8 < r
    ||| tile_of(width, x, y) == t && (y - 1) % 8 == r && (x - 1) % 8 < k
    ||| tile_of(width, x, y) == t && (y - 1) % 8 == r && (x - 1) % 8 == k && c < c0
}

/// The canvas while block `t` is being copied.
pub open spec fn copy_state(
    pixels: Seq<u8>,
    size: (u32, u32),
    sizes: Seq<(u32, u32)>,
    tiles: Seq<PortraitTile>,
    images: Seq<SourceImage>,
    canvas: (u32, u32),
    t: int,
    r: int,
    k: int,
    c0: int,
) -> bool {
    forall|x: int, y: int, c: int|
        #![trigger texel(canvas.0 as int, x, y, c)]
        0 <= x < canvas.0 && 0 <= y < canvas.1 && 0 <= c < 4 ==> pixels[texel(canvas.0 as int, x, y, c)] == if 1 <= x
            <= size.0 && 1 <= y <= size.1 && copied(size.0 as int, x, y, c, t, r, k, c0) {
            portrait_byte(size.0 as int, sizes, tiles, images, x, y, c)
        } else {
            0
        }
}

/// The canvas once the texels that `filled` selects hold their final bytes and
/// every other texel is still transparent black.
pub open spec fn canvas_state(
    pixels: Seq<u8>,
    size: (u32, u32),
    sizes: Seq<(u32, u32)>,
    tiles: Seq<PortraitTile>,
    images: Seq<SourceImage>,
    canvas: (u32, u32),
    filled: spec_fn(int, int, int) -> bool,
) -> bool {
    forall|x: int, y: int, c: int|
        #![trigger texel(canvas.0 as int, x, y, c)]
        0 <= x < canvas.0 && 0 <= y < canvas.1 && 0 <= c < 4 ==> pixels[texel(canvas.0 as int, x, y, c)] == if filled(
            x,
            y,
            c,
        ) {
            canvas_byte(size, sizes, tiles, images, x, y, c)
        } else {
            0
        }
}

/// The portrait, the side border of its first rows, and byte `c0` onwards of row `y0`.
pub open spec fn sides_filled(width: int, height: int, y0: int, c0: int) -> spec_fn(int, int, int) -> bool {
    |x: int, y: int, c: int|
        0 <= c < 4 && ((1 <= x <= width && 1 <= y <= height) || ((x == 0 || x == width + 1) && (1 <= y < y0
            || (y == y0 && c < c0))))
}

/// The portrait with its side border, and the top and bottom border up to column `x0`.
pub open spec fn rows_filled(width: int, height: int, x0: int, c0: int) -> spec_fn(int, int, int) -> bool {
    |x: int, y: int, c: int|
        0 <= c < 4 && ((0 <= x <= width + 1 && 1 <= y <= height) || ((y == 0 || y == height + 1) && (0 <= x
            < x0 || (x == x0 && c < c0))))
}

/// Position of byte `c` of texel (`x`, `y`) in a canvas of `cw`×`ch` texels.
fn texel_index(cw: u32, ch: u32, x: u32, y: u32, c: u32) -> (i: usize)
    requires
        x < cw,
        y < ch,
        c < 4,
        cw * ch * 4 <= u32::MAX,
    ensures
        i == texel(cw as int, x as int, y as int, c as int),
        i < cw * ch * 4,
{
    proof {
        lemma_texel(cw as int, ch as int, x as int, y as int, c as int);
    }
    ((y * cw + x) * 4 + c) as usize
}

/// Copies one byte of block `t`, whose canvas block starts at (`bx`, `by`).
fn copy_byte(
    pixels: &mut Vec<u8>,
    data: &Vec<u8>,
    size: (u32, u32),
    sizes: &Vec<(u32, u32)>,
    tiles: &Vec<PortraitTile>,
    images: &Vec<SourceImage>,
    canvas: (u32, u32),
    t: usize,
    bx: u32,
    by: u32,
    r: u32,
    k: u32,
    c0: u32,
    sx: u32,
    sy: u32,
    sw: u32,
    sh: u32,
)
    requires
        size.0 > 0,
        size.1 > 0,
        size.0 + 2 <= canvas.0,
        size.1 + 2 <= canvas.1,
        canvas.0 * canvas.1 * 4 <= u32::MAX,
        old(pixels)@.len() == canvas.0 * canvas.1 * 4,
        images@.len() == sizes@.len(),
        tiles@.len() == blocks(size.0 as int) * blocks(size.1 as int),
        t < tiles@.len(),
        bx == (t as int % blocks(size.0 as int)) * 8 + 1,
        by == (t as int / blocks(size.0 as int)) * 8 + 1,
        tiles@[t as int].image < sizes@.len(),
        sizes@[tiles@[t as int].image as int] == (sw, sh),
        sw * sh * 4 <= u32::MAX,
        images@[tiles@[t as int].image as int].data == Some(*data),
        data@.len() >= sw * sh * 4,
        sx == source_x(sizes@, tiles@[t as int]),
        sy == source_y(sizes@, tiles@[t as int]),
        r < min8(size.1 - (t as int / blocks(size.0 as int)) * 8),
        k < min8(size.0 - (t as int % blocks(size.0 as int)) * 8),
        c0 < 4,
        sx + k < sw,
        sy + r < sh,
        copy_state(old(pixels)@, size, sizes@, tiles@, images@, canvas, t as int, r as int, k as int, c0 as int),
    ensures
        final(pixels)@.len() == old(pixels)@.len(),
        copy_state(final(pixels)@, size, sizes@, tiles@, images@, canvas, t as int, r as int, k as int, c0 + 1),
{
    let ghost width = size.0 as int;
    let ghost height = size.1 as int;
    let ghost x0 = bx + k;
    let ghost y0 = by + r;
    proof {
        lemma_tile_texel(width, height, t as int, k as int, r as int);
    }
    let from = texel_index(sw, sh, sx + k, sy + r, c0);
    let to = texel_index(canvas.0, canvas.1, bx + k, by + r, c0);
    let value = data[from];
    proof {
        assert(value == portrait_byte(width, sizes@, tiles@, images@, x0, y0, c0 as int));
    }
    let ghost before = pixels@;
    pixels.set(to, value);
    proof {
        assert forall|x1: int, y1: int, c1: int|
            0 <= x1 < canvas.0 && 0 <= y1 < canvas.1 && 0 <= c1 < 4 implies #[trigger] pixels@[texel(
                canvas.0 as int,
                x1,
                y1,
                c1,
            )] == if 1 <= x1 <= size.0 && 1 <= y1 <= size.1 && copied(width, x1, y1, c1, t as int, r as int, k as int, c0 + 1) {
                portrait_byte(width, sizes@, tiles@, images@, x1, y1, c1)
            } else {
                0
            } by {
            lemma_texel(canvas.0 as int, canvas.1 as int, x1, y1, c1);
            if x1 == x0 && y1 == y0 && c1 == c0 {
            } else {
                if texel(canvas.0 as int, x1, y1, c1) == texel(canvas.0 as int, x0, y0, c0 as int) {
                    lemma_texel_injective(canvas.0 as int, canvas.1 as int, x1, y1, c1, x0, y0, c0 as int);
                }
                assert(pixels@[texel(canvas.0 as int, x1, y1, c1)] == before[texel(canvas.0 as int, x1, y1, c1)]);
                if 1 <= x1 <= size.0 && 1 <= y1 <= size.1 && tile_of(width, x1, y1) == t && (y1 - 1) % 8 == r
                    && (x1 - 1) % 8 == k && c1 == c0 {
                    lemma_texel_tile(width, height, x1, y1);
                }
            }
        }
    }
}

/// Copies row `r` of block `t`, `w` texels wide.
#[verifier::loop_isolation(false)]
fn copy_row(
    pixels: &mut Vec<u8>,
    data: &Vec<u8>,
    size: (u32, u32),
    sizes: &Vec<(u32, u32)>,
    tiles: &Vec<PortraitTile>,
    images: &Vec<SourceImage>,
    canvas: (u32, u32),
    t: usize,
    bx: u32,
    by: u32,
    r: u32,
    w: u32,
    sx: u32,
    sy: u32,
    sw: u32,
    sh: u32,
)
    requires
        size.0 > 0,
        size.1 > 0,
        size.0 + 2 <= canvas.0,
        size.1 + 2 <= canvas.1,
        canvas.0 * canvas.1 * 4 <= u32::MAX,
        old(pixels)@.len() == canvas.0 * canvas.1 * 4,
        images@.len() == sizes@.len(),
        tiles@.len() == blocks(size.0 as int) * blocks(size.1 as int),
        t < tiles@.len(),
        bx == (t as int % blocks(size.0 as int)) * 8 + 1,
        by == (t as int / blocks(size.0 as int)) * 8 + 1,
        tiles@[t as int].image < sizes@.len(),
        sizes@[tiles@[t as int].image as int] == (sw, sh),
        sw * sh * 4 <= u32::MAX,
        images@[tiles@[t as int].image as int].data == Some(*data),
        data@.len() >= sw * sh * 4,
        sx == source_x(sizes@, tiles@[t as int]),
        sy == source_y(sizes@, tiles@[t as int]),
        r < min8(size.1 - (t as int / blocks(size.0 as int)) * 8),
        w == min8(size.0 - (t as int % blocks(size.0 as int)) * 8),
        sx + w <= sw,
        sy + r < sh,
        copy_state(old(pixels)@, size, sizes@, tiles@, images@, canvas, t as int, r as int, 0, 0),
    ensures
        final(pixels)@.len() == old(pixels)@.len(),
        copy_state(final(pixels)@, size, sizes@, tiles@, images@, canvas, t as int, r + 1, 0, 0),
{
    let ghost width = size.0 as int;
    let ghost height = size.1 as int;
    let mut k: u32 = 0;
    while k < w
        invariant
            k <= w,
            pixels@.len() == canvas.0 * canvas.1 * 4,
            copy_state(pixels@, size, sizes@, tiles@, images@, canvas, t as int, r as int, k as int, 0),
        decreases w - k,
    {
        let mut c0: u32 = 0;
        while c0 < 4
            invariant
                k < w,
                c0 <= 4,
                pixels@.len() == canvas.0 * canvas.1 * 4,
                copy_state(pixels@, size, sizes@, tiles@, images@, canvas, t as int, r as int, k as int, c0 as int),
            decreases 4 - c0,
        {
            copy_byte(pixels, data, size, sizes, tiles, images, canvas, t, bx, by, r, k, c0, sx, sy, sw, sh);
            c0 = c0 + 1;
        }
        proof {
            assert forall|x: int, y: int, c: int|
                0 <= x < canvas.0 && 0 <= y < canvas.1 && 0 <= c < 4 implies #[trigger] pixels@[texel(
                    canvas.0 as int,
                    x,
                    y,
                    c,
                )] == if 1 <= x <= size.0 && 1 <= y <= size.1 && copied(width, x, y, c, t as int, r as int, k + 1, 0) {
                    portrait_byte(width, sizes@, tiles@, images@, x, y, c)
                } else {
                    0
                } by {
                assert(copied(width, x, y, c, t as int, r as int, k + 1, 0) == copied(
                    width,
                    x,
                    y,
                    c,
                    t as int,
                    r as int,
                    k as int,
                    4,
                ));
            }
        }
        k = k + 1;
    }
    proof {
        assert forall|x: int, y: int, c: int|
            0 <= x < canvas.0 && 0 <= y < canvas.1 && 0 <= c < 4 implies #[trigger] pixels@[texel(
                canvas.0 as int,
                x,
                y,
                c,
            )] == if 1 <= x <= size.0 && 1 <= y <= size.1 && copied(width, x, y, c, t as int, r + 1, 0, 0) {
                portrait_byte(width, sizes@, tiles@, images@, x, y, c)
            } else {
                0
            } by {
            if 1 <= x <= size.0 && 1 <= y <= size.1 && tile_of(width, x, y) == t {
                lemma_texel_tile(width, height, x, y);
            }
        }
    }
}

/// Writes the final byte of texel (`x`, `y`), byte `c`, taking it from texel
/// (`from_x`, `from_y`), which already holds the same final byte.
fn fill_texel(
    pixels: &mut Vec<u8>,
    size: (u32, u32),
    sizes: &Vec<(u32, u32)>,
    tiles: &Vec<PortraitTile>,
    images: &Vec<SourceImage>,
    canvas: (u32, u32),
    Ghost(filled): Ghost<spec_fn(int, int, int) -> bool>,
    x: u32,
    y: u32,
    c: u32,
    from_x: u32,
    from_y: u32,
)
    requires
        canvas.0 * canvas.1 * 4 <= u32::MAX,
        old(pixels)@.len() == canvas.0 * canvas.1 * 4,
        x < canvas.0,
        y < canvas.1,
        from_x < canvas.0,
        from_y < canvas.1,
        c < 4,
        filled(from_x as int, from_y as int, c as int),
        canvas_byte(size, sizes@, tiles@, images@, x as int, y as int, c as int) == canvas_byte(
            size,
            sizes@,
            tiles@,
            images@,
            from_x as int,
            from_y as int,
            c as int,
        ),
        canvas_state(old(pixels)@, size, sizes@, tiles@, images@, canvas, filled),
    ensures
        final(pixels)@.len() == old(pixels)@.len(),
        canvas_state(
            final(pixels)@,
            size,
            sizes@,
            tiles@,
            images@,
            canvas,
            |a: int, b: int, d: int| filled(a, b, d) || (a == x && b == y && d == c),
        ),
{
    let from = texel_index(canvas.0, canvas.1, from_x, from_y, c);
    let to = texel_index(canvas.0, canvas.1, x, y, c);
    let value = pixels[from];
    let ghost before = pixels@;
    pixels.set(to, value);
    proof {
        let grown = |a: int, b: int, d: int| filled(a, b, d) || (a == x && b == y && d == c);
        assert forall|x1: int, y1: int, c1: int|
            0 <= x1 < canvas.0 && 0 <= y1 < canvas.1 && 0 <= c1 < 4 implies #[trigger] pixels@[texel(
                canvas.0 as int,
                x1,
                y1,
                c1,
            )] == if grown(x1, y1, c1) {
                canvas_byte(size, sizes@, tiles@, images@, x1, y1, c1)
            } else {
                0
            } by {
            lemma_texel(canvas.0 as int, canvas.1 as int, x1, y1, c1);
            if x1 == x && y1 == y && c1 == c {
            } else if texel(canvas.0 as int, x1, y1, c1) == texel(canvas.0 as int, x as int, y as int, c as int) {
                lemma_texel_injective(canvas.0 as int, canvas.1 as int, x1, y1, c1, x as int, y as int, c as int);
            }
        }
    }
}

/// Composes a portrait of `size` texels on a canvas of `canvas` texels, as
/// 8-bit RGBA rows.
///
/// Block `t` of the portrait, in row-major order over its 8×8 blocks, is copied
/// from block `tiles[t].block` of source `images[tiles[t].image]`, whose size is
/// recorded as `sizes[tiles[t].image]`. The portrait starts one texel into the
/// canvas; the texels around it repeat its nearest edge texel, and the rest of
/// the canvas stays transparent black. The inputs are checked in this order,
/// and the first failure is returned: the canvas and source counts, each source
/// in turn, the number of blocks, then each block in turn.
#[verifier::loop_isolation(false)]
pub fn compose(
    size: (u32, u32),
    sizes: &Vec<(u32, u32)>,
    tiles: &Vec<PortraitTile>,
    images: &Vec<SourceImage>,
    canvas: (u32, u32),
) -> (result: Result<Vec<u8>, CanvasError>)
    requires
        canvas.0 * canvas.1 * 4 <= u32::MAX,
        forall|i: int|
            0 <= i < sizes@.len() && #[trigger] reaches_source(size, sizes@, images@, canvas, i) ==> sizes@[i].0
                * sizes@[i].1 * 4 <= u32::MAX,
        forall|t: int|
            0 <= t < tiles@.len() && #[trigger] reaches_tile(size, sizes@, tiles@, images@, canvas, t) ==> {
                let sw = sizes@[tiles@[t].image as int].0;
                &&& sw > 0
                &&& (tiles@[t].block as int / blocks(sw as int)) * 8 + 8 <= u32::MAX
            },
    ensures
        match result {
            Ok(pixels) => {
                &&& compose_error(size, sizes@, tiles@, images@, canvas) is None
                &&& pixels@.len() == canvas.0 * canvas.1 * 4
                &&& forall|x: int, y: int, c: int|
                    0 <= x < canvas.0 && 0 <= y < canvas.1 && 0 <= c < 4 ==> pixels@[#[trigger] texel(
                        canvas.0 as int,
                        x,
                        y,
                        c,
                    )] == canvas_byte(size, sizes@, tiles@, images@, x, y, c)
            },
            Err(e) => compose_error(size, sizes@, tiles@, images@, canvas) == Some(e),
        },
{
    let ghost width = size.0 as int;
    let ghost height = size.1 as int;
    if !(size.0 > 0 && size.1 > 0 && size.0 <= canvas.0.saturating_sub(2) && size.1 <= canvas.1.saturating_sub(2)
        && images.len() == sizes.len()) {
        return Err(CanvasError::InvalidCanvas);
    }
    let mut i: usize = 0;
    while i < images.len()
        invariant
            i <= images@.len(),
            first_source_error(images@, sizes@, i as int) is None,
        decreases images@.len() - i,
    {
        let image = &images[i];
        let (w, h) = sizes[i];
        if !(image.rgba8 && image.width == w && image.height == h) {
            proof {
                lemma_first_source_error_stable(images@, sizes@, i + 1, images@.len() as int);
            }
            return Err(CanvasError::SourceFormat);
        }
        assert(reaches_source(size, sizes@, images@, canvas, i as int));
        let need: usize = (w * h * 4) as usize;
        let resident = match &image.data {
            Some(data) => data.len() >= need,
            None => false,
        };
        if !resident {
            proof {
                lemma_first_source_error_stable(images@, sizes@, i + 1, images@.len() as int);
            }
            return Err(CanvasError::SourceUnavailable);
        }
        i = i + 1;
    }
    assert(canvas.0 * 4 <= canvas.0 * canvas.1 * 4) by (nonlinear_arith)
        requires
            canvas.1 >= 1,
    ;
    let columns: usize = (size.0 as usize + 7) / 8;
    assert(canvas.1 * 4 <= canvas.0 * canvas.1 * 4) by (nonlinear_arith)
        requires
            canvas.0 >= 1,
    ;
    let rows: usize = (size.1 as usize + 7) / 8;
    assert(columns * rows <= size.0 * size.1) by (nonlinear_arith)
        requires
            0 < columns <= size.0,
            0 < rows <= size.1,
    ;
    assert(size.0 * size.1 <= canvas.0 * canvas.1) by (nonlinear_arith)
        requires
            size.0 <= canvas.0,
            size.1 <= canvas.1,
    ;
    if tiles.len() != columns * rows {
        return Err(CanvasError::IncompleteBlockMap);
    }
    let mut pixels: Vec<u8> = vec![0u8; (canvas.0 * canvas.1 * 4) as usize];
    proof {
        assert forall|x: int, y: int, c: int|
            0 <= x < canvas.0 && 0 <= y < canvas.1 && 0 <= c < 4 implies #[trigger] pixels@[texel(
                canvas.0 as int,
                x,
                y,
                c,
            )] == if 1 <= x <= size.0 && 1 <= y <= size.1 && copied(width, x, y, c, 0, 0, 0, 0) {
                portrait_byte(width, sizes@, tiles@, images@, x, y, c)
            } else {
                0
            } by {
            lemma_texel(canvas.0 as int, canvas.1 as int, x, y, c);
            assert(cloned(0u8, pixels@[texel(canvas.0 as int, x, y, c)]));
            if 1 <= x <= size.0 && 1 <= y <= size.1 {
                lemma_texel_tile(width, height, x, y);
            }
        }
    }
    let mut t: usize = 0;
    while t < tiles.len()
        invariant
            t <= tiles@.len(),
            pixels@.len() == canvas.0 * canvas.1 * 4,
            copy_state(pixels@, size, sizes@, tiles@, images@, canvas, t as int, 0, 0, 0),
            first_tile_error(width, height, sizes@, tiles@, t as int) is None,
        decreases tiles@.len() - t,
    {
        let tile = tiles[t];
        if tile.image as usize >= sizes.len() {
            proof {
                lemma_first_tile_error_stable(width, height, sizes@, tiles@, t + 1, tiles@.len() as int);
            }
            return Err(CanvasError::MissingImage);
        }
        let (sw, sh) = sizes[tile.image as usize];
        proof {
            let k = tile.image as int;
            assert(reaches_tile(size, sizes@, tiles@, images@, canvas, t as int));
            if first_source_error(images@, sizes@, k) is Some {
                lemma_first_source_error_stable(images@, sizes@, k, images@.len() as int);
            }
            lemma_no_source_error(images@, sizes@, images@.len() as int, k);
            assert(reaches_source(size, sizes@, images@, canvas, k));
        }
        assert(sw > 0 && sw * sh * 4 <= u32::MAX);
        let sc: u32 = sw / 8 + if sw % 8 == 0 { 0 } else { 1 };
        assert(sc == blocks(sw as int));
        let sx: u32 = tile.block % sc * 8;
        let sy: u32 = tile.block / sc * 8;
        proof {
            vstd::arithmetic::div_mod::lemma_fundamental_div_mod(t as int, columns as int);
            let q = t as int / columns as int;
            let m = t as int % columns as int;
            if q >= rows {
                assert(t >= columns * rows) by (nonlinear_arith)
                    requires
                        t == columns * q + m,
                        0 <= m,
                        q >= rows,
                        columns > 0,
                ;
            }
        }
        let bx: u32 = (t % columns * 8 + 1) as u32;
        let by: u32 = (t / columns * 8 + 1) as u32;
        let w: u32 = if size.0 - (bx - 1) < 8 { size.0 - (bx - 1) } else { 8 };
        let h: u32 = if size.1 - (by - 1) < 8 { size.1 - (by - 1) } else { 8 };
        if !(sx as u64 + w as u64 <= sw as u64 && sy + h <= sh) {
            proof {
                lemma_first_tile_error_stable(width, height, sizes@, tiles@, t + 1, tiles@.len() as int);
            }
            return Err(CanvasError::SourcePadding);
        }
        let data: &Vec<u8> = match &images[tile.image as usize].data {
            Some(data) => data,
            None => {
                proof {
                    lemma_no_source_error(images@, sizes@, images@.len() as int, tile.image as int);
                }
                return Err(CanvasError::SourceUnavailable);
            },
        };
        proof {
            lemma_no_source_error(images@, sizes@, images@.len() as int, tile.image as int);
        }
        let mut r: u32 = 0;
        while r < h
            invariant
                r <= h,
                pixels@.len() == canvas.0 * canvas.1 * 4,
                copy_state(pixels@, size, sizes@, tiles@, images@, canvas, t as int, r as int, 0, 0),
            decreases h - r,
        {
            copy_row(&mut pixels, data, size, sizes, tiles, images, canvas, t, bx, by, r, w, sx, sy, sw, sh);
            r = r + 1;
        }
        proof {
            assert forall|x: int, y: int, c: int|
                0 <= x < canvas.0 && 0 <= y < canvas.1 && 0 <= c < 4 implies #[trigger] pixels@[texel(
                    canvas.0 as int,
                    x,
                    y,
                    c,
                )] == if 1 <= x <= size.0 && 1 <= y <= size.1 && copied(width, x, y, c, t + 1, 0, 0, 0) {
                    portrait_byte(width, sizes@, tiles@, images@, x, y, c)
                } else {
                    0
                } by {
                if 1 <= x <= size.0 && 1 <= y <= size.1 && tile_of(width, x, y) == t {
                    lemma_texel_tile(width, height, x, y);
                }
            }
        }
        t = t + 1;
    }
    proof {
        assert forall|x: int, y: int, c: int|
            0 <= x < canvas.0 && 0 <= y < canvas.1 && 0 <= c < 4 implies #[trigger] pixels@[texel(
                canvas.0 as int,
                x,
                y,
                c,
            )] == if sides_filled(width, height, 1, 0)(x, y, c) {
                canvas_byte(size, sizes@, tiles@, images@, x, y, c)
            } else {
                0
            } by {
            if 1 <= x <= size.0 && 1 <= y <= size.1 {
                lemma_texel_tile(width, height, x, y);
            }
        }
    }
    let mut y: u32 = 1;
    while y <= size.1
        invariant
            1 <= y <= size.1 + 1,
            pixels@.len() == canvas.0 * canvas.1 * 4,
            canvas_state(pixels@, size, sizes@, tiles@, images@, canvas, sides_filled(width, height, y as int, 0)),
        decreases size.1 + 1 - y,
    {
        let mut c: u32 = 0;
        while c < 4
            invariant
                1 <= y <= size.1,
                c <= 4,
                pixels@.len() == canvas.0 * canvas.1 * 4,
                canvas_state(
                    pixels@,
                    size,
                    sizes@,
                    tiles@,
                    images@,
                    canvas,
                    sides_filled(width, height, y as int, c as int),
                ),
            decreases 4 - c,
        {
            let ghost f = sides_filled(width, height, y as int, c as int);
            fill_texel(&mut pixels, size, sizes, tiles, images, canvas, Ghost(f), 0, y, c, 1, y);
            let ghost g = |a: int, b: int, d: int| f(a, b, d) || (a == 0 && b == y && d == c);
            fill_texel(&mut pixels, size, sizes, tiles, images, canvas, Ghost(g), size.0 + 1, y, c, size.0, y);
            proof {
                let h = |a: int, b: int, d: int| g(a, b, d) || (a == size.0 + 1 && b == y && d == c);
                assert(h =~= sides_filled(width, height, y as int, c + 1));
            }
            c = c + 1;
        }
        proof {
            assert(sides_filled(width, height, y as int, 4) =~= sides_filled(width, height, y + 1, 0));
        }
        y = y + 1;
    }
    proof {
        assert(sides_filled(width, height, height + 1, 0) =~= rows_filled(width, height, 0, 0));
    }
    let mut x: u32 = 0;
    while x <= size.0 + 1
        invariant
            x <= size.0 + 2,
            pixels@.len() == canvas.0 * canvas.1 * 4,
            canvas_state(pixels@, size, sizes@, tiles@, images@, canvas, rows_filled(width, height, x as int, 0)),
        decreases size.0 + 2 - x,
    {
        let mut c: u32 = 0;
        while c < 4
            invariant
                x <= size.0 + 1,
                c <= 4,
                pixels@.len() == canvas.0 * canvas.1 * 4,
                canvas_state(
                    pixels@,
                    size,
                    sizes@,
                    tiles@,
                    images@,
                    canvas,
                    rows_filled(width, height, x as int, c as int),
                ),
            decreases 4 - c,
        {
            let ghost f = rows_filled(width, height, x as int, c as int);
            fill_texel(&mut pixels, size, sizes, tiles, images, canvas, Ghost(f), x, 0, c, x, 1);
            let ghost g = |a: int, b: int, d: int| f(a, b, d) || (a == x && b == 0 && d == c);
            fill_texel(&mut pixels, size, sizes, tiles, images, canvas, Ghost(g), x, size.1 + 1, c, x, size.1);
            proof {
                let h = |a: int, b: int, d: int| g(a, b, d) || (a == x && b == size.1 + 1 && d == c);
                assert(h =~= rows_filled(width, height, x as int, c + 1));
            }
            c = c + 1;
        }
        proof {
            assert(rows_filled(width, height, x as int, 4) =~= rows_filled(width, height, x + 1, 0));
        }
        x = x + 1;
    }
    proof {
        assert forall|x1: int, y1: int, c1: int|
            0 <= x1 < canvas.0 && 0 <= y1 < canvas.1 && 0 <= c1 < 4 implies #[trigger] pixels@[texel(
                canvas.0 as int,
                x1,
                y1,
                c1,
            )] == canvas_byte(size, sizes@, tiles@, images@, x1, y1, c1) by {
            assert(rows_filled(width, height, width + 2, 0)(x1, y1, c1) == (x1 <= width + 1 && y1 <= height + 1));
        }
    }
    Ok(pixels)
}

} // verus!
