//! Frames as grids of textures: how an image is cut into tiles that the
//! graphics device supports.

use std::rc::Rc;
use vstd::arithmetic::div_mod::lemma_fundamental_div_mod_converse;
use vstd::prelude::*;

use super::errors::Error;
use super::errors::TextureCreationError;
use super::image_loader::DecodedImage;
use super::image_loader::ImageView;
use super::image_loader::Orientation;

verus! {

/// No tile is wider or higher than this, whatever the device supports.
pub const MAX_TILE_EDGE: u32 = 4096;

/// No texture gets more mipmap levels than this.
pub const MAX_MIPMAP_LEVELS: u32 = 4;

/// What the device is to do about the mipmaps of a new texture.
#[derive(Debug, Clone, Copy, PartialEq, Eq, Structural)]
pub enum Mipmaps {
    /// No mipmap is allocated or generated.
    NoMipmap,
    /// Mipmaps are generated for at most this many levels below the top one.
    AutoGeneratedMax(u32),
}

/// The mathematical content of a [`TileImage`].
pub struct TileView {
    pub width: u32,
    pub height: u32,
    pub pixels: Seq<u8>,
    pub mipmaps: Mipmaps,
}

impl TileView {
    /// A tile has at least one pixel, and four bytes for each pixel.
    pub open spec fn wf(self) -> bool {
        &&& self.width >= 1
        &&& self.height >= 1
        &&& self.pixels.len() == 4 * self.width * self.height
    }
}

/// The RGBA8 pixels of one texture, as they are handed to the device.
#[derive(Debug)]
pub struct TileImage {
    pub width: u32,
    pub height: u32,
    pub pixels: Vec<u8>,
    pub mipmaps: Mipmaps,
}

impl View for TileImage {
    type V = TileView;

    open spec fn view(&self) -> TileView {
        TileView {
            width: self.width,
            height: self.height,
            pixels: self.pixels@,
            mipmaps: self.mipmaps,
        }
    }
}

/// The graphics device, as far as the cache needs it: the largest texture
/// that it supports, and a way to turn a tile into a texture `T`.
#[verifier::reject_recursive_types(T)]
pub struct Gpu<T, U: Fn(&TileImage) -> Result<T, TextureCreationError>> {
    max_texture_size: u32,
    upload: U,
    marker: core::marker::PhantomData<T>,
}

impl<T, U: Fn(&TileImage) -> Result<T, TextureCreationError>> Gpu<T, U> {
    #[verifier::type_invariant]
    spec fn inv(&self) -> bool {
        &&& self.max_texture_size >= 2
        &&& forall|tile: &TileImage| tile@.wf() ==> call_requires(self.upload, (tile,))
    }

    pub closed spec fn spec_max_texture_size(&self) -> u32 {
        self.max_texture_size
    }

    /// The way in which the device is handed a tile.
    pub closed spec fn uploader(&self) -> U {
        self.upload
    }

    /// `outcome` is what the device answered when it was handed `tile`.
    pub open spec fn uploaded(&self, tile: TileView, outcome: Result<T, TextureCreationError>) -> bool {
        exists|t: &TileImage| t@ == tile && call_ensures(self.uploader(), (t,), outcome)
    }

    /// The device made a texture when it was handed `tile`.
    pub open spec fn accepted(&self, tile: TileView) -> bool {
        exists|texture: T| #[trigger] self.uploaded(tile, Ok(texture))
    }

    /// A device that supports textures of up to `max_texture_size` pixels
    /// in each dimension and creates them with `upload`.
    pub fn new(max_texture_size: u32, upload: U) -> (gpu: Self)
        requires
            max_texture_size >= 2,
            forall|tile: &TileImage| tile@.wf() ==> call_requires(upload, (tile,)),
        ensures
            gpu.spec_max_texture_size() == max_texture_size,
            gpu.uploader() == upload,
    {
        Gpu { max_texture_size, upload, marker: core::marker::PhantomData }
    }

    pub fn max_texture_size(&self) -> (size: u32)
        ensures
            size == self.spec_max_texture_size(),
            size >= 2,
    {
        proof {
            use_type_invariant(self);
        }
        self.max_texture_size
    }

    /// Hands the tile to the device.
    pub fn upload(&self, tile: &TileImage) -> (outcome: Result<T, TextureCreationError>)
        requires
            tile@.wf(),
        ensures
            self.uploaded(tile@, outcome),
    {
        proof {
            use_type_invariant(self);
        }
        (self.upload)(tile)
    }
}

/// The edge of the tiles on a device that supports textures of up to
/// `max_texture_size` pixels: half of that, and at most [`MAX_TILE_EDGE`].
/// Small textures are easier to move in and out of the device's memory.
pub open spec fn tile_edge(max_texture_size: u32) -> int {
    if max_texture_size / 2 < MAX_TILE_EDGE {
        (max_texture_size / 2) as int
    } else {
        MAX_TILE_EDGE as int
    }
}

/// The number of tiles of edge `edge` that cover `len` pixels.
pub open spec fn grid_cells(len: u32, edge: int) -> int {
    (len - 1) / edge + 1
}

/// The number of pixels that the tile at `index` covers of `len` pixels.
pub open spec fn cell_extent(len: u32, edge: int, index: int) -> int {
    if len - index * edge < edge {
        len - index * edge
    } else {
        edge
    }
}

/// The bytes of the rectangle of `w` by `h` pixels whose top left corner is
/// at `(x, y)` in an image that is `img_w` pixels wide, row by row.
pub open spec fn cell_pixels(img_w: int, bytes: Seq<u8>, x: int, y: int, w: int, h: int) -> Seq<u8> {
    Seq::new((4 * w * h) as nat, |i: int| bytes[((y + i / (4 * w)) * img_w + x) * 4 + i % (4 * w)])
}

/// The largest `n` with `2^n <= x`, for a positive `x`.
pub open spec fn floor_log2(x: int) -> int
    decreases x,
{
    if x <= 1 {
        0
    } else {
        1 + floor_log2(x / 2)
    }
}

/// The number of mipmap levels that the tiles of an image get.
pub open spec fn mipmap_levels(img_w: u32, img_h: u32) -> int {
    let x_pow = floor_log2(img_w as int);
    let y_pow = floor_log2(img_h as int);
    let pow = if x_pow < y_pow { x_pow } else { y_pow };
    if pow < MAX_MIPMAP_LEVELS { pow } else { MAX_MIPMAP_LEVELS as int }
}

pub open spec fn mipmaps_for(img_w: u32, img_h: u32) -> Mipmaps {
    if mipmap_levels(img_w, img_h) == 1 {
        Mipmaps::NoMipmap
    } else {
        Mipmaps::AutoGeneratedMax(mipmap_levels(img_w, img_h) as u32)
    }
}

/// The tile in row `row` and column `col` of the grid that covers `image`
/// with tiles of edge `edge`.
pub open spec fn frame_tile(image: ImageView, edge: int, row: int, col: int) -> TileView {
    let w = cell_extent(image.width, edge, col);
    let h = cell_extent(image.height, edge, row);
    TileView {
        width: w as u32,
        height: h as u32,
        pixels: cell_pixels(image.width as int, image.pixels, col * edge, row * edge, w, h),
        mipmaps: mipmaps_for(image.width, image.height),
    }
}

/// The tile at place `k` of the grid that covers `image` with tiles of
/// edge `edge`, counted row by row.
pub open spec fn grid_tile(image: ImageView, edge: int, k: int) -> TileView {
    frame_tile(
        image,
        edge,
        k / grid_cells(image.width, edge),
        k % grid_cells(image.width, edge),
    )
}

/// The device has made textures of the tiles of `image`, row by row, until
/// it refused one of them with the error `e`.
pub open spec fn refused<T, U: Fn(&TileImage) -> Result<T, TextureCreationError>>(
    display: &Gpu<T, U>,
    image: ImageView,
    e: TextureCreationError,
) -> bool {
    let edge = tile_edge(display.spec_max_texture_size());
    exists|k: int|
        {
            &&& 0 <= k < grid_cells(image.height, edge) * grid_cells(image.width, edge)
            &&& display.uploaded(#[trigger] grid_tile(image, edge, k), Err(e))
            &&& forall|j: int| 0 <= j < k ==> display.accepted(#[trigger] grid_tile(image, edge, j))
        }
}

fn log2_floor(x: u32) -> (pow: u32)
    requires
        x >= 1,
    ensures
        pow == floor_log2(x as int),
{
    let mut n: u32 = x;
    let mut pow: u32 = 0;
    while n > 1
        invariant
            n >= 1,
            pow + floor_log2(n as int) == floor_log2(x as int),
            pow + n <= x,
        decreases n,
    {
        n = n / 2;
        pow = pow + 1;
    }
    pow
}

/// What the device does about the mipmaps of the tiles of an image of
/// `img_w` by `img_h` pixels.
pub fn choose_mipmaps(img_w: u32, img_h: u32) -> (mipmaps: Mipmaps)
    requires
        img_w >= 1,
        img_h >= 1,
    ensures
        mipmaps == mipmaps_for(img_w, img_h),
{
    let x_pow: u32 = log2_floor(img_w);
    let y_pow: u32 = log2_floor(img_h);
    let pow: u32 = if x_pow < y_pow { x_pow } else { y_pow };
    let max_mipmap_levels: u32 = if pow < MAX_MIPMAP_LEVELS { pow } else { MAX_MIPMAP_LEVELS };
    if max_mipmap_levels == 1 {
        Mipmaps::NoMipmap
    } else {
        Mipmaps::AutoGeneratedMax(max_mipmap_levels)
    }
}

/// A rectangle of one more row is the rectangle followed by that row.
proof fn lemma_cell_pixels_next_row(img_w: int, bytes: Seq<u8>, x: int, y: int, w: int, h: int)
    requires
        w >= 1,
        h >= 0,
        x >= 0,
        y >= 0,
        x + w <= img_w,
        (y + h + 1) * img_w * 4 <= bytes.len(),
    ensures
        0 <= ((y + h) * img_w + x) * 4,
        ((y + h) * img_w + x) * 4 + 4 * w <= bytes.len(),
        cell_pixels(img_w, bytes, x, y, w, h + 1) == cell_pixels(img_w, bytes, x, y, w, h)
            + bytes.subrange(((y + h) * img_w + x) * 4, ((y + h) * img_w + x) * 4 + 4 * w),
{
    let start = ((y + h) * img_w + x) * 4;
    assert(start >= 0 && start + 4 * w <= (y + h + 1) * img_w * 4) by (nonlinear_arith)
        requires
            start == ((y + h) * img_w + x) * 4,
            w >= 1,
            h >= 0,
            x >= 0,
            y >= 0,
            x + w <= img_w,
    ;
    let longer = cell_pixels(img_w, bytes, x, y, w, h + 1);
    let shorter = cell_pixels(img_w, bytes, x, y, w, h);
    let row = bytes.subrange(start, start + 4 * w);
    assert(4 * w * (h + 1) == 4 * w * h + 4 * w && 4 * w * h >= 0) by (nonlinear_arith)
        requires
            w >= 1,
            h >= 0,
    ;
    assert(longer.len() == shorter.len() + row.len());
    assert forall|i: int| 0 <= i < longer.len() implies longer[i] == (shorter + row)[i] by {
        if i >= 4 * w * h {
            let j = i - 4 * w * h;
            assert(i == h * (4 * w) + j) by (nonlinear_arith)
                requires
                    j == i - 4 * w * h,
            ;
            lemma_fundamental_div_mod_converse(i, 4 * w, h, j);
            assert((shorter + row)[i] == row[j]);
        }
    }
    assert(longer =~= shorter + row);
}

/// Where the rectangle is as wide as the image, its rows follow each other
/// in the image's bytes.
proof fn lemma_cell_pixels_full_width(img_w: int, bytes: Seq<u8>, y: int, h: int)
    requires
        img_w >= 1,
        h >= 0,
        y >= 0,
        (y + h) * img_w * 4 <= bytes.len(),
    ensures
        0 <= y * img_w * 4,
        y * img_w * 4 + h * img_w * 4 <= bytes.len(),
        cell_pixels(img_w, bytes, 0, y, img_w, h) == bytes.subrange(
            y * img_w * 4,
            y * img_w * 4 + h * img_w * 4,
        ),
{
    let start = y * img_w * 4;
    assert(start >= 0 && start + h * img_w * 4 == (y + h) * img_w * 4 && 4 * img_w * h == h * img_w
        * 4 && h * img_w * 4 >= 0) by (nonlinear_arith)
        requires
            start == y * img_w * 4,
            img_w >= 1,
            h >= 0,
            y >= 0,
    ;
    let cell = cell_pixels(img_w, bytes, 0, y, img_w, h);
    let range = bytes.subrange(start, start + h * img_w * 4);
    assert forall|i: int| 0 <= i < cell.len() implies cell[i] == range[i] by {
        let q = i / (4 * img_w);
        let r = i % (4 * img_w);
        vstd::arithmetic::div_mod::lemma_fundamental_div_mod(i, 4 * img_w);
        assert(((y + q) * img_w + 0) * 4 + r == start + i) by (nonlinear_arith)
            requires
                i == (4 * img_w) * q + r,
                start == y * img_w * 4,
        ;
    }
    assert(cell =~= range);
}

/// Copies the bytes of one rectangle out of an image: a single range where
/// the rectangle is as wide as the image, row by row otherwise.
pub fn copy_cell(
    img_w: u32,
    img_bytes: &[u8],
    offset_x: u32,
    offset_y: u32,
    cell_w: u32,
    cell_h: u32,
) -> (cell: Vec<u8>)
    requires
        cell_w >= 1,
        offset_x + cell_w <= img_w,
        (offset_y + cell_h) * img_w * 4 <= img_bytes@.len(),
    ensures
        cell@ == cell_pixels(
            img_w as int,
            img_bytes@,
            offset_x as int,
            offset_y as int,
            cell_w as int,
            cell_h as int,
        ),
{
    let mut cell_pixels: Vec<u8> = Vec::new();
    let total: usize = img_bytes.len();
    if img_w == cell_w {
        proof {
            lemma_cell_pixels_full_width(img_w as int, img_bytes@, offset_y as int, cell_h as int);
            assert(offset_y * img_w <= offset_y * img_w * 4 && cell_h * img_w <= cell_h * img_w * 4
                && offset_y * img_w >= 0 && cell_h * img_w >= 0) by (nonlinear_arith)
                requires
                    offset_y >= 0,
                    cell_h >= 0,
                    img_w >= 1,
            ;
        }
        let start: usize = (offset_y as usize * img_w as usize) * 4;
        let end: usize = start + (cell_h as usize * cell_w as usize) * 4;
        cell_pixels.extend_from_slice(&img_bytes[start..end]);
        return cell_pixels;
    }
    let mut row: u32 = 0;
    assert(cell_pixels@ =~= self::cell_pixels(
        img_w as int,
        img_bytes@,
        offset_x as int,
        offset_y as int,
        cell_w as int,
        0,
    ));
    while row < cell_h
        invariant
            row <= cell_h,
            cell_w >= 1,
            offset_x + cell_w <= img_w,
            (offset_y + cell_h) * img_w * 4 <= img_bytes@.len(),
            img_bytes@.len() == total,
            cell_pixels@ == self::cell_pixels(
                img_w as int,
                img_bytes@,
                offset_x as int,
                offset_y as int,
                cell_w as int,
                row as int,
            ),
        decreases cell_h - row,
    {
        proof {
            assert((offset_y + row + 1) * img_w * 4 <= (offset_y + cell_h) * img_w * 4
                && offset_y + row + 1 <= (offset_y + row + 1) * img_w * 4
                && (offset_y + row) * img_w >= 0
                && (offset_y + row) * img_w <= ((offset_y + row) * img_w + offset_x) * 4)
                by (nonlinear_arith)
                requires
                    row < cell_h,
                    offset_y >= 0,
                    row >= 0,
                    offset_x >= 0,
                    img_w >= 1,
            ;
            lemma_cell_pixels_next_row(
                img_w as int,
                img_bytes@,
                offset_x as int,
                offset_y as int,
                cell_w as int,
                row as int,
            );
        }
        let y: usize = offset_y as usize + row as usize;
        // Each pixel is four bytes wide.
        let start: usize = (y * img_w as usize + offset_x as usize) * 4;
        let end: usize = start + cell_w as usize * 4;
        cell_pixels.extend_from_slice(&img_bytes[start..end]);
        row = row + 1;
    }
    cell_pixels
}

/// Creates the texture of one rectangle of an image. `img_bytes` holds the
/// RGBA8 pixels of the whole image.
pub fn texture_from_img_rect<T, U: Fn(&TileImage) -> Result<T, TextureCreationError>>(
    display: &Gpu<T, U>,
    img_w: u32,
    img_h: u32,
    img_bytes: &[u8],
    offset_x: u32,
    offset_y: u32,
    cell_w: u32,
    cell_h: u32,
) -> (texture: Result<T, Error>)
    requires
        img_bytes@.len() == 4 * img_w * img_h,
        cell_w >= 1,
        cell_h >= 1,
        offset_x + cell_w <= img_w,
        offset_y + cell_h <= img_h,
    ensures
        match texture {
            Ok(tex) => display.uploaded(
                rect_tile(img_w, img_h, img_bytes@, offset_x, offset_y, cell_w, cell_h),
                Ok(tex),
            ),
            Err(Error::TextureCreationError(e)) => display.uploaded(
                rect_tile(img_w, img_h, img_bytes@, offset_x, offset_y, cell_w, cell_h),
                Err(e),
            ),
            Err(_) => false,
        },
{
    proof {
        assert((offset_y + cell_h) * img_w * 4 <= 4 * img_w * img_h && 4 * cell_w * cell_h == 4
            * (cell_w * cell_h) && cell_w * cell_h >= 0) by (nonlinear_arith)
            requires
                offset_y + cell_h <= img_h,
                img_w >= 0,
                cell_w >= 0,
                cell_h >= 0,
        ;
    }
    let cell_pixels = copy_cell(img_w, img_bytes, offset_x, offset_y, cell_w, cell_h);
    let mipmaps = choose_mipmaps(img_w, img_h);
    let raw_image = TileImage { width: cell_w, height: cell_h, pixels: cell_pixels, mipmaps };
    match display.upload(&raw_image) {
        Ok(tex) => Ok(tex),
        Err(e) => Err(Error::TextureCreationError(e)),
    }
}

/// The tile that [`texture_from_img_rect`] hands to the device.
pub open spec fn rect_tile(
    img_w: u32,
    img_h: u32,
    img_bytes: Seq<u8>,
    offset_x: u32,
    offset_y: u32,
    cell_w: u32,
    cell_h: u32,
) -> TileView {
    TileView {
        width: cell_w,
        height: cell_h,
        pixels: cell_pixels(
            img_w as int,
            img_bytes,
            offset_x as int,
            offset_y as int,
            cell_w as int,
            cell_h as int,
        ),
        mipmaps: mipmaps_for(img_w, img_h),
    }
}

/// One texture of the grid that makes up a frame.
pub struct TextureGridItem<T> {
    pub tex: T,
    pub col: u32,
    pub row: u32,
}

/// One frame of an image, resident on the device.
pub struct AnimationFrameTexture<T> {
    /// The largest texture that a device supports is limited, and an image
    /// may be larger. Such an image is split up into a grid of smaller
    /// textures, which are drawn side by side to appear as one surface.
    /// The grid is stored row by row.
    pub tex_grid: Rc<Vec<TextureGridItem<T>>>,
    /// Number of pixels between two adjacent cells in one dimension. The
    /// corner of the cell in column 3 and row 2 is at
    /// `(3 * cell_step_size, 2 * cell_step_size)`.
    pub cell_step_size: u32,
    pub grid_rows: u32,
    pub grid_cols: u32,
    pub delay_nano: u64,
    pub orientation: Orientation,
    /// The total width of the image: the sum of the widths of the textures
    /// of one row of the grid.
    pub w: u32,
    /// The total height of the image: the sum of the heights of the
    /// textures of one column of the grid.
    pub h: u32,
}

impl<T> Clone for AnimationFrameTexture<T> {
    /// Another handle to the same textures.
    fn clone(&self) -> (frame: Self)
        ensures
            frame == *self,
    {
        AnimationFrameTexture {
            tex_grid: Rc::clone(&self.tex_grid),
            cell_step_size: self.cell_step_size,
            grid_rows: self.grid_rows,
            grid_cols: self.grid_cols,
            delay_nano: self.delay_nano,
            orientation: self.orientation,
            w: self.w,
            h: self.h,
        }
    }
}

impl<T> AnimationFrameTexture<T> {
    /// The frame covers `image` on `display`: its grid has a cell for each
    /// tile, row by row, and each cell holds what the device made of its
    /// tile.
    pub open spec fn covers<U: Fn(&TileImage) -> Result<T, TextureCreationError>>(
        &self,
        display: &Gpu<T, U>,
        image: ImageView,
    ) -> bool {
        let edge = tile_edge(display.spec_max_texture_size());
        &&& self.w == image.width
        &&& self.h == image.height
        &&& self.cell_step_size == edge
        &&& self.grid_cols == grid_cells(image.width, edge)
        &&& self.grid_rows == grid_cells(image.height, edge)
        &&& self.tex_grid@.len() == self.grid_rows * self.grid_cols
        &&& forall|k: int|
            0 <= k < self.tex_grid@.len() ==> {
                &&& (#[trigger] self.tex_grid@[k]).row == k / (self.grid_cols as int)
                &&& self.tex_grid@[k].col == k % (self.grid_cols as int)
                &&& display.uploaded(grid_tile(image, edge, k), Ok(self.tex_grid@[k].tex))
            }
    }

    /// Splits the image into tiles and creates a texture for each. The
    /// first tile that the device refuses ends the work with its error.
    pub fn from_image<U: Fn(&TileImage) -> Result<T, TextureCreationError>>(
        display: &Gpu<T, U>,
        image: DecodedImage,
        delay_nano: u64,
        orientation: Orientation,
    ) -> (frame: Result<Self, Error>)
        ensures
            match frame {
                Ok(f) => {
                    &&& f.covers(display, image@)
                    &&& f.delay_nano == delay_nano
                    &&& f.orientation == orientation
                },
                Err(Error::TextureCreationError(e)) => refused(display, image@, e),
                Err(_) => false,
            },
    {
        let (w, h) = image.dimensions();
        let ghost view = image@;
        let img_bytes = image.into_raw();
        let mut tex_grid: Vec<TextureGridItem<T>> = Vec::new();

        let half: u32 = display.max_texture_size() / 2;
        let max_size: u32 = if half < MAX_TILE_EDGE { half } else { MAX_TILE_EDGE };
        let ghost edge = max_size as int;

        let grid_cols: u32 = ((w - 1) / max_size) + 1;
        let grid_rows: u32 = ((h - 1) / max_size) + 1;

        let mut row: u32 = 0;
        while row < grid_rows
            invariant
                row <= grid_rows,
                view == image@,
                view.wf(),
                view.width == w,
                view.height == h,
                view.pixels == img_bytes@,
                max_size >= 1,
                edge == max_size,
                edge == tile_edge(display.spec_max_texture_size()),
                grid_cols == grid_cells(w, edge),
                grid_rows == grid_cells(h, edge),
                tex_grid@.len() == row * grid_cols,
                forall|k: int|
                    0 <= k < tex_grid@.len() ==> {
                        &&& (#[trigger] tex_grid@[k]).row == k / (grid_cols as int)
                        &&& tex_grid@[k].col == k % (grid_cols as int)
                        &&& display.uploaded(grid_tile(view, edge, k), Ok(tex_grid@[k].tex))
                    },
            decreases grid_rows - row,
        {
            let mut col: u32 = 0;
            while col < grid_cols
                invariant
                    row < grid_rows,
                    col <= grid_cols,
                    view == image@,
                    view.wf(),
                    view.width == w,
                    view.height == h,
                    view.pixels == img_bytes@,
                    max_size >= 1,
                    edge == max_size,
                    edge == tile_edge(display.spec_max_texture_size()),
                    grid_cols == grid_cells(w, edge),
                    grid_rows == grid_cells(h, edge),
                    tex_grid@.len() == row * grid_cols + col,
                    forall|k: int|
                        0 <= k < tex_grid@.len() ==> {
                            &&& (#[trigger] tex_grid@[k]).row == k / (grid_cols as int)
                            &&& tex_grid@[k].col == k % (grid_cols as int)
                            &&& display.uploaded(grid_tile(view, edge, k), Ok(tex_grid@[k].tex))
                        },
                decreases grid_cols - col,
            {
                proof {
                    lemma_cell_in_image(w, edge, col as int);
                    lemma_cell_in_image(h, edge, row as int);
                    lemma_fundamental_div_mod_converse(
                        row * grid_cols + col,
                        grid_cols as int,
                        row as int,
                        col as int,
                    );
                }
                let offset_x: u32 = col * max_size;
                let offset_y: u32 = row * max_size;
                let cell_w: u32 = if w - offset_x < max_size { w - offset_x } else { max_size };
                let cell_h: u32 = if h - offset_y < max_size { h - offset_y } else { max_size };
                assert(rect_tile(w, h, img_bytes@, offset_x, offset_y, cell_w, cell_h) == grid_tile(
                    view,
                    edge,
                    row * grid_cols + col,
                ));
                let tex = match texture_from_img_rect(
                    display,
                    w,
                    h,
                    img_bytes.as_slice(),
                    offset_x,
                    offset_y,
                    cell_w,
                    cell_h,
                ) {
                    Ok(tex) => tex,
                    Err(e) => {
                        proof {
                            let k = row * grid_cols + col;
                            assert(e matches Error::TextureCreationError(x) && display.uploaded(
                                grid_tile(view, edge, k),
                                Err(x),
                            ));
                            assert(0 <= k < grid_rows * grid_cols) by (nonlinear_arith)
                                requires
                                    k == row * grid_cols + col,
                                    0 <= row < grid_rows,
                                    0 <= col < grid_cols,
                            ;
                            assert forall|j: int| 0 <= j < k implies display.accepted(
                                #[trigger] grid_tile(view, edge, j),
                            ) by {
                                assert(display.uploaded(
                                    grid_tile(view, edge, j),
                                    Ok(tex_grid@[j].tex),
                                ));
                            }
                        }
                        return Err(e);
                    },
                };
                let item = TextureGridItem { tex, col, row };
                tex_grid.push(item);
                col = col + 1;
            }
            assert(row * grid_cols + grid_cols == (row + 1) * grid_cols) by (nonlinear_arith);
            row = row + 1;
        }

        Ok(
            AnimationFrameTexture {
                tex_grid: Rc::new(tex_grid),
                delay_nano,
                orientation,
                w,
                h,
                cell_step_size: max_size,
                grid_rows,
                grid_cols,
            },
        )
    }

    /// The width and height of the frame as it is shown: swapped where the
    /// orientation turns it by a quarter.
    pub open spec fn spec_oriented_dimensions(&self) -> (u32, u32) {
        match self.orientation {
            Orientation::Deg0 | Orientation::Deg0HorFlip | Orientation::Deg180
            | Orientation::Deg180HorFlip => (self.w, self.h),
            Orientation::Deg90 | Orientation::Deg90VerFlip | Orientation::Deg270
            | Orientation::Deg270VerFlip => (self.h, self.w),
        }
    }

    pub fn oriented_dimensions(&self) -> (size: (u32, u32))
        ensures
            size == self.spec_oriented_dimensions(),
    {
        match self.orientation {
            Orientation::Deg0 | Orientation::Deg0HorFlip | Orientation::Deg180
            | Orientation::Deg180HorFlip => (self.w, self.h),
            Orientation::Deg90 | Orientation::Deg90VerFlip | Orientation::Deg270
            | Orientation::Deg270VerFlip => (self.h, self.w),
        }
    }
}

/// The tile at `index` starts inside the `len` pixels that the grid covers
/// and has at least one pixel.
proof fn lemma_cell_in_image(len: u32, edge: int, index: int)
    requires
        len >= 1,
        edge >= 1,
        0 <= index < grid_cells(len, edge),
    ensures
        0 <= index * edge < len,
        1 <= cell_extent(len, edge, index) <= edge,
        index * edge + cell_extent(len, edge, index) <= len,
{
    let last = (len - 1) / edge;
    vstd::arithmetic::div_mod::lemma_fundamental_div_mod(len - 1, edge);
    assert(index * edge <= last * edge && index * edge >= 0 && edge * last == last * edge)
        by (nonlinear_arith)
        requires
            0 <= index <= last,
            edge >= 1,
    ;
}

} // verus!
