//! The texture cache: the one owner of every texture on the GPU.

use vstd::prelude::*;
use crate::command::GpuCommand;
use crate::error::RenderError;
use vstd::arithmetic::div_mod::{lemma_fundamental_div_mod, lemma_fundamental_div_mod_converse};

verus! {

/// Names a texture. Ids of the GUI's own textures (the glyph atlas) and ids
/// that the application gave out never collide.
#[derive(Clone, Copy, Debug, PartialEq, Eq, Structural, Hash)]
pub enum TextureId {
    Managed(u64),
    User(u64),
}

/// How a texel is stored.
#[derive(Clone, Copy, Debug, PartialEq, Eq, Structural)]
pub enum PixelFormat {
    /// One byte of coverage. Sampled as opaque white times the stored value,
    /// so the colour of text comes from the vertices alone.
    Coverage,
    /// Four bytes: red, green, blue, alpha.
    Rgba,
}

impl PixelFormat {
    /// Bytes per texel.
    pub open spec fn channels(self) -> int {
        match self {
            PixelFormat::Coverage => 1,
            PixelFormat::Rgba => 4,
        }
    }

    /// Bytes per texel.
    pub fn bytes_per_texel(&self) -> (n: usize)
        ensures
            n == self.channels(),
    {
        match self {
            PixelFormat::Coverage => 1,
            PixelFormat::Rgba => 4,
        }
    }
}

/// What an [`Image`] holds, as mathematics: its size, its format and its
/// bytes, row after row from the top, the channels of a texel side by side.
pub struct ImageModel {
    pub width: int,
    pub height: int,
    pub format: PixelFormat,
    pub pixels: Seq<u8>,
}

impl ImageModel {
    /// The bytes are exactly those of `width` by `height` texels.
    pub open spec fn wf(self) -> bool {
        &&& 0 <= self.width <= u32::MAX
        &&& 0 <= self.height <= u32::MAX
        &&& self.pixels.len() == self.width * self.height * self.format.channels()
    }

    /// Bytes per row.
    pub open spec fn stride(self) -> int {
        self.width * self.format.channels()
    }

    /// Channel `c` of the texel in column `x` of row `y`.
    pub open spec fn texel(self, x: int, y: int, c: int) -> u8 {
        self.pixels[(y * self.width + x) * self.format.channels() + c]
    }

    /// Whether (`x`, `y`, `c`) names a channel of a texel of the image.
    pub open spec fn has_texel(self, x: int, y: int, c: int) -> bool {
        &&& 0 <= x < self.width
        &&& 0 <= y < self.height
        &&& 0 <= c < self.format.channels()
    }

    /// Whether `patch`, put with its top-left texel at (`x`, `y`), has this
    /// image's format and lies within it.
    pub open spec fn admits(self, x: int, y: int, patch: ImageModel) -> bool {
        &&& patch.format == self.format
        &&& 0 <= x
        &&& 0 <= y
        &&& x + patch.width <= self.width
        &&& y + patch.height <= self.height
    }

    /// Byte `k` of the image after `patch` was written at (`x`, `y`): the byte
    /// lies in row `k / stride` at offset `k % stride`, and comes from the
    /// patch where that place is covered by it.
    pub open spec fn patched_byte(self, x: int, y: int, patch: ImageModel, k: int) -> u8 {
        let row = k / self.stride();
        let col = k % self.stride();
        if y <= row < y + patch.height && x * self.format.channels() <= col < x
            * self.format.channels() + patch.stride() {
            patch.pixels[(row - y) * patch.stride() + (col - x * self.format.channels())]
        } else {
            self.pixels[k]
        }
    }

    /// The image after `patch` was written into it at (`x`, `y`).
    pub open spec fn patched(self, x: int, y: int, patch: ImageModel) -> ImageModel {
        ImageModel {
            pixels: Seq::new(self.pixels.len(), |k: int| self.patched_byte(x, y, patch, k)),
            ..self
        }
    }
}

/// Where a channel of a texel lies among the bytes: in the texel's row, at the
/// texel's column times the channels, plus the channel.
pub proof fn lemma_texel_place(image: ImageModel, x: int, y: int, c: int)
    requires
        image.wf(),
        image.has_texel(x, y, c),
    ensures
        0 <= (y * image.width + x) * image.format.channels() + c < image.pixels.len(),
        ((y * image.width + x) * image.format.channels() + c) / image.stride() == y,
        ((y * image.width + x) * image.format.channels() + c) % image.stride() == x
            * image.format.channels() + c,
{
    let ch = image.format.channels();
    let w = image.width;
    let h = image.height;
    let k = (y * w + x) * ch + c;
    let col = x * ch + c;
    assert(0 <= col < w * ch) by (nonlinear_arith)
        requires
            col == x * ch + c,
            0 <= x < w,
            0 <= c < ch,
    ;
    assert(k == y * (w * ch) + col) by (nonlinear_arith)
        requires
            k == (y * w + x) * ch + c,
            col == x * ch + c,
    ;
    lemma_fundamental_div_mod_converse(k, w * ch, y, col);
    assert(0 <= k < w * h * ch) by (nonlinear_arith)
        requires
            k == y * (w * ch) + col,
            0 <= col < w * ch,
            0 <= y < h,
    ;
}

/// Patching writes the patch and nothing else: a texel under the patch reads
/// as the patch's texel, every other texel as before.
pub proof fn lemma_patched_texel(image: ImageModel, px: int, py: int, patch: ImageModel, x: int, y: int, c: int)
    requires
        image.wf(),
        patch.wf(),
        image.admits(px, py, patch),
        image.has_texel(x, y, c),
    ensures
        image.patched(px, py, patch).wf(),
        image.patched(px, py, patch).texel(x, y, c) == if px <= x < px + patch.width && py <= y < py
            + patch.height {
            patch.texel(x - px, y - py, c)
        } else {
            image.texel(x, y, c)
        },
{
    let ch = image.format.channels();
    let k = (y * image.width + x) * ch + c;
    lemma_texel_place(image, x, y, c);
    assert(image.patched(px, py, patch).pixels[k] == image.patched_byte(px, py, patch, k));
    let col = x * ch + c;
    assert((px * ch <= col < px * ch + patch.width * ch) <==> (px <= x < px + patch.width))
        by (nonlinear_arith)
        requires
            col == x * ch + c,
            0 <= c < ch,
    ;
    if px <= x < px + patch.width && py <= y < py + patch.height {
        assert((y - py) * (patch.width * ch) + (col - px * ch) == ((y - py) * patch.width + (x
            - px)) * ch + c) by (nonlinear_arith)
            requires
                col == x * ch + c,
        ;
    }
}

/// Byte `k` of `image` while `patch` is being written into it at (`x`, `y`):
/// the first `rows` rows of the patch are in place, and of the next row the
/// first `cols` bytes.
spec fn partly_patched_byte(image: ImageModel, x: int, y: int, patch: ImageModel, rows: int, cols: int, k: int) -> u8 {
    let row = k / image.stride();
    let col = k % image.stride();
    let offset = x * image.format.channels();
    if (y <= row < y + rows && offset <= col < offset + patch.stride()) || (row == y + rows
        && offset <= col < offset + cols) {
        patch.pixels[(row - y) * patch.stride() + (col - offset)]
    } else {
        image.pixels[k]
    }
}

/// Byte `cols` of row `rows` of the patch has a place in the image, in row
/// `y + rows` at `cols` bytes past the patch's left edge.
proof fn lemma_patch_place(image: ImageModel, x: int, y: int, patch: ImageModel, rows: int, cols: int)
    requires
        image.wf(),
        patch.wf(),
        image.admits(x, y, patch),
        0 <= rows < patch.height,
        0 <= cols < patch.stride(),
    ensures
        ({
            let place = (y + rows) * image.stride() + x * image.format.channels() + cols;
            &&& 0 <= (y + rows) * image.stride() <= place < image.pixels.len()
            &&& 0 <= rows * patch.stride() <= rows * patch.stride() + cols < patch.pixels.len()
            &&& place / image.stride() == y + rows
            &&& place % image.stride() == x * image.format.channels() + cols
        }),
{
    let ch = image.format.channels();
    let stride = image.stride();
    let offset = x * ch;
    let run = patch.stride();
    let place = (y + rows) * stride + offset + cols;
    assert(0 <= offset && offset + run <= stride) by (nonlinear_arith)
        requires
            offset == x * ch,
            run == patch.width * ch,
            stride == image.width * ch,
            0 <= x,
            0 <= patch.width,
            x + patch.width <= image.width,
            1 <= ch,
    ;
    assert(0 <= (y + rows) * stride && place < image.pixels.len()) by (nonlinear_arith)
        requires
            place == (y + rows) * stride + offset + cols,
            0 <= offset,
            0 <= cols,
            offset + cols < stride,
            0 <= y,
            0 <= rows,
            y + rows < image.height,
            image.pixels.len() == image.width * image.height * ch,
            stride == image.width * ch,
    ;
    assert(0 <= rows * run && rows * run + cols < patch.pixels.len()) by (nonlinear_arith)
        requires
            0 <= rows < patch.height,
            0 <= cols < run,
            patch.pixels.len() == patch.width * patch.height * ch,
            run == patch.width * ch,
    ;
    lemma_fundamental_div_mod_converse(place, stride, y + rows, offset + cols);
}

/// Writing byte `cols` of row `rows` of the patch changes that byte's place in
/// the image and no other.
proof fn lemma_patch_step(image: ImageModel, x: int, y: int, patch: ImageModel, rows: int, cols: int, k: int)
    requires
        image.wf(),
        patch.wf(),
        image.admits(x, y, patch),
        0 <= rows < patch.height,
        0 <= cols < patch.stride(),
        0 <= k < image.pixels.len(),
    ensures
        ({
            let place = (y + rows) * image.stride() + x * image.format.channels() + cols;
            &&& k == place ==> partly_patched_byte(image, x, y, patch, rows, cols + 1, k)
                == patch.pixels[rows * patch.stride() + cols]
            &&& k != place ==> partly_patched_byte(image, x, y, patch, rows, cols + 1, k)
                == partly_patched_byte(image, x, y, patch, rows, cols, k)
        }),
{
    let stride = image.stride();
    lemma_patch_place(image, x, y, patch, rows, cols);
    lemma_fundamental_div_mod(k, stride);
    assert(stride * (k / stride) == (k / stride) * stride) by (nonlinear_arith);
}

/// A rectangle of texels with its format: what a texture holds, and what a
/// texture update carries.
#[derive(Clone, Debug, PartialEq, Eq)]
pub struct Image {
    pub width: u32,
    pub height: u32,
    pub format: PixelFormat,
    pub pixels: Vec<u8>,
}

impl View for Image {
    type V = ImageModel;

    open spec fn view(&self) -> ImageModel {
        ImageModel {
            width: self.width as int,
            height: self.height as int,
            format: self.format,
            pixels: self.pixels@,
        }
    }
}

impl Image {
    /// The byte count matches the size and the format.
    pub open spec fn wf(&self) -> bool {
        self@.wf()
    }

    /// An image of `width` by `height` texels, or `None` when `pixels` does not
    /// hold exactly their bytes.
    pub fn new(width: u32, height: u32, format: PixelFormat, pixels: Vec<u8>) -> (image: Option<Image>)
        ensures
            match image {
                Some(img) => img.wf() && img@ == (ImageModel {
                    width: width as int,
                    height: height as int,
                    format,
                    pixels: pixels@,
                }),
                None => pixels@.len() != width * height * format.channels(),
            },
    {
        let image = Image { width, height, format, pixels };
        if image.is_valid() {
            Some(image)
        } else {
            None
        }
    }

    /// Whether the byte count matches the size and the format.
    pub fn is_valid(&self) -> (ok: bool)
        ensures
            ok == self.wf(),
    {
        let w: u128 = self.width as u128;
        let h: u128 = self.height as u128;
        let ch: u128 = self.format.bytes_per_texel() as u128;
        assert(0 <= w * h <= 0xFFFF_FFFF * 0xFFFF_FFFF) by (nonlinear_arith)
            requires
                0 <= w <= 0xFFFF_FFFF,
                0 <= h <= 0xFFFF_FFFF,
        ;
        let texels: u128 = w * h;
        let bytes: u128 = texels * ch;
        self.pixels.len() as u128 == bytes
    }

    /// Channel `c` of the texel in column `x` of row `y`, or `None` when the
    /// image has no such texel.
    pub fn texel(&self, x: u32, y: u32, c: usize) -> (value: Option<u8>)
        requires
            self.wf(),
        ensures
            value == if self@.has_texel(x as int, y as int, c as int) {
                Some(self@.texel(x as int, y as int, c as int))
            } else {
                None
            },
    {
        let ch: usize = self.format.bytes_per_texel();
        let len: usize = self.pixels.len();
        if x < self.width && y < self.height && c < ch {
            proof {
                lemma_texel_place(self@, x as int, y as int, c as int);
                let w = self.width as int;
                let t = y * w + x;
                assert(0 <= y * w <= t <= t * ch <= t * ch + c) by (nonlinear_arith)
                    requires
                        t == y * w + x,
                        0 <= x,
                        0 <= y,
                        0 <= w,
                        0 <= c,
                        1 <= ch,
                ;
            }
            let row_start: usize = y as usize * self.width as usize;
            let index: usize = (row_start + x as usize) * ch + c;
            Some(self.pixels[index])
        } else {
            None
        }
    }

    /// Whether `patch` can be written into the image at (`x`, `y`): it has the
    /// image's format and lies within it.
    pub fn admits(&self, x: u32, y: u32, patch: &Image) -> (ok: bool)
        ensures
            ok == self@.admits(x as int, y as int, patch@),
    {
        let same_format = match (self.format, patch.format) {
            (PixelFormat::Coverage, PixelFormat::Coverage) => true,
            (PixelFormat::Rgba, PixelFormat::Rgba) => true,
            _ => false,
        };
        same_format && x as u64 + patch.width as u64 <= self.width as u64 && y as u64
            + patch.height as u64 <= self.height as u64
    }

    /// Writes `patch` into the image with its top-left texel at (`x`, `y`).
    pub fn write(&mut self, x: u32, y: u32, patch: &Image)
        requires
            old(self).wf(),
            patch.wf(),
            old(self)@.admits(x as int, y as int, patch@),
        ensures
            final(self).wf(),
            final(self)@ == old(self)@.patched(x as int, y as int, patch@),
    {
        let ghost before = self@;
        let ghost src = patch@;
        let ch: usize = self.format.bytes_per_texel();
        let len: usize = self.pixels.len();
        let src_len: usize = patch.pixels.len();
        if patch.height == 0 || patch.width == 0 {
            assert(self@.pixels =~= before.patched(x as int, y as int, src).pixels) by {
                assert(src.stride() == 0 || src.height == 0) by (nonlinear_arith)
                    requires
                        src.stride() == src.width * ch,
                        src.width == 0 || src.height == 0,
                ;
            }
            return ;
        }
        proof {
            let w = self.width as int;
            let h = self.height as int;
            assert(0 <= x * ch && x * ch + src.width * ch <= w * ch && w * ch <= w * h * ch)
                by (nonlinear_arith)
                requires
                    0 <= x,
                    0 <= src.width,
                    x + src.width <= w,
                    1 <= h,
                    1 <= ch,
            ;
        }
        let stride: usize = self.width as usize * ch;
        let offset: usize = x as usize * ch;
        let run: usize = patch.width as usize * ch;
        let rows: usize = patch.height as usize;
        let mut r: usize = 0;
        while r < rows
            invariant
                0 <= r <= rows,
                rows == src.height,
                src == patch@,
                before.wf(),
                src.wf(),
                before.admits(x as int, y as int, src),
                stride == before.stride(),
                run == src.stride(),
                offset == x * before.format.channels(),
                ch == before.format.channels(),
                self.width == before.width,
                self.height == before.height,
                self.format == before.format,
                self.pixels@.len() == before.pixels.len(),
                len == before.pixels.len(),
                src_len == src.pixels.len(),
                run > 0,
                forall|k: int|
                    0 <= k < before.pixels.len() ==> #[trigger] self.pixels@[k]
                        == partly_patched_byte(before, x as int, y as int, src, r as int, 0, k),
            decreases rows - r,
        {
            proof {
                lemma_patch_place(before, x as int, y as int, src, r as int, 0);
            }
            let dst_row: usize = (y as usize + r) * stride + offset;
            let src_row: usize = r * run;
            let mut b: usize = 0;
            while b < run
                invariant
                    0 <= b <= run,
                    0 <= r < rows,
                    rows == src.height,
                    src == patch@,
                    before.wf(),
                    src.wf(),
                    before.admits(x as int, y as int, src),
                    stride == before.stride(),
                    run == src.stride(),
                    offset == x * before.format.channels(),
                    dst_row == (y + r) * stride + offset,
                    src_row == r * run,
                    self.width == before.width,
                    self.height == before.height,
                    self.format == before.format,
                    self.pixels@.len() == before.pixels.len(),
                    len == before.pixels.len(),
                    src_len == src.pixels.len(),
                    forall|k: int|
                        0 <= k < before.pixels.len() ==> #[trigger] self.pixels@[k]
                            == partly_patched_byte(
                            before,
                            x as int,
                            y as int,
                            src,
                            r as int,
                            b as int,
                            k,
                        ),
                decreases run - b,
            {
                proof {
                    lemma_patch_place(before, x as int, y as int, src, r as int, b as int);
                }
                let ghost earlier = self.pixels@;
                self.pixels[dst_row + b] = patch.pixels[src_row + b];
                assert forall|k: int| 0 <= k < before.pixels.len() implies #[trigger] self.pixels@[k]
                    == partly_patched_byte(
                    before,
                    x as int,
                    y as int,
                    src,
                    r as int,
                    b as int + 1,
                    k,
                ) by {
                    lemma_patch_step(before, x as int, y as int, src, r as int, b as int, k);
                    assert(earlier[k] == partly_patched_byte(
                        before,
                        x as int,
                        y as int,
                        src,
                        r as int,
                        b as int,
                        k,
                    ));
                }
                b += 1;
            }
            assert forall|k: int| 0 <= k < before.pixels.len() implies #[trigger] self.pixels@[k]
                == partly_patched_byte(before, x as int, y as int, src, r as int + 1, 0, k) by {
                assert(self.pixels@[k] == partly_patched_byte(
                    before,
                    x as int,
                    y as int,
                    src,
                    r as int,
                    run as int,
                    k,
                ));
            }
            r += 1;
        }
        assert(self@.pixels =~= before.patched(x as int, y as int, src).pixels) by {
            assert forall|k: int| 0 <= k < before.pixels.len() implies self.pixels@[k]
                == before.patched_byte(x as int, y as int, src, k) by {
                assert(self.pixels@[k] == partly_patched_byte(
                    before,
                    x as int,
                    y as int,
                    src,
                    rows as int,
                    0,
                    k,
                ));
            }
        }
    }
}

impl Image {
    /// A copy of the image.
    pub fn duplicate(&self) -> (copy: Image)
        ensures
            copy@ == self@,
    {
        Image {
            width: self.width,
            height: self.height,
            format: self.format,
            pixels: self.pixels.clone(),
        }
    }
}

/// One entry of a texture delta. Without an origin it creates the texture or
/// replaces it whole; with one it patches the rectangle of the existing texture
/// whose top-left texel is the origin.
#[derive(Clone, Debug, PartialEq, Eq)]
pub struct TextureUpdate {
    pub id: TextureId,
    pub origin: Option<(u32, u32)>,
    pub image: Image,
}

/// What a [`TextureUpdate`] holds, as mathematics.
pub struct UpdateModel {
    pub id: TextureId,
    pub origin: Option<(int, int)>,
    pub image: ImageModel,
}

impl View for TextureUpdate {
    type V = UpdateModel;

    open spec fn view(&self) -> UpdateModel {
        UpdateModel {
            id: self.id,
            origin: match self.origin {
                Some((x, y)) => Some((x as int, y as int)),
                None => None,
            },
            image: self.image@,
        }
    }
}

/// What changed among the textures since the last frame: updates in the order
/// in which they are to be applied, and the textures to free once the frame is
/// drawn.
#[derive(Clone, Debug, PartialEq, Eq)]
pub struct TextureDelta {
    pub updates: Vec<TextureUpdate>,
    pub frees: Vec<TextureId>,
}

/// What a [`TextureDelta`] holds, as mathematics.
pub struct DeltaModel {
    pub updates: Seq<UpdateModel>,
    pub frees: Seq<TextureId>,
}

impl View for TextureDelta {
    type V = DeltaModel;

    open spec fn view(&self) -> DeltaModel {
        DeltaModel {
            updates: Seq::new(self.updates@.len(), |i: int| self.updates@[i]@),
            frees: self.frees@,
        }
    }
}

impl DeltaModel {
    /// Every payload holds exactly the bytes of its size and format.
    pub open spec fn wf(self) -> bool {
        forall|i: int| 0 <= i < self.updates.len() ==> (#[trigger] self.updates[i]).image.wf()
    }
}

impl TextureDelta {
    /// Every payload holds exactly the bytes of its size and format.
    pub open spec fn wf(&self) -> bool {
        self@.wf()
    }

    /// A delta that changes nothing.
    pub fn new() -> (delta: TextureDelta)
        ensures
            delta@.updates.len() == 0,
            delta@.frees.len() == 0,
            delta.wf(),
    {
        TextureDelta { updates: Vec::new(), frees: Vec::new() }
    }

    /// Whether every payload holds exactly the bytes of its size and format.
    pub fn is_valid(&self) -> (ok: bool)
        ensures
            ok == self.wf(),
    {
        let mut i: usize = 0;
        while i < self.updates.len()
            invariant
                0 <= i <= self.updates.len(),
                forall|j: int| 0 <= j < i ==> (#[trigger] self@.updates[j]).image.wf(),
            decreases self.updates.len() - i,
        {
            if !self.updates[i].image.is_valid() {
                assert(!self@.updates[i as int].image.wf());
                return false;
            }
            i += 1;
        }
        true
    }
}

/// A texture that the cache holds: its id, the handle it has on the GPU, and
/// its content.
#[derive(Clone, Debug, PartialEq, Eq)]
pub struct TextureRecord {
    pub id: TextureId,
    pub handle: u64,
    pub image: Image,
}

/// What a [`TextureRecord`] holds, as mathematics.
pub struct TextureModel {
    pub id: TextureId,
    pub handle: u64,
    pub image: ImageModel,
}

impl View for TextureRecord {
    type V = TextureModel;

    open spec fn view(&self) -> TextureModel {
        TextureModel { id: self.id, handle: self.handle, image: self.image@ }
    }
}

/// The bytes that a list of textures takes up.
pub open spec fn total_bytes(textures: Seq<TextureModel>) -> int
    decreases textures.len(),
{
    if textures.len() == 0 {
        0
    } else {
        total_bytes(textures.drop_last()) + textures.last().image.pixels.len()
    }
}

proof fn lemma_total_bytes_push(textures: Seq<TextureModel>, t: TextureModel)
    ensures
        total_bytes(textures.push(t)) == total_bytes(textures) + t.image.pixels.len(),
{
    assert(textures.push(t).drop_last() =~= textures);
}

proof fn lemma_total_bytes_update(textures: Seq<TextureModel>, i: int, t: TextureModel)
    requires
        0 <= i < textures.len(),
    ensures
        total_bytes(textures.update(i, t)) == total_bytes(textures)
            - textures[i].image.pixels.len() + t.image.pixels.len(),
    decreases textures.len(),
{
    if i == textures.len() - 1 {
        assert(textures.update(i, t).drop_last() =~= textures.drop_last());
    } else {
        lemma_total_bytes_update(textures.drop_last(), i, t);
        assert(textures.update(i, t).drop_last() =~= textures.drop_last().update(i, t));
    }
}

proof fn lemma_total_bytes_remove(textures: Seq<TextureModel>, i: int)
    requires
        0 <= i < textures.len(),
    ensures
        total_bytes(textures.remove(i)) == total_bytes(textures) - textures[i].image.pixels.len(),
    decreases textures.len(),
{
    if i == textures.len() - 1 {
        assert(textures.remove(i) =~= textures.drop_last());
    } else {
        lemma_total_bytes_remove(textures.drop_last(), i);
        assert(textures.remove(i).drop_last() =~= textures.drop_last().remove(i));
    }
}

proof fn lemma_total_bytes_covers(textures: Seq<TextureModel>, i: int)
    requires
        0 <= i < textures.len(),
    ensures
        0 <= textures[i].image.pixels.len() <= total_bytes(textures),
        0 <= total_bytes(textures),
    decreases textures.len(),
{
    lemma_total_bytes_nonnegative(textures.drop_last());
    if i < textures.len() - 1 {
        lemma_total_bytes_covers(textures.drop_last(), i);
    }
}

proof fn lemma_total_bytes_nonnegative(textures: Seq<TextureModel>)
    ensures
        0 <= total_bytes(textures),
    decreases textures.len(),
{
    if textures.len() > 0 {
        lemma_total_bytes_nonnegative(textures.drop_last());
    }
}

/// What applying part of a delta comes to: the cache afterwards, the commands
/// for the GPU, and the failure that ended it, if one did.
pub struct Outcome {
    pub cache: CacheModel,
    pub commands: Seq<GpuCommand>,
    pub error: Option<RenderError>,
}

impl Outcome {
    pub open spec fn result(self) -> Result<(), RenderError> {
        match self.error {
            Some(e) => Err(e),
            None => Ok(()),
        }
    }
}

/// The texture cache, as mathematics: the live textures in the order in which
/// they were created, the ids waiting to be freed, the next handle to give out
/// and the memory budget in bytes.
pub struct CacheModel {
    pub textures: Seq<TextureModel>,
    pub pending_frees: Seq<TextureId>,
    pub next_handle: int,
    pub budget: int,
}

impl CacheModel {
    /// No id and no handle occurs twice, every handle was given out before,
    /// every texture holds the bytes of its size, and all of them fit the budget.
    pub open spec fn wf(self) -> bool {
        &&& 0 <= self.next_handle <= u64::MAX
        &&& 0 <= self.budget <= usize::MAX
        &&& total_bytes(self.textures) <= self.budget
        &&& forall|i: int|
            0 <= i < self.textures.len() ==> (#[trigger] self.textures[i]).image.wf()
                && self.textures[i].handle < self.next_handle
        &&& forall|i: int, j: int|
            0 <= i < j < self.textures.len() ==> (#[trigger] self.textures[i]).id != (
            #[trigger] self.textures[j]).id && self.textures[i].handle != self.textures[j].handle
    }

    /// Whether a live texture has this id.
    pub open spec fn holds(self, id: TextureId) -> bool {
        exists|i: int| 0 <= i < self.textures.len() && (#[trigger] self.textures[i]).id == id
    }

    /// Where the texture with this id stands among the live textures.
    pub open spec fn slot(self, id: TextureId) -> int {
        choose|i: int| 0 <= i < self.textures.len() && (#[trigger] self.textures[i]).id == id
    }

    /// The live texture with this id.
    pub open spec fn texture(self, id: TextureId) -> TextureModel {
        self.textures[self.slot(id)]
    }

    /// Whether a live texture has this handle.
    pub open spec fn holds_handle(self, handle: u64) -> bool {
        exists|i: int| 0 <= i < self.textures.len() && (#[trigger] self.textures[i]).handle == handle
    }

    /// The bytes that the live textures take up.
    pub open spec fn bytes_in_use(self) -> int {
        total_bytes(self.textures)
    }

    /// Nothing changed, and the work ends with `error`.
    pub open spec fn fail(self, error: RenderError) -> Outcome {
        Outcome { cache: self, commands: Seq::empty(), error: Some(error) }
    }

    /// The command that uploads update number `k` to the rectangle at
    /// (`x`, `y`) of the texture `handle`.
    pub open spec fn upload(handle: u64, x: int, y: int, image: ImageModel, k: int) -> GpuCommand {
        GpuCommand::UploadPixels {
            handle,
            x: x as u32,
            y: y as u32,
            width: image.width as u32,
            height: image.height as u32,
            update: k as usize,
        }
    }

    /// The command that gives the texture `handle` storage for `image`.
    pub open spec fn allocate(handle: u64, image: ImageModel) -> GpuCommand {
        GpuCommand::AllocateTexture {
            handle,
            width: image.width as u32,
            height: image.height as u32,
            format: image.format,
        }
    }

    /// Creates the texture `id` with the content `image`, or replaces it whole.
    ///
    /// A new texture gets the next handle; one that exists keeps its handle,
    /// and gets new storage only where its size or format changes. Either
    /// fails where the budget would be exceeded, and a new texture also where
    /// no handle is left.
    pub open spec fn set(self, id: TextureId, image: ImageModel, k: int) -> Outcome {
        if self.holds(id) {
            let i = self.slot(id);
            let current = self.textures[i];
            let same_storage = current.image.width == image.width && current.image.height == image.height
                && current.image.format == image.format;
            if self.bytes_in_use() - current.image.pixels.len() + image.pixels.len() <= self.budget {
                Outcome {
                    cache: CacheModel {
                        textures: self.textures.update(i, TextureModel { image, ..current }),
                        ..self
                    },
                    commands: if same_storage {
                        seq![Self::upload(current.handle, 0, 0, image, k)]
                    } else {
                        seq![Self::allocate(current.handle, image), Self::upload(current.handle, 0, 0, image, k)]
                    },
                    error: None,
                }
            } else {
                self.fail(RenderError::AllocationFailed(id))
            }
        } else {
            let handle = self.next_handle as u64;
            if self.bytes_in_use() + image.pixels.len() <= self.budget && self.next_handle
                < u64::MAX {
                Outcome {
                    cache: CacheModel {
                        textures: self.textures.push(TextureModel { id, handle, image }),
                        next_handle: self.next_handle + 1,
                        ..self
                    },
                    commands: seq![Self::allocate(handle, image), Self::upload(handle, 0, 0, image, k)],
                    error: None,
                }
            } else {
                self.fail(RenderError::AllocationFailed(id))
            }
        }
    }

    /// Writes `image` into the texture `id` at (`x`, `y`). Fails where the
    /// texture does not exist, and where the patch has another format or does
    /// not lie within it.
    pub open spec fn patch(self, id: TextureId, x: int, y: int, image: ImageModel, k: int) -> Outcome {
        if !self.holds(id) {
            self.fail(RenderError::DanglingReference(id))
        } else {
            let i = self.slot(id);
            let current = self.textures[i];
            if current.image.admits(x, y, image) {
                Outcome {
                    cache: CacheModel {
                        textures: self.textures.update(
                            i,
                            TextureModel { image: current.image.patched(x, y, image), ..current },
                        ),
                        ..self
                    },
                    commands: seq![Self::upload(current.handle, x, y, image, k)],
                    error: None,
                }
            } else {
                self.fail(RenderError::InvalidPatch(id))
            }
        }
    }

    /// Applies update number `k` of a delta.
    pub open spec fn apply_update(self, update: UpdateModel, k: int) -> Outcome {
        match update.origin {
            None => self.set(update.id, update.image, k),
            Some((x, y)) => self.patch(update.id, x, y, update.image, k),
        }
    }

    /// Applies the updates from number `from` on, in order, up to the first
    /// that fails. That one and those behind it change nothing.
    pub open spec fn apply_updates(self, updates: Seq<UpdateModel>, from: int) -> Outcome
        decreases updates.len() - from,
    {
        if from < 0 || from >= updates.len() {
            Outcome { cache: self, commands: Seq::empty(), error: None }
        } else {
            let first = self.apply_update(updates[from], from);
            if first.error is Some {
                first
            } else {
                let rest = first.cache.apply_updates(updates, from + 1);
                Outcome { commands: first.commands + rest.commands, ..rest }
            }
        }
    }

    /// Puts `ids` at the end of the ids that wait to be freed.
    pub open spec fn queue_frees(self, ids: Seq<TextureId>) -> CacheModel {
        CacheModel { pending_frees: self.pending_frees + ids, ..self }
    }

    /// Takes in a delta: its frees are queued, then its updates applied.
    pub open spec fn apply_delta(self, delta: DeltaModel) -> Outcome {
        self.queue_frees(delta.frees).apply_updates(delta.updates, 0)
    }

    /// Frees the texture `id` if it is live.
    pub open spec fn release(self, id: TextureId) -> Outcome {
        if self.holds(id) {
            let i = self.slot(id);
            Outcome {
                cache: CacheModel { textures: self.textures.remove(i), ..self },
                commands: seq![GpuCommand::ReleaseTexture { handle: self.textures[i].handle }],
                error: None,
            }
        } else {
            Outcome { cache: self, commands: Seq::empty(), error: None }
        }
    }

    /// Frees the textures `ids` from number `from` on, in order.
    pub open spec fn release_all(self, ids: Seq<TextureId>, from: int) -> Outcome
        decreases ids.len() - from,
    {
        if from < 0 || from >= ids.len() {
            Outcome { cache: self, commands: Seq::empty(), error: None }
        } else {
            let first = self.release(ids[from]);
            let rest = first.cache.release_all(ids, from + 1);
            Outcome { commands: first.commands + rest.commands, ..rest }
        }
    }

    /// Frees every texture that waits to be freed, and empties the queue.
    pub open spec fn apply_frees(self) -> Outcome {
        let done = self.release_all(self.pending_frees, 0);
        Outcome { cache: CacheModel { pending_frees: Seq::empty(), ..done.cache }, ..done }
    }
}

/// In a well-formed cache an id is found in one place only.
pub proof fn lemma_slot_is_unique(cache: CacheModel, id: TextureId, i: int)
    requires
        cache.wf(),
        0 <= i < cache.textures.len(),
        cache.textures[i].id == id,
    ensures
        cache.holds(id),
        cache.slot(id) == i,
        cache.texture(id) == cache.textures[i],
{
    let j = cache.slot(id);
    if j < i {
        assert(cache.textures[j].id != cache.textures[i].id);
    } else if i < j {
        assert(cache.textures[i].id != cache.textures[j].id);
    }
}

/// Applying an update to a well-formed cache leaves it well-formed, whether
/// the update succeeds or fails.
pub proof fn lemma_apply_update_wf(cache: CacheModel, update: UpdateModel, k: int)
    requires
        cache.wf(),
        update.image.wf(),
    ensures
        cache.apply_update(update, k).cache.wf(),
        cache.apply_update(update, k).error is Some ==> cache.apply_update(update, k).cache == cache,
        cache.apply_update(update, k).cache.pending_frees == cache.pending_frees,
        cache.apply_update(update, k).cache.budget == cache.budget,
{
    let out = cache.apply_update(update, k);
    let id = update.id;
    if out.error is None {
        if cache.holds(id) {
            let i = cache.slot(id);
            let next = out.cache.textures;
            lemma_total_bytes_update(cache.textures, i, next[i]);
            match update.origin {
                None => {},
                Some((x, y)) => {
                    assert(cache.textures[i].image.patched(x, y, update.image).pixels.len()
                        == cache.textures[i].image.pixels.len());
                },
            }
            assert forall|a: int, b: int| 0 <= a < b < next.len() implies (#[trigger] next[a]).id != (
            #[trigger] next[b]).id && next[a].handle != next[b].handle by {
                assert(next[a].id == cache.textures[a].id);
                assert(next[b].id == cache.textures[b].id);
            }
            assert forall|a: int| 0 <= a < next.len() implies (#[trigger] next[a]).image.wf()
                && next[a].handle < out.cache.next_handle by {
                assert(next[a].handle == cache.textures[a].handle);
            }
        } else {
            let next = out.cache.textures;
            lemma_total_bytes_push(cache.textures, next.last());
            assert forall|a: int, b: int| 0 <= a < b < next.len() implies (#[trigger] next[a]).id != (
            #[trigger] next[b]).id && next[a].handle != next[b].handle by {
                if b == next.len() - 1 {
                    assert(cache.textures[a].id != id);
                    assert(cache.textures[a].handle < cache.next_handle);
                } else {
                    assert(next[a] == cache.textures[a]);
                    assert(next[b] == cache.textures[b]);
                }
            }
            assert forall|a: int| 0 <= a < next.len() implies (#[trigger] next[a]).image.wf()
                && next[a].handle < out.cache.next_handle by {
                if a < next.len() - 1 {
                    assert(next[a] == cache.textures[a]);
                }
            }
        }
    }
}

/// Freeing a texture leaves a well-formed cache well-formed.
pub proof fn lemma_release_wf(cache: CacheModel, id: TextureId)
    requires
        cache.wf(),
    ensures
        cache.release(id).cache.wf(),
        cache.release(id).error is None,
        !cache.release(id).cache.holds(id),
        cache.release(id).cache.pending_frees == cache.pending_frees,
        cache.release(id).cache.budget == cache.budget,
        cache.release(id).cache.next_handle == cache.next_handle,
{
    let out = cache.release(id);
    let next = out.cache.textures;
    if cache.holds(id) {
        let i = cache.slot(id);
        lemma_total_bytes_remove(cache.textures, i);
        assert forall|a: int| 0 <= a < next.len() implies #[trigger] next[a] == cache.textures[if a
            < i {
            a
        } else {
            a + 1
        }] by {}
        assert forall|a: int, b: int| 0 <= a < b < next.len() implies (#[trigger] next[a]).id != (
        #[trigger] next[b]).id && next[a].handle != next[b].handle by {
            let a0 = if a < i {
                a
            } else {
                a + 1
            };
            let b0 = if b < i {
                b
            } else {
                b + 1
            };
            assert(next[a] == cache.textures[a0]);
            assert(next[b] == cache.textures[b0]);
        }
        assert forall|a: int| 0 <= a < next.len() implies (#[trigger] next[a]).image.wf()
            && next[a].handle < out.cache.next_handle by {
            let a0 = if a < i {
                a
            } else {
                a + 1
            };
            assert(next[a] == cache.textures[a0]);
        }
        if out.cache.holds(id) {
            let j = out.cache.slot(id);
            let j0 = if j < i {
                j
            } else {
                j + 1
            };
            assert(next[j] == cache.textures[j0]);
            lemma_slot_is_unique(cache, id, j0);
        }
    }
}

/// Applying updates to a well-formed cache leaves it well-formed and touches
/// neither the queue of frees nor the budget. The commands it gives are
/// allocations and uploads, nothing else.
pub proof fn lemma_apply_updates(cache: CacheModel, updates: Seq<UpdateModel>, from: int)
    requires
        cache.wf(),
        forall|i: int| 0 <= i < updates.len() ==> (#[trigger] updates[i]).image.wf(),
    ensures
        cache.apply_updates(updates, from).cache.wf(),
        cache.apply_updates(updates, from).cache.pending_frees == cache.pending_frees,
        cache.apply_updates(updates, from).cache.budget == cache.budget,
        forall|i: int|
            0 <= i < cache.apply_updates(updates, from).commands.len() ==> {
                let c = #[trigger] cache.apply_updates(updates, from).commands[i];
                c is AllocateTexture || c is UploadPixels
            },
    decreases updates.len() - from,
{
    if 0 <= from < updates.len() {
        let first = cache.apply_update(updates[from], from);
        lemma_apply_update_wf(cache, updates[from], from);
        if first.error is None {
            lemma_apply_updates(first.cache, updates, from + 1);
        }
    }
}

/// Freeing textures leaves a well-formed cache well-formed and never fails.
/// The commands it gives are releases, each of a texture that was live before.
pub proof fn lemma_release_all(cache: CacheModel, ids: Seq<TextureId>, from: int)
    requires
        cache.wf(),
    ensures
        cache.release_all(ids, from).cache.wf(),
        cache.release_all(ids, from).error is None,
        cache.release_all(ids, from).cache.pending_frees == cache.pending_frees,
        cache.release_all(ids, from).cache.budget == cache.budget,
        cache.release_all(ids, from).cache.next_handle == cache.next_handle,
        forall|i: int|
            0 <= i < cache.release_all(ids, from).commands.len() ==> {
                let c = #[trigger] cache.release_all(ids, from).commands[i];
                c matches GpuCommand::ReleaseTexture { handle } && cache.holds_handle(handle)
            },
        forall|id: TextureId|
            cache.release_all(ids, from).cache.holds(id) ==> cache.holds(id),
        forall|k: int|
            0 <= from <= k < ids.len() ==> !cache.release_all(ids, from).cache.holds(#[trigger] ids[k]),
    decreases ids.len() - from,
{
    if 0 <= from < ids.len() {
        let first = cache.release(ids[from]);
        lemma_release_wf(cache, ids[from]);
        lemma_release_all(first.cache, ids, from + 1);
        let rest = first.cache.release_all(ids, from + 1);
        lemma_release_subset(cache, ids[from]);
        assert forall|i: int| 0 <= i < cache.release_all(ids, from).commands.len() implies {
            let c = #[trigger] cache.release_all(ids, from).commands[i];
            c matches GpuCommand::ReleaseTexture { handle } && cache.holds_handle(handle)
        } by {
            let c = cache.release_all(ids, from).commands[i];
            if i < first.commands.len() {
                assert(c == first.commands[i]);
                assert(cache.textures[cache.slot(ids[from])].handle == c->ReleaseTexture_handle);
            } else {
                assert(c == rest.commands[i - first.commands.len()]);
            }
        }
    }
}

/// Whatever is live after a texture was freed was live before, under the same
/// id and the same handle.
pub proof fn lemma_release_subset(cache: CacheModel, id: TextureId)
    requires
        cache.wf(),
    ensures
        forall|other: TextureId| cache.release(id).cache.holds(other) ==> cache.holds(other),
        forall|handle: u64|
            cache.release(id).cache.holds_handle(handle) ==> cache.holds_handle(handle),
{
    let next = cache.release(id).cache;
    if cache.holds(id) {
        let i = cache.slot(id);
        assert forall|other: TextureId| next.holds(other) implies cache.holds(other) by {
            let j = next.slot(other);
            let j0 = if j < i {
                j
            } else {
                j + 1
            };
            assert(next.textures[j] == cache.textures[j0]);
        }
        assert forall|handle: u64| next.holds_handle(handle) implies cache.holds_handle(handle) by {
            let j = choose|j: int|
                0 <= j < next.textures.len() && (#[trigger] next.textures[j]).handle == handle;
            let j0 = if j < i {
                j
            } else {
                j + 1
            };
            assert(next.textures[j] == cache.textures[j0]);
        }
    }
}

impl CacheModel {
    /// What reading the texture `id` back gives: its image, if it is live.
    pub open spec fn content(self, id: TextureId) -> Option<ImageModel> {
        if self.holds(id) {
            Some(self.texture(id).image)
        } else {
            None
        }
    }
}

/// What the texture `id` should hold once `update` is applied, by the meaning
/// of an update alone: an update of another texture leaves it as it is, an
/// update without an origin replaces it by the payload, an update with one
/// writes the payload into it.
pub open spec fn written(content: Option<ImageModel>, update: UpdateModel, id: TextureId) -> Option<ImageModel> {
    if update.id != id {
        content
    } else {
        match update.origin {
            None => Some(update.image),
            Some((x, y)) => match content {
                Some(image) => Some(image.patched(x, y, update.image)),
                None => None,
            },
        }
    }
}

/// What the texture `id` should hold once the updates from number `from` on
/// are applied, in order.
pub open spec fn expected_content(
    content: Option<ImageModel>,
    updates: Seq<UpdateModel>,
    from: int,
    id: TextureId,
) -> Option<ImageModel>
    decreases updates.len() - from,
{
    if from < 0 || from >= updates.len() {
        content
    } else {
        expected_content(written(content, updates[from], id), updates, from + 1, id)
    }
}

/// An update that succeeds is read back exactly: the texture it names holds
/// what the update says, and every other texture holds what it held.
pub proof fn lemma_update_round_trip(cache: CacheModel, update: UpdateModel, k: int, id: TextureId)
    requires
        cache.wf(),
        update.image.wf(),
        cache.apply_update(update, k).error is None,
    ensures
        cache.apply_update(update, k).cache.content(id) == written(cache.content(id), update, id),
{
    let next = cache.apply_update(update, k).cache;
    lemma_apply_update_wf(cache, update, k);
    if cache.holds(update.id) {
        let i = cache.slot(update.id);
        assert(next.textures[i].id == update.id);
        if update.id == id {
            lemma_slot_is_unique(next, id, i);
        } else if cache.holds(id) {
            let j = cache.slot(id);
            assert(next.textures[j] == cache.textures[j]);
            lemma_slot_is_unique(next, id, j);
        } else if next.holds(id) {
            let w = next.slot(id);
            assert(cache.textures[w].id == id);
        }
    } else {
        let n = cache.textures.len() as int;
        assert(next.textures[n].id == update.id);
        if update.id == id {
            lemma_slot_is_unique(next, id, n);
        } else if cache.holds(id) {
            let j = cache.slot(id);
            assert(next.textures[j] == cache.textures[j]);
            lemma_slot_is_unique(next, id, j);
        } else if next.holds(id) {
            let w = next.slot(id);
            if w < n {
                assert(cache.textures[w].id == id);
            }
        }
    }
}

/// Updates that succeed are read back exactly: after any list of creations and
/// patches, every texture holds what the updates say it should, byte for byte.
pub proof fn lemma_round_trip(cache: CacheModel, updates: Seq<UpdateModel>, from: int, id: TextureId)
    requires
        cache.wf(),
        forall|i: int| 0 <= i < updates.len() ==> (#[trigger] updates[i]).image.wf(),
        cache.apply_updates(updates, from).error is None,
    ensures
        cache.apply_updates(updates, from).cache.content(id) == expected_content(
            cache.content(id),
            updates,
            from,
            id,
        ),
    decreases updates.len() - from,
{
    if 0 <= from < updates.len() {
        let first = cache.apply_update(updates[from], from);
        lemma_apply_update_wf(cache, updates[from], from);
        lemma_update_round_trip(cache, updates[from], from, id);
        lemma_round_trip(first.cache, updates, from + 1, id);
    }
}

/// The texture cache. It alone creates and destroys textures: every texture on
/// the GPU has a record here, and leaves the GPU when its record is freed.
pub struct TextureCache {
    records: Vec<TextureRecord>,
    pending_frees: Vec<TextureId>,
    next_handle: u64,
    budget: usize,
    used: usize,
}

impl View for TextureCache {
    type V = CacheModel;

    closed spec fn view(&self) -> CacheModel {
        CacheModel {
            textures: Seq::new(self.records@.len(), |i: int| self.records@[i]@),
            pending_frees: self.pending_frees@,
            next_handle: self.next_handle as int,
            budget: self.budget as int,
        }
    }
}

impl TextureCache {
    /// The cache is in order: its model is well-formed, and it has counted the
    /// bytes in use rightly.
    pub closed spec fn wf(&self) -> bool {
        &&& self@.wf()
        &&& self.used == self@.bytes_in_use()
    }

    /// What `wf` promises of the model.
    pub proof fn lemma_wf(&self)
        requires
            self.wf(),
        ensures
            self@.wf(),
    {
    }

    /// An empty cache that may hold up to `budget` bytes of texels.
    pub fn new(budget: usize) -> (cache: TextureCache)
        ensures
            cache.wf(),
            cache@ == (CacheModel {
                textures: Seq::empty(),
                pending_frees: Seq::empty(),
                next_handle: 0,
                budget: budget as int,
            }),
    {
        let cache = TextureCache {
            records: Vec::new(),
            pending_frees: Vec::new(),
            next_handle: 0,
            budget,
            used: 0,
        };
        assert(cache@.textures =~= Seq::empty());
        cache
    }

    /// Where the texture `id` stands among the records.
    fn find(&self, id: TextureId) -> (slot: Option<usize>)
        requires
            self.wf(),
        ensures
            match slot {
                Some(i) => self@.holds(id) && self@.slot(id) == i && i < self.records@.len(),
                None => !self@.holds(id),
            },
    {
        let mut i: usize = 0;
        while i < self.records.len()
            invariant
                0 <= i <= self.records@.len(),
                self.wf(),
                forall|j: int| 0 <= j < i ==> (#[trigger] self@.textures[j]).id != id,
            decreases self.records.len() - i,
        {
            if self.records[i].id == id {
                proof {
                    lemma_slot_is_unique(self@, id, i as int);
                }
                return Some(i);
            }
            i += 1;
        }
        None
    }

    /// Whether the cache holds a live texture with this id.
    pub fn contains(&self, id: TextureId) -> (held: bool)
        requires
            self.wf(),
        ensures
            held == self@.holds(id),
    {
        self.find(id).is_some()
    }

    /// The record of the texture `id`, if it is live.
    pub fn get(&self, id: TextureId) -> (record: Option<&TextureRecord>)
        requires
            self.wf(),
        ensures
            match record {
                Some(r) => self@.holds(id) && r@ == self@.texture(id) && r.image.wf(),
                None => !self@.holds(id),
            },
    {
        match self.find(id) {
            Some(i) => {
                assert(self@.textures[i as int] == self.records@[i as int]@);
                Some(&self.records[i])
            },
            None => None,
        }
    }

    /// The GPU handle of the texture `id`, if it is live.
    pub fn handle_of(&self, id: TextureId) -> (handle: Option<u64>)
        requires
            self.wf(),
        ensures
            handle == if self@.holds(id) {
                Some(self@.texture(id).handle)
            } else {
                None
            },
    {
        match self.get(id) {
            Some(r) => Some(r.handle),
            None => None,
        }
    }

    /// The bytes of the texture `id` as they stand now, if it is live.
    pub fn read_pixels(&self, id: TextureId) -> (pixels: Option<Vec<u8>>)
        requires
            self.wf(),
        ensures
            match pixels {
                Some(p) => self@.content(id) matches Some(image) && p@ == image.pixels,
                None => self@.content(id) is None,
            },
    {
        match self.get(id) {
            Some(r) => Some(r.image.pixels.clone()),
            None => None,
        }
    }

    /// How many textures are live.
    pub fn len(&self) -> (n: usize)
        ensures
            n == self@.textures.len(),
    {
        self.records.len()
    }

    /// The bytes that the live textures take up.
    pub fn bytes_in_use(&self) -> (n: usize)
        requires
            self.wf(),
        ensures
            n == self@.bytes_in_use(),
    {
        self.used
    }

    /// The memory budget in bytes.
    pub fn budget(&self) -> (n: usize)
        ensures
            n == self@.budget,
    {
        self.budget
    }

    /// How many ids wait to be freed.
    pub fn pending_frees(&self) -> (n: usize)
        ensures
            n == self@.pending_frees.len(),
    {
        self.pending_frees.len()
    }
}

impl TextureCache {
    /// Applies update number `k` of a delta and appends the commands that
    /// carry it out on the GPU. Where it fails the cache is left as it was and
    /// no command is appended.
    pub fn apply_update(
        &mut self,
        update: &TextureUpdate,
        k: usize,
        commands: &mut Vec<GpuCommand>,
    ) -> (result: Result<(), RenderError>)
        requires
            old(self).wf(),
            update.image.wf(),
        ensures
            final(self).wf(),
            final(self)@ == old(self)@.apply_update(update@, k as int).cache,
            final(commands)@ == old(commands)@ + old(self)@.apply_update(update@, k as int).commands,
            result == old(self)@.apply_update(update@, k as int).result(),
    {
        let ghost before = self@;
        let ghost out = before.apply_update(update@, k as int);
        proof {
            lemma_apply_update_wf(before, update@, k as int);
        }
        let id = update.id;
        let size: usize = update.image.pixels.len();
        let found = self.find(id);
        match update.origin {
            None => match found {
                None => {
                    if self.next_handle == u64::MAX || size > self.budget - self.used {
                        assert(commands@ =~= old(commands)@ + out.commands);
                        return Err(RenderError::AllocationFailed(id));
                    }
                    let handle = self.next_handle;
                    self.records.push(TextureRecord { id, handle, image: update.image.duplicate() });
                    self.next_handle = handle + 1;
                    self.used = self.used + size;
                    commands.push(
                        GpuCommand::AllocateTexture {
                            handle,
                            width: update.image.width,
                            height: update.image.height,
                            format: update.image.format,
                        },
                    );
                    commands.push(
                        GpuCommand::UploadPixels {
                            handle,
                            x: 0,
                            y: 0,
                            width: update.image.width,
                            height: update.image.height,
                            update: k,
                        },
                    );
                    proof {
                        lemma_total_bytes_push(before.textures, out.cache.textures.last());
                        assert(self@.textures =~= out.cache.textures);
                        assert(commands@ =~= old(commands)@ + out.commands);
                    }
                    Ok(())
                },
                Some(i) => {
                    let current_size: usize = self.records[i].image.pixels.len();
                    proof {
                        assert(before.textures[i as int] == self.records@[i as int]@);
                        lemma_total_bytes_covers(before.textures, i as int);
                    }
                    if size > self.budget - (self.used - current_size) {
                        assert(commands@ =~= old(commands)@ + out.commands);
                        return Err(RenderError::AllocationFailed(id));
                    }
                    let handle = self.records[i].handle;
                    let same_storage = self.records[i].image.width == update.image.width
                        && self.records[i].image.height == update.image.height
                        && self.records[i].image.format == update.image.format;
                    self.records[i].image = update.image.duplicate();
                    self.used = self.used - current_size + size;
                    if !same_storage {
                        commands.push(
                            GpuCommand::AllocateTexture {
                                handle,
                                width: update.image.width,
                                height: update.image.height,
                                format: update.image.format,
                            },
                        );
                    }
                    commands.push(
                        GpuCommand::UploadPixels {
                            handle,
                            x: 0,
                            y: 0,
                            width: update.image.width,
                            height: update.image.height,
                            update: k,
                        },
                    );
                    proof {
                        lemma_total_bytes_update(before.textures, i as int, out.cache.textures[i as int]);
                        assert(self@.textures =~= out.cache.textures);
                        assert(commands@ =~= old(commands)@ + out.commands);
                    }
                    Ok(())
                },
            },
            Some((x, y)) => match found {
                None => {
                    assert(commands@ =~= old(commands)@ + out.commands);
                    Err(RenderError::DanglingReference(id))
                },
                Some(i) => {
                    proof {
                        assert(before.textures[i as int] == self.records@[i as int]@);
                    }
                    if !self.records[i].image.admits(x, y, &update.image) {
                        assert(commands@ =~= old(commands)@ + out.commands);
                        return Err(RenderError::InvalidPatch(id));
                    }
                    let handle = self.records[i].handle;
                    self.records[i].image.write(x, y, &update.image);
                    commands.push(
                        GpuCommand::UploadPixels {
                            handle,
                            x,
                            y,
                            width: update.image.width,
                            height: update.image.height,
                            update: k,
                        },
                    );
                    proof {
                        lemma_total_bytes_update(before.textures, i as int, out.cache.textures[i as int]);
                        assert(self@.textures =~= out.cache.textures);
                        assert(commands@ =~= old(commands)@ + out.commands);
                    }
                    Ok(())
                },
            },
        }
    }

    /// Takes in a delta. Its frees are queued; they are carried out by
    /// [`TextureCache::apply_frees`], once the frame is drawn. Its updates are
    /// applied in order, and the commands that carry them out on the GPU are
    /// appended to `commands`. The first update that fails ends the work: it and
    /// those behind it change nothing.
    pub fn apply_delta(&mut self, delta: &TextureDelta, commands: &mut Vec<GpuCommand>) -> (result:
        Result<(), RenderError>)
        requires
            old(self).wf(),
            delta.wf(),
        ensures
            final(self).wf(),
            final(self)@ == old(self)@.apply_delta(delta@).cache,
            final(commands)@ == old(commands)@ + old(self)@.apply_delta(delta@).commands,
            result == old(self)@.apply_delta(delta@).result(),
    {
        let ghost queued = self@.queue_frees(delta@.frees);
        let ghost whole = queued.apply_updates(delta@.updates, 0);
        let mut f: usize = 0;
        while f < delta.frees.len()
            invariant
                0 <= f <= delta.frees.len(),
                self.wf(),
                self@ == (CacheModel {
                    pending_frees: old(self)@.pending_frees + delta@.frees.subrange(0, f as int),
                    ..old(self)@
                }),
            decreases delta.frees.len() - f,
        {
            let ghost earlier = self@;
            self.pending_frees.push(delta.frees[f]);
            proof {
                assert(self@.textures =~= earlier.textures);
                assert(self@.pending_frees =~= old(self)@.pending_frees + delta@.frees.subrange(
                    0,
                    f as int + 1,
                ));
            }
            f += 1;
        }
        assert(self@ == queued) by {
            assert(delta@.frees.subrange(0, f as int) =~= delta@.frees);
        }
        let mut k: usize = 0;
        while k < delta.updates.len()
            invariant
                0 <= k <= delta.updates.len(),
                self.wf(),
                delta.wf(),
                whole == old(self)@.apply_delta(delta@),
                whole == (Outcome {
                    commands: (commands@.subrange(old(commands)@.len() as int, commands@.len() as int))
                        + self@.apply_updates(delta@.updates, k as int).commands,
                    ..self@.apply_updates(delta@.updates, k as int)
                }),
                commands@.len() >= old(commands)@.len(),
                commands@.subrange(0, old(commands)@.len() as int) == old(commands)@,
            decreases delta.updates.len() - k,
        {
            let ghost earlier = self@;
            let ghost issued = commands@;
            let ghost step = earlier.apply_update(delta@.updates[k as int], k as int);
            assert(delta@.updates[k as int] == delta.updates@[k as int]@);
            assert(delta@.updates[k as int].image.wf());
            let result = self.apply_update(&delta.updates[k], k, commands);
            proof {
                let base = old(commands)@.len() as int;
                assert(commands@.subrange(0, base) =~= old(commands)@);
                assert(commands@.subrange(base, commands@.len() as int) =~= issued.subrange(
                    base,
                    issued.len() as int,
                ) + step.commands);
            }
            match result {
                Err(e) => {
                    proof {
                        let base = old(commands)@.len() as int;
                        assert(commands@ =~= old(commands)@ + commands@.subrange(
                            base,
                            commands@.len() as int,
                        ));
                        assert(whole.commands =~= commands@.subrange(base, commands@.len() as int));
                    }
                    return Err(e);
                },
                Ok(()) => {},
            }
            proof {
                let base = old(commands)@.len() as int;
                let rest = self@.apply_updates(delta@.updates, k as int + 1);
                assert(whole.commands =~= commands@.subrange(base, commands@.len() as int)
                    + rest.commands);
            }
            k += 1;
        }
        proof {
            let base = old(commands)@.len() as int;
            assert(commands@ =~= old(commands)@ + commands@.subrange(base, commands@.len() as int));
            assert(whole.commands =~= commands@.subrange(base, commands@.len() as int));
        }
        Ok(())
    }

    /// Frees every texture that waits to be freed, in the order in which the
    /// ids were queued, and appends one release command for each texture that
    /// was live. An id that names no live texture is passed over.
    pub fn apply_frees(&mut self, commands: &mut Vec<GpuCommand>)
        requires
            old(self).wf(),
        ensures
            final(self).wf(),
            final(self)@ == old(self)@.apply_frees().cache,
            final(commands)@ == old(commands)@ + old(self)@.apply_frees().commands,
    {
        let ghost ids = self@.pending_frees;
        let ghost whole = self@.release_all(ids, 0);
        let mut k: usize = 0;
        while k < self.pending_frees.len()
            invariant
                0 <= k <= ids.len(),
                self.wf(),
                self@.pending_frees == ids,
                whole == (Outcome {
                    commands: (commands@.subrange(old(commands)@.len() as int, commands@.len() as int))
                        + self@.release_all(ids, k as int).commands,
                    ..self@.release_all(ids, k as int)
                }),
                commands@.len() >= old(commands)@.len(),
                commands@.subrange(0, old(commands)@.len() as int) == old(commands)@,
            decreases ids.len() - k,
        {
            let ghost earlier = self@;
            let ghost issued = commands@;
            let id = self.pending_frees[k];
            let ghost step = earlier.release(id);
            proof {
                lemma_release_wf(earlier, id);
            }
            match self.find(id) {
                Some(i) => {
                    proof {
                        assert(earlier.textures[i as int] == self.records@[i as int]@);
                        lemma_total_bytes_remove(earlier.textures, i as int);
                        lemma_total_bytes_covers(earlier.textures, i as int);
                    }
                    let record = self.records.remove(i);
                    self.used = self.used - record.image.pixels.len();
                    commands.push(GpuCommand::ReleaseTexture { handle: record.handle });
                    assert(self@.textures =~= step.cache.textures);
                },
                None => {},
            }
            proof {
                let base = old(commands)@.len() as int;
                assert(self@ == step.cache);
                assert(commands@.subrange(0, base) =~= old(commands)@);
                assert(commands@.subrange(base, commands@.len() as int) =~= issued.subrange(
                    base,
                    issued.len() as int,
                ) + step.commands);
                let rest = self@.release_all(ids, k as int + 1);
                assert(whole.commands =~= commands@.subrange(base, commands@.len() as int)
                    + rest.commands);
            }
            k += 1;
        }
        let ghost done = self@;
        self.pending_frees.clear();
        proof {
            let base = old(commands)@.len() as int;
            assert(self@.textures =~= done.textures);
            assert(self@.pending_frees =~= Seq::empty());
            assert(commands@ =~= old(commands)@ + commands@.subrange(base, commands@.len() as int));
            assert(whole.commands =~= commands@.subrange(base, commands@.len() as int));
        }
    }
}

} // verus!
