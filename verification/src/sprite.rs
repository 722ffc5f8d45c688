//! Image layers: raw pixels with a z-order and a sample map.

use vstd::prelude::*;
use crate::buffer::{checked_image_len, image_len};
use crate::format::ImageFormat;
use crate::pixel::{composited, fill_rgba, filled, rgba_at, Rgba};
use crate::samples::{grid_of, lemma_cell_in_grid, SampleGrid, SampleMap};

verus! {

/// What an [`ImageSprite`] holds.
pub struct SpriteState {
    pub id: u64,
    pub width: u32,
    pub height: u32,
    pub format: ImageFormat,
    pub z_order: i32,
    /// The sprite's own pixels, row by row.
    pub bytes: Seq<u8>,
    /// Where the sprite shows on the target, if it has been placed.
    pub samples: Option<SampleGrid>,
}

impl SpriteState {
    /// The pixel data fits the size and layout, and the sample map, if there
    /// is one, is a full grid.
    pub open spec fn wf(self) -> bool {
        &&& self.bytes.len() == image_len(self.width, self.height, self.format)
        &&& self.samples matches Some(grid) ==> grid.wf()
    }

    /// The sprite's pixel in column `x` and row `y`, as RGBA: RGB data is
    /// opaque, and a gray level stands for an opaque gray.
    pub open spec fn pixel_at(self, x: int, y: int) -> Rgba {
        let i = y * self.width + x;
        match self.format {
            ImageFormat::Rgba => rgba_at(self.bytes, i),
            ImageFormat::Rgb => Rgba {
                r: self.bytes[3 * i],
                g: self.bytes[3 * i + 1],
                b: self.bytes[3 * i + 2],
                a: 255,
            },
            ImageFormat::Grayscale => Rgba {
                r: self.bytes[i],
                g: self.bytes[i],
                b: self.bytes[i],
                a: 255,
            },
        }
    }

    /// The sprite pixel that shows at target pixel (`tx`, `ty`). There is
    /// none where the sprite is not placed, where the sample map is empty,
    /// and where it points outside the sprite.
    pub open spec fn shown_at(self, tx: int, ty: int) -> Option<Rgba> {
        match self.samples {
            Some(grid) => match grid.source_at(tx, ty) {
                Some((sx, sy)) => if sx < self.width && sy < self.height {
                    Some(self.pixel_at(sx as int, sy as int))
                } else {
                    None
                },
                None => None,
            },
            None => None,
        }
    }

    /// Byte `i` of a `tw` × `th` RGBA target after the sprite has been
    /// painted onto it: where a sprite pixel shows, that pixel composited
    /// over the target's; elsewhere the target's own byte.
    pub open spec fn painted_byte(self, target: Seq<u8>, tw: u32, th: u32, i: int) -> u8 {
        let p = i / 4;
        if p < tw as int * th as int {
            match self.shown_at(p % (tw as int), p / (tw as int)) {
                Some(src) => composited(src, rgba_at(target, p)).channel(i % 4),
                None => target[i],
            }
        } else {
            target[i]
        }
    }

    /// A `tw` × `th` RGBA target after the sprite has been painted onto it.
    pub open spec fn painted(self, target: Seq<u8>, tw: u32, th: u32) -> Seq<u8> {
        Seq::new(target.len(), |i: int| self.painted_byte(target, tw, th, i))
    }
}

/// The four bytes of target pixel (`tx`, `ty`) after painting are those of
/// the sprite pixel that shows there composited over the target's, or the
/// target's own where none shows.
pub proof fn lemma_painted_pixel(
    sprite: SpriteState,
    target: Seq<u8>,
    tw: u32,
    th: u32,
    tx: int,
    ty: int,
    c: int,
)
    requires
        0 <= tx < tw,
        0 <= ty < th,
        0 <= c < 4,
    ensures
        0 <= 4 * (ty * tw + tx) + c < 4 * (tw as int * th as int),
        sprite.painted_byte(target, tw, th, 4 * (ty * tw + tx) + c) == (match sprite.shown_at(
            tx,
            ty,
        ) {
            Some(src) => composited(src, rgba_at(target, ty * tw + tx)).channel(c),
            None => target[4 * (ty * tw + tx) + c],
        }),
{
    lemma_cell_in_grid(tx, ty, tw as int, th as int);
    let p = ty * tw + tx;
    assert((4 * p + c) / 4 == p && (4 * p + c) % 4 == c) by {
        vstd::arithmetic::div_mod::lemma_fundamental_div_mod_converse(4 * p + c, 4, p, c);
    }
}

/// Target pixel number `p` of a `tw` × `th` target lies in column `p % tw`
/// and row `p / tw`, both inside the target.
pub proof fn lemma_pixel_in_target(p: int, tw: int, th: int)
    requires
        0 <= p < tw * th,
        0 <= tw,
        0 <= th,
    ensures
        0 <= p % tw < tw,
        0 <= p / tw < th,
{
    assert(tw > 0) by (nonlinear_arith)
        requires
            0 <= p < tw * th,
            0 <= tw,
    ;
    vstd::arithmetic::div_mod::lemma_fundamental_div_mod(p, tw);
    vstd::arithmetic::div_mod::lemma_mod_bound(p, tw);
    assert(p / tw < th) by (nonlinear_arith)
        requires
            p == tw * (p / tw) + p % tw,
            0 <= p % tw,
            p < tw * th,
            tw > 0,
    ;
    assert(0 <= p / tw) by (nonlinear_arith)
        requires
            p == tw * (p / tw) + p % tw,
            p % tw < tw,
            0 <= p,
            tw > 0,
    ;
}

/// A sprite of which no pixel shows on the target leaves the target as it
/// is: so does one that is not placed, and one whose sample map points
/// nowhere or only outside the sprite.
pub proof fn lemma_hidden_sprite_paints_nothing(
    sprite: SpriteState,
    target: Seq<u8>,
    tw: u32,
    th: u32,
)
    requires
        forall|tx: int, ty: int|
            0 <= tx < tw && 0 <= ty < th ==> sprite.shown_at(tx, ty) is None,
    ensures
        sprite.painted(target, tw, th) == target,
{
    assert forall|i: int| 0 <= i < target.len() implies sprite.painted_byte(target, tw, th, i)
        == target[i] by {
        let p = i / 4;
        if p < tw as int * th as int {
            lemma_pixel_in_target(p, tw as int, th as int);
        }
    }
    assert(sprite.painted(target, tw, th) =~= target);
}

/// A sprite that shows one opaque color at every pixel of the target
/// overwrites the target with that color, whatever the target held.
pub proof fn lemma_opaque_cover_overwrites(
    sprite: SpriteState,
    target: Seq<u8>,
    tw: u32,
    th: u32,
    color: Rgba,
)
    requires
        target.len() == 4 * (tw as int * th as int),
        color.a == 255,
        forall|tx: int, ty: int|
            0 <= tx < tw && 0 <= ty < th ==> sprite.shown_at(tx, ty) == Some(color),
    ensures
        sprite.painted(target, tw, th) == filled(target.len(), color),
{
    assert forall|i: int| 0 <= i < target.len() implies sprite.painted_byte(target, tw, th, i)
        == color.channel(i % 4) by {
        let p = i / 4;
        assert(p < tw as int * th as int);
        lemma_pixel_in_target(p, tw as int, th as int);
    }
    assert(sprite.painted(target, tw, th) =~= filled(target.len(), color));
}

/// The pixel data handed to [`ImageSprite::from_buffer`] does not have the
/// length that the size and layout call for.
#[derive(Debug, Clone, Copy, PartialEq, Eq, Structural)]
pub struct SizeMismatch {
    pub width: u32,
    pub height: u32,
    pub format: ImageFormat,
    /// The length of the data that was handed in.
    pub len: usize,
}

/// A layer that holds its own pixel data.
#[derive(Debug)]
pub struct ImageSprite {
    id: u64,
    buffer: Vec<u8>,
    width: u32,
    height: u32,
    format: ImageFormat,
    samples: Option<SampleMap>,
    z_order: i32,
}

impl View for ImageSprite {
    type V = SpriteState;

    closed spec fn view(&self) -> SpriteState {
        SpriteState {
            id: self.id,
            width: self.width,
            height: self.height,
            format: self.format,
            z_order: self.z_order,
            bytes: self.buffer@,
            samples: grid_of(self.samples),
        }
    }
}

impl ImageSprite {
    /// The sprite's state is well formed.
    pub open spec fn wf(&self) -> bool {
        self@.wf()
    }

    /// Creates a sprite of zero bytes: transparent black for RGBA, black
    /// otherwise. It has id 0 and z-order 0 and is not placed.
    pub fn new(width: u32, height: u32, format: ImageFormat) -> (s: ImageSprite)
        requires
            image_len(width, height, format) <= usize::MAX,
        ensures
            s.wf(),
            s@ == (SpriteState {
                id: 0,
                width,
                height,
                format,
                z_order: 0,
                bytes: Seq::new(image_len(width, height, format), |i: int| 0u8),
                samples: None,
            }),
    {
        let size: usize = match checked_image_len(width, height, format) {
            Some(n) => n,
            None => 0,
        };
        let buffer: Vec<u8> = vec![0u8; size];
        assert(buffer@ =~= Seq::new(image_len(width, height, format), |i: int| 0u8));
        ImageSprite { id: 0, buffer, width, height, format, samples: None, z_order: 0 }
    }

    /// Creates a sprite from pixel data, which must have exactly the length
    /// that the size and layout call for; other data is rejected.
    pub fn from_buffer(buffer: Vec<u8>, width: u32, height: u32, format: ImageFormat) -> (r: Result<
        ImageSprite,
        SizeMismatch,
    >)
        ensures
            r is Ok <==> buffer@.len() == image_len(width, height, format),
            r matches Ok(s) ==> s.wf() && s@ == (SpriteState {
                id: 0,
                width,
                height,
                format,
                z_order: 0,
                bytes: buffer@,
                samples: None,
            }),
            r matches Err(e) ==> e == (SizeMismatch { width, height, format, len: buffer.len() }),
    {
        let len: usize = buffer.len();
        match checked_image_len(width, height, format) {
            Some(n) => {
                if n == len {
                    Ok(ImageSprite { id: 0, buffer, width, height, format, samples: None, z_order: 0 })
                } else {
                    Err(SizeMismatch { width, height, format, len })
                }
            },
            None => Err(SizeMismatch { width, height, format, len }),
        }
    }

    /// Creates an RGBA sprite in which every pixel is (`r`, `g`, `b`, `a`).
    pub fn create_rectangle(width: u32, height: u32, r: u8, g: u8, b: u8, a: u8) -> (s: ImageSprite)
        requires
            image_len(width, height, ImageFormat::Rgba) <= usize::MAX,
        ensures
            s.wf(),
            s@ == (SpriteState {
                id: 0,
                width,
                height,
                format: ImageFormat::Rgba,
                z_order: 0,
                bytes: filled(image_len(width, height, ImageFormat::Rgba), Rgba { r, g, b, a }),
                samples: None,
            }),
    {
        let mut s = ImageSprite::new(width, height, ImageFormat::Rgba);
        fill_rgba(s.buffer.as_mut_slice(), Rgba { r, g, b, a });
        s
    }

    /// Returns the sprite's id: 0 until a scene has given it one.
    pub fn id(&self) -> (id: u64)
        ensures
            id == self@.id,
    {
        self.id
    }

    /// Gives the sprite its id.
    pub(crate) fn assign_id(&mut self, id: u64)
        ensures
            final(self)@ == (SpriteState { id, ..old(self)@ }),
    {
        self.id = id;
    }

    /// Returns the width in pixels.
    pub fn width(&self) -> (w: u32)
        ensures
            w == self@.width,
    {
        self.width
    }

    /// Returns the height in pixels.
    pub fn height(&self) -> (h: u32)
        ensures
            h == self@.height,
    {
        self.height
    }

    /// Returns the layout of the pixel data.
    pub fn format(&self) -> (f: ImageFormat)
        ensures
            f == self@.format,
    {
        self.format
    }

    /// Returns the z-order: sprites with a lower one are painted first.
    pub fn z_order(&self) -> (z: i32)
        ensures
            z == self@.z_order,
    {
        self.z_order
    }

    /// Sets the z-order.
    pub fn set_z_order(&mut self, z: i32)
        ensures
            final(self)@ == (SpriteState { z_order: z, ..old(self)@ }),
    {
        self.z_order = z;
    }

    /// Returns the pixel data.
    pub fn buffer(&self) -> (b: &[u8])
        ensures
            b@ == self@.bytes,
    {
        self.buffer.as_slice()
    }

    /// Returns the pixel data for writing in place.
    pub fn buffer_mut(&mut self) -> (b: &mut [u8])
        ensures
            b@ == old(self)@.bytes,
            final(self)@ == (SpriteState { bytes: final(b)@, ..old(self)@ }),
    {
        self.buffer.as_mut_slice()
    }

    /// Returns the sample map, if the sprite has been placed.
    pub fn samples(&self) -> (m: Option<&SampleMap>)
        ensures
            m is Some <==> self@.samples is Some,
            m matches Some(map) ==> self@.samples == Some(map@),
    {
        self.samples.as_ref()
    }

    /// Places the sprite: `samples` says where it shows on the target.
    /// `None` takes it off the target, as for a transform that has no
    /// inverse.
    pub fn set_samples(&mut self, samples: Option<SampleMap>)
        requires
            samples matches Some(map) ==> map.wf(),
        ensures
            final(self)@ == (SpriteState { samples: grid_of(samples), ..old(self)@ }),
            old(self).wf() ==> final(self).wf(),
    {
        self.samples = samples;
    }

    /// Returns the pixel in column `x` and row `y` as RGBA.
    pub fn get_pixel_rgba(&self, x: u32, y: u32) -> (p: Rgba)
        requires
            self.wf(),
            x < self@.width,
            y < self@.height,
        ensures
            p == self@.pixel_at(x as int, y as int),
    {
        let len: usize = self.buffer.len();
        proof {
            lemma_cell_in_grid(x as int, y as int, self.width as int, self.height as int);
            assert(len == self.width as int * self.height as int * self.format.channel_count())
                by (nonlinear_arith)
                requires
                    len == self.width as nat * self.height as nat * self.format.channel_count(),
            ;
            assert((y * self.width + x + 1) * self.format.channel_count() <= self.width as int
                * self.height as int * self.format.channel_count()) by (nonlinear_arith)
                requires
                    y * self.width + x + 1 <= self.width as int * self.height as int,
            ;
        }
        let idx: usize = (y as usize) * (self.width as usize) + (x as usize);
        match self.format {
            ImageFormat::Rgba => {
                let base: usize = idx * 4;
                Rgba {
                    r: self.buffer[base],
                    g: self.buffer[base + 1],
                    b: self.buffer[base + 2],
                    a: self.buffer[base + 3],
                }
            },
            ImageFormat::Rgb => {
                let base: usize = idx * 3;
                Rgba {
                    r: self.buffer[base],
                    g: self.buffer[base + 1],
                    b: self.buffer[base + 2],
                    a: 255,
                }
            },
            ImageFormat::Grayscale => {
                let gray: u8 = self.buffer[idx];
                Rgba { r: gray, g: gray, b: gray, a: 255 }
            },
        }
    }

    /// Paints the sprite onto a `target_width` × `target_height` RGBA target.
    ///
    /// Every target pixel is visited once. Where the sample map names a pixel
    /// of the sprite, that pixel is composited over the target's; where it
    /// names none, or one outside the sprite, the target keeps its pixel. A
    /// sprite that has not been placed paints nothing.
    pub fn render_to(&self, target: &mut [u8], target_width: u32, target_height: u32)
        requires
            self.wf(),
            target_width as nat * target_height as nat * 4 <= old(target)@.len(),
        ensures
            final(target)@ == self@.painted(old(target)@, target_width, target_height),
    {
        let ghost before = target@;
        let ghost tw = target_width as int;
        let ghost th = target_height as int;
        let len: usize = target.len();
        assert(4 * (tw * th) <= len) by (nonlinear_arith)
            requires
                target_width as nat * target_height as nat * 4 <= len,
                tw == target_width,
                th == target_height,
        ;
        let map = match &self.samples {
            Some(map) => map,
            None => {
                assert(target@ =~= self@.painted(before, target_width, target_height));
                return ;
            },
        };
        let mut p: usize = 0;
        let mut ty: u32 = 0;
        while ty < target_height
            invariant
                self.wf(),
                map.wf(),
                self@.samples == Some(map@),
                tw == target_width,
                th == target_height,
                4 * (tw * th) <= len,
                target@.len() == len,
                before.len() == len,
                ty <= target_height,
                p == ty * tw,
                forall|i: int|
                    0 <= i < 4 * p ==> target@[i] == self@.painted_byte(
                        before,
                        target_width,
                        target_height,
                        i,
                    ),
                forall|i: int| 4 * p <= i < len ==> target@[i] == before[i],
            decreases target_height - ty,
        {
            let mut tx: u32 = 0;
            while tx < target_width
                invariant
                    self.wf(),
                    map.wf(),
                    self@.samples == Some(map@),
                    tw == target_width,
                    th == target_height,
                    4 * (tw * th) <= len,
                    target@.len() == len,
                    before.len() == len,
                    ty < target_height,
                    tx <= target_width,
                    p == ty * tw + tx,
                    forall|i: int|
                        0 <= i < 4 * p ==> target@[i] == self@.painted_byte(
                            before,
                            target_width,
                            target_height,
                            i,
                        ),
                    forall|i: int| 4 * p <= i < len ==> target@[i] == before[i],
                decreases target_width - tx,
            {
                proof {
                    lemma_painted_pixel(self@, before, target_width, target_height, tx as int, ty as int, 0);
                    lemma_painted_pixel(self@, before, target_width, target_height, tx as int, ty as int, 1);
                    lemma_painted_pixel(self@, before, target_width, target_height, tx as int, ty as int, 2);
                    lemma_painted_pixel(self@, before, target_width, target_height, tx as int, ty as int, 3);
                }
                let at: usize = 4 * p;
                let ghost unpainted = target@;
                assert(rgba_at(unpainted, p as int) == rgba_at(before, p as int));
                if let Some((sx, sy)) = map.get(tx, ty) {
                    if sx < self.width && sy < self.height {
                        let pixel = self.get_pixel_rgba(sx, sy);
                        if pixel.a > 0 {
                            let below = Rgba {
                                r: target[at],
                                g: target[at + 1],
                                b: target[at + 2],
                                a: target[at + 3],
                            };
                            let out = pixel.over(below);
                            target[at] = out.r;
                            target[at + 1] = out.g;
                            target[at + 2] = out.b;
                            target[at + 3] = out.a;
                        }
                    }
                }
                assert forall|i: int| 0 <= i < 4 * (p + 1) implies target@[i]
                    == self@.painted_byte(before, target_width, target_height, i) by {
                    if i >= 4 * p {
                        let c = i - 4 * p;
                        assert(i == 4 * (ty * tw + tx) + c);
                    } else {
                        assert(target@[i] == unpainted[i]);
                    }
                }
                p += 1;
                tx += 1;
            }
            assert(p == (ty + 1) * tw) by (nonlinear_arith)
                requires
                    p == ty * tw + tw,
            ;
            ty += 1;
        }
        assert(p == tw * th) by (nonlinear_arith)
            requires
                p == ty * tw,
                ty == th,
        ;
        assert(target@ =~= self@.painted(before, target_width, target_height)) by {
            assert forall|i: int| 0 <= i < len implies target@[i] == self@.painted_byte(
                before,
                target_width,
                target_height,
                i,
            ) by {
                if i >= 4 * p {
                    assert(i / 4 >= tw * th);
                }
            }
        }
    }
}

} // verus!
