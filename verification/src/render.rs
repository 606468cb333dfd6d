//! What the renderer keeps between frames: handles of fonts and textures, and the
//! images that wait to be handed to the GPU.

use vstd::prelude::*;
use vstd::view::View as _;

pub mod batch;
pub mod d2;
pub mod quad;
pub mod text;

verus! {

/// How the canvas is fitted into a window of another aspect ratio.
#[derive(Clone, Copy, PartialEq, Eq, Structural, Debug)]
pub enum View {
    /// The canvas keeps its width; the visible height follows the window.
    KeepWidth,
    /// The canvas keeps its height; the visible width follows the window.
    KeepHeight,
    /// The canvas is stretched over the window.
    Scale,
    /// The canvas is ignored: one unit is one pixel of the window.
    Window,
}

/// Handle of a loaded font.
#[derive(Clone, Copy, PartialEq, Eq, Structural, Debug)]
pub struct Font {
    pub id: usize,
}

/// Handle of an image on the GPU, with its size in pixels.
#[derive(Clone, Copy, PartialEq, Eq, Structural, Debug)]
pub struct Texture {
    pub id: usize,
    pub width: u32,
    pub height: u32,
}

/// The fonts that were loaded. A font is known by the number of fonts loaded before it.
pub struct Fonts {
    pub count: usize,
}

/// An image in memory: four bytes a pixel, red, green, blue and opacity, row by row.
pub struct Bitmap {
    pub rgba: Vec<u8>,
    pub width: u32,
    pub height: u32,
}

/// What the GPU is to be told of a texture.
pub enum Upload {
    /// Make the next texture from the image.
    Create(Bitmap),
    /// Give the texture with this id the size and content of the image.
    Resize(usize, Bitmap),
}

/// The textures that were asked for, and the images that wait to be handed to the GPU.
///
/// A texture is known by the number of textures asked for before it. The GPU makes
/// its textures in the order in which it is handed the images, so the id of a texture
/// that waits is known before the texture exists.
pub struct Textures {
    /// Number of textures asked for so far.
    pub next: usize,
    /// Number of textures whose images were handed over so far.
    pub made: usize,
    /// The images of the textures that are not made yet, oldest first.
    pub buffer: Vec<Bitmap>,
    /// The images that are to replace the content of a texture, oldest first.
    pub update: Vec<(usize, Bitmap)>,
}

impl Textures {
    /// Every texture asked for was either handed over or waits.
    pub open spec fn wf(self) -> bool {
        self.next == self.made + self.buffer@.len()
    }

    /// The uploads that `take_uploads` hands over: the textures to be made, oldest
    /// first, then the replacements, oldest first.
    pub open spec fn uploads(self) -> Seq<Upload> {
        Seq::new(self.buffer@.len(), |i: int| Upload::Create(self.buffer@[i])) + Seq::new(
            self.update@.len(),
            |i: int| Upload::Resize(self.update@[i].0, self.update@[i].1),
        )
    }

    /// The GPU hears of a texture before it hears of a replacement for it: in what is
    /// handed over, the image of a texture that waits comes at the place that its id
    /// gives it, and every replacement comes later.
    pub proof fn made_before_replaced(self, id: int, j: int)
        requires
            self.wf(),
            self.made <= id < self.next,
            0 <= j < self.uploads().len(),
            self.uploads()[j] is Resize,
        ensures
            id - self.made < j,
            self.uploads()[id - self.made] == Upload::Create(self.buffer@[id - self.made]),
    {
    }

    /// No texture asked for, nothing waiting.
    pub fn new() -> (r: Self)
        ensures
            r.next == 0,
            r.made == 0,
            r.buffer@.len() == 0,
            r.update@.len() == 0,
            r.wf(),
    {
        Textures { next: 0, made: 0, buffer: Vec::new(), update: Vec::new() }
    }

    /// Hands over what waits, in the order in which the GPU is to be told, and leaves
    /// nothing waiting.
    pub fn take_uploads(&mut self) -> (out: Vec<Upload>)
        ensures
            out@ == old(self).uploads(),
            final(self).next == old(self).next,
            final(self).made == old(self).next,
            final(self).buffer@.len() == 0,
            final(self).update@.len() == 0,
            final(self).wf(),
    {
        let mut out: Vec<Upload> = Vec::new();
        let mut made: Vec<Bitmap> = Vec::new();
        let mut i: usize = 0;
        let n = self.buffer.len();
        self.made = self.next;
        while i < n
            invariant
                i <= n,
                n == old(self).buffer@.len(),
                self.next == old(self).next,
                self.made == old(self).next,
                self.update == old(self).update,
                self.buffer@.len() == n - i,
                forall|j: int| 0 <= j < n - i ==> (#[trigger] self.buffer@[j]) == old(self).buffer@[j],
                made@.len() == i,
                forall|j: int| 0 <= j < i ==> (#[trigger] made@[j]) == old(self).buffer@[n - 1 - j],
            decreases n - i,
        {
            let image = self.buffer.pop().unwrap();
            made.push(image);
            i += 1;
        }
        let mut i: usize = 0;
        while i < n
            invariant
                i <= n,
                n == old(self).buffer@.len(),
                self.next == old(self).next,
                self.made == old(self).next,
                self.update == old(self).update,
                self.buffer@.len() == 0,
                made@.len() == n - i,
                forall|j: int| 0 <= j < n - i ==> (#[trigger] made@[j]) == old(self).buffer@[n - 1 - j],
                out@.len() == i,
                forall|j: int| 0 <= j < i ==> (#[trigger] out@[j]) == Upload::Create(old(self).buffer@[j]),
            decreases n - i,
        {
            let image = made.pop().unwrap();
            out.push(Upload::Create(image));
            i += 1;
        }
        let mut changed: Vec<(usize, Bitmap)> = Vec::new();
        let m = self.update.len();
        let mut i: usize = 0;
        while i < m
            invariant
                i <= m,
                m == old(self).update@.len(),
                n == old(self).buffer@.len(),
                self.next == old(self).next,
                self.made == old(self).next,
                self.buffer@.len() == 0,
                self.update@.len() == m - i,
                forall|j: int| 0 <= j < m - i ==> (#[trigger] self.update@[j]) == old(self).update@[j],
                changed@.len() == i,
                forall|j: int| 0 <= j < i ==> (#[trigger] changed@[j]) == old(self).update@[m - 1 - j],
                out@.len() == n,
                forall|j: int| 0 <= j < n ==> (#[trigger] out@[j]) == Upload::Create(old(self).buffer@[j]),
            decreases m - i,
        {
            let entry = self.update.pop().unwrap();
            changed.push(entry);
            i += 1;
        }
        let mut i: usize = 0;
        while i < m
            invariant
                i <= m,
                m == old(self).update@.len(),
                n == old(self).buffer@.len(),
                self.next == old(self).next,
                self.made == old(self).next,
                self.buffer@.len() == 0,
                self.update@.len() == 0,
                changed@.len() == m - i,
                forall|j: int|
                    0 <= j < m - i ==> (#[trigger] changed@[j]) == old(self).update@[m - 1 - j],
                out@.len() == n + i,
                forall|j: int| 0 <= j < n ==> (#[trigger] out@[j]) == Upload::Create(old(self).buffer@[j]),
                forall|j: int|
                    0 <= j < i ==> (#[trigger] out@[n + j]) == Upload::Resize(
                        old(self).update@[j].0,
                        old(self).update@[j].1,
                    ),
            decreases m - i,
        {
            let entry = changed.pop().unwrap();
            out.push(Upload::Resize(entry.0, entry.1));
            i += 1;
        }
        proof {
            let due = old(self).uploads();
            assert(due.len() == n + m);
            assert forall|j: int| 0 <= j < n + m implies out@[j] == due[j] by {
                if j >= n {
                    assert(out@[n + (j - n)] == Upload::Resize(
                        old(self).update@[j - n].0,
                        old(self).update@[j - n].1,
                    ));
                }
            };
            assert(out@ =~= due);
        }
        out
    }
}

/// Registers a font that was loaded, and hands out its handle: the number of fonts
/// registered before it.
pub fn font(fonts: &mut Fonts) -> (r: Font)
    requires
        old(fonts).count < usize::MAX,
    ensures
        r.id == old(fonts).count,
        final(fonts).count == old(fonts).count + 1,
{
    let id = fonts.count;
    fonts.count = id + 1;
    Font { id }
}

/// Queues an image to be made a texture, and hands out the handle that the texture
/// will have.
pub fn add_texture_buffer(textures: &mut Textures, rgba: Vec<u8>, width: u32, height: u32) -> (r: Texture)
    requires
        old(textures).next < usize::MAX,
    ensures
        r == (Texture { id: old(textures).next, width, height }),
        final(textures).next == old(textures).next + 1,
        final(textures).made == old(textures).made,
        final(textures).buffer@ == old(textures).buffer@.push(Bitmap { rgba, width, height }),
        final(textures).update == old(textures).update,
{
    let id = textures.next;
    textures.buffer.push(Bitmap { rgba, width, height });
    textures.next = id + 1;
    Texture { id, width, height }
}

/// Queues an image to replace the content of texture `id`, and hands out the handle of
/// the texture with its new size.
pub fn upd_texture_buffer(
    textures: &mut Textures,
    id: usize,
    rgba: Vec<u8>,
    width: u32,
    height: u32,
) -> (r: Texture)
    ensures
        r == (Texture { id, width, height }),
        final(textures).next == old(textures).next,
        final(textures).made == old(textures).made,
        final(textures).buffer == old(textures).buffer,
        final(textures).update@ == old(textures).update@.push((id, Bitmap { rgba, width, height })),
{
    textures.update.push((id, Bitmap { rgba, width, height }));
    Texture { id, width, height }
}

/// The image crate's `load_from_memory`, followed by its conversion of the image to
/// eight bits a channel with opacity: pixels, width and height, or nothing where the
/// image crate cannot read `bytes`. What comes back may differ from call to call, since
/// the image crate lets a program register decoders of its own; whatever comes back,
/// the image crate's buffer holds at least four bytes for every pixel.
#[verifier::external_body]
fn decode(bytes: &[u8]) -> (r: Option<(Vec<u8>, u32, u32)>)
    ensures
        r matches Some((rgba, width, height)) ==> 4 * width * height <= rgba@.len(),
{
    match ::image::load_from_memory(bytes) {
        Ok(img) => {
            let rgba = img.to_rgba8();
            let (width, height) = rgba.dimensions();
            Some((rgba.into_raw(), width, height))
        },
        Err(_) => None,
    }
}

/// Queues a decoded image, if there is one, to be made a texture.
pub fn add_texture(textures: &mut Textures, decoded: Option<(Vec<u8>, u32, u32)>) -> (r: Option<Texture>)
    requires
        old(textures).next < usize::MAX,
    ensures
        match decoded {
            Some((rgba, width, height)) => {
                &&& r == Some(Texture { id: old(textures).next, width, height })
                &&& final(textures).next == old(textures).next + 1
                &&& final(textures).made == old(textures).made
                &&& final(textures).buffer@ == old(textures).buffer@.push(Bitmap { rgba, width, height })
                &&& final(textures).update == old(textures).update
            },
            None => r is None && *final(textures) == *old(textures),
        },
{
    match decoded {
        Some((rgba, width, height)) => Some(add_texture_buffer(textures, rgba, width, height)),
        None => None,
    }
}

/// Cuts a decoded image down to the four bytes a pixel that its size asks for.
fn trimmed(rgba: Vec<u8>, width: u32, height: u32) -> (r: Vec<u8>)
    requires
        4 * width * height <= rgba@.len(),
    ensures
        r@ == rgba@.take(4 * width * height),
{
    assert(width * height <= 0xFFFF_FFFF * 0xFFFF_FFFF) by (nonlinear_arith)
        requires
            0 <= width <= 0xFFFF_FFFF,
            0 <= height <= 0xFFFF_FFFF,
    ;
    let area: u128 = (width as u128) * (height as u128);
    let need: u128 = 4 * area;
    assert(need == 4 * width * height) by (nonlinear_arith)
        requires
            need == 4 * area,
            area == width * height,
    ;
    let mut r = rgba;
    r.truncate(need as usize);
    assert(r@ =~= rgba@.take(4 * width * height));
    r
}

/// Decodes the image file that `bytes` holds and queues it to be made a texture, four
/// bytes a pixel. Where the bytes are no image that can be read, nothing is queued and
/// there is no handle.
pub fn texture(textures: &mut Textures, bytes: &[u8]) -> (r: Option<Texture>)
    requires
        old(textures).next < usize::MAX,
    ensures
        r is None ==> *final(textures) == *old(textures),
        r is Some ==> {
            &&& r->0.id == old(textures).next
            &&& final(textures).next == old(textures).next + 1
            &&& final(textures).made == old(textures).made
            &&& final(textures).update == old(textures).update
            &&& final(textures).buffer@.len() == old(textures).buffer@.len() + 1
            &&& final(textures).buffer@.drop_last() == old(textures).buffer@
            &&& final(textures).buffer@.last().width == r->0.width
            &&& final(textures).buffer@.last().height == r->0.height
            &&& final(textures).buffer@.last().rgba@.len() == 4 * r->0.width * r->0.height
        },
{
    match decode(bytes) {
        Some((rgba, width, height)) => {
            let r = add_texture(textures, Some((trimmed(rgba, width, height), width, height)));
            assert(textures.buffer@.drop_last() =~= old(textures).buffer@);
            r
        },
        None => None,
    }
}

} // verus!
